//! The calls into outside code that the rewriting logic makes.
use vstd::prelude::*;
use vstd::utf8::{decode_utf8, valid_utf8};

verus! {

/// What `htmlescape::decode_html` returns for a text: the text with its
/// character references decoded, or nothing where it rejects the text.
pub uninterp spec fn html_unescaped(s: Seq<char>) -> Option<Seq<char>>;

/// The captures that a regular expression finds in a byte string, in order:
/// start and end of the whole match, and the span of the first group.
pub uninterp spec fn regex_captures(pattern: Seq<char>, text: Seq<u8>) -> Seq<
    (int, int, Option<(int, int)>),
>;

/// Whether `regex::bytes::Regex::new` accepts a pattern.
pub uninterp spec fn regex_accepts(pattern: Seq<char>) -> bool;

/// One capture of a regular expression: byte offsets of the whole match and
/// of its first group, where that group took part.
#[derive(Clone, Copy, Debug)]
pub struct Capture {
    pub start: usize,
    pub end: usize,
    pub group: Option<(usize, usize)>,
}

impl Capture {
    pub open spec fn span(self) -> (int, int, Option<(int, int)>) {
        (
            self.start as int,
            self.end as int,
            match self.group {
                Some(g) => Some((g.0 as int, g.1 as int)),
                None => None,
            },
        )
    }
}

/// Each capture lies in the text, its group inside it, and captures follow
/// one another without overlap.
pub open spec fn spans_in_order(c: Seq<(int, int, Option<(int, int)>)>, len: int) -> bool {
    &&& forall|k: int|
        0 <= k < c.len() ==> {
            &&& 0 <= #[trigger] c[k].0 <= c[k].1 <= len
            &&& (c[k].2 matches Some(g) ==> c[k].0 <= g.0 <= g.1 <= c[k].1)
        }
    &&& forall|k: int| 0 < k < c.len() ==> c[k - 1].1 <= #[trigger] c[k].0
}

/// Relies on `regex::bytes::Regex::new` and `Regex::captures_iter`: the
/// successive non-overlapping captures of `pattern` in `text`, or nothing
/// where the pattern does not compile.
#[verifier::external_body]
pub(crate) fn find_captures(pattern: &str, text: &[u8]) -> (r: Option<Vec<Capture>>)
    ensures
        r is Some <==> regex_accepts(pattern@),
        r matches Some(v) ==> v@.map_values(|c: Capture| c.span()) == regex_captures(
            pattern@,
            text@,
        ),
        r matches Some(v) ==> spans_in_order(
            v@.map_values(|c: Capture| c.span()),
            text@.len() as int,
        ),
{
    let re = regex::bytes::Regex::new(pattern).ok()?;
    Some(
        re.captures_iter(text).map(
            |c| Capture {
                start: c.get_match().start(),
                end: c.get_match().end(),
                group: c.get(1).map(|g| (g.start(), g.end())),
            },
        ).collect(),
    )
}

/// Relies on `htmlescape::decode_html`: decodes the character references of
/// `s`, or fails on a malformed one.
#[verifier::external_body]
pub(crate) fn decode_html(s: &str) -> (r: Option<String>)
    ensures
        match r {
            Some(d) => html_unescaped(s@) == Some(d@),
            None => html_unescaped(s@) is None,
        },
{
    htmlescape::decode_html(s).ok()
}

/// A character of the hyphenated form of a UUID: a lowercase hex digit or
/// a hyphen.
pub open spec fn is_id_char(c: char) -> bool {
    ('0' <= c && c <= '9') || ('a' <= c && c <= 'f') || c == '-'
}

/// The shape of a minted identifier: 36 characters of the hyphenated form.
pub open spec fn is_minted_id(s: Seq<char>) -> bool {
    s.len() == 36 && forall|i: int| 0 <= i < s.len() ==> is_id_char(#[trigger] s[i])
}

/// Relies on `uuid::Uuid::new_v4` and the hyphenated lowercase form that its
/// `Display` writes: a random identifier of 36 hex digits and hyphens.
#[verifier::external_body]
pub(crate) fn mint_id() -> (r: String)
    ensures
        is_minted_id(r@),
{
    uuid::Uuid::new_v4().to_string()
}

/// Relies on `String::from_utf8`: the text that `b` encodes, or nothing where
/// `b` is not UTF-8.
#[verifier::external_body]
pub(crate) fn utf8_text(b: Vec<u8>) -> (r: Option<String>)
    ensures
        r is Some <==> valid_utf8(b@),
        r matches Some(s) ==> s@ == decode_utf8(b@),
{
    String::from_utf8(b).ok()
}

/// A text with its character references decoded, or the text as it is where
/// decoding fails.
pub open spec fn unescaped_or_same(s: Seq<char>) -> Seq<char> {
    match html_unescaped(s) {
        Some(d) => d,
        None => s,
    }
}

pub fn decode_or_keep(s: &String) -> (r: String)
    ensures
        r@ == unescaped_or_same(s@),
{
    match decode_html(s.as_str()) {
        Some(d) => d,
        None => s.clone(),
    }
}

} // verus!
