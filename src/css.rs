//! Rewriting of the `url(...)` references of a stylesheet.
use vstd::prelude::*;
use vstd::utf8::{decode_utf8, encode_utf8, valid_utf8};
use crate::outside::{
    decode_or_keep, find_captures, is_minted_id, mint_id, regex_accepts, regex_captures, spans_in_order,
    unescaped_or_same, utf8_text, Capture,
};
use crate::table::{Assoc, LinkTable};
use crate::text::{append_all, ends_with_bytes, has_prefix, has_suffix, starts_with_bytes, subvec};

verus! {

/// The pattern of a reference: `url(`, a locator of URL characters, `)`,
/// case-insensitive and with white space allowed inside the parentheses.
pub const URL_PATTERN: &'static str = "(?i)(?m)url\\s*\\(\\s*([$&+,:;=?@#'\"<>*%!/.-a-zA-Z_]+)\\s*\\)";

/// Byte offsets of a whole match and of its locator group.
pub type Span = (int, int, Option<(int, int)>);

/// Where the rewriting stands: output so far, mappings minted, identifiers
/// used, and the offset up to which the input was consumed.
pub type CssState = (Seq<u8>, Map<Seq<char>, Seq<char>>, int, int);

pub open spec fn spans_of(v: Seq<Capture>) -> Seq<Span> {
    v.map_values(|c: Capture| c.span())
}

pub open spec fn is_quote(b: u8) -> bool {
    b == 34u8 || b == 39u8
}

/// `s` without one enclosing quote at either end.
pub open spec fn unquote(s: Seq<u8>) -> Seq<u8> {
    let a: int = if s.len() > 0 && is_quote(s[0]) {
        1
    } else {
        0
    };
    let b: int = if s.len() > a && is_quote(s.last()) {
        s.len() - 1
    } else {
        s.len() as int
    };
    s.subrange(a, b)
}

/// `data:`
pub open spec fn data_scheme() -> Seq<u8> {
    seq![100u8, 97u8, 116u8, 97u8, 58u8]
}

/// `.css`
pub open spec fn css_extension() -> Seq<u8> {
    seq![46u8, 99u8, 115u8, 115u8]
}

/// The locator under which a referenced resource is named, or `None` for a
/// reference that stays as it is: a data URI, a stylesheet, or bytes that
/// are not text.
pub open spec fn proxied_key(loc: Seq<u8>) -> Option<Seq<char>> {
    if has_prefix(loc, data_scheme()) || has_suffix(loc, css_extension()) || !valid_utf8(loc) {
        None
    } else {
        Some(unescaped_or_same(decode_utf8(loc)))
    }
}

/// `url("<name>")`
pub open spec fn url_ref(name: Seq<char>) -> Seq<u8> {
    seq![117u8, 114u8, 108u8, 40u8, 34u8] + encode_utf8(name) + seq![34u8, 41u8]
}

pub open spec fn span_key(css: Seq<u8>, c: Span) -> Option<Seq<char>> {
    match c.2 {
        Some(g) => proxied_key(unquote(css.subrange(g.0, g.1))),
        None => None,
    }
}

/// One reference rewritten: a locator that the table names takes that
/// name, else the name minted for it earlier in this text, else the next
/// identifier of `ids`.
pub open spec fn css_step(
    css: Seq<u8>,
    t: Map<Seq<char>, Seq<char>>,
    ids: Seq<Seq<char>>,
    st: CssState,
    c: Span,
) -> CssState {
    let kept = st.0 + css.subrange(st.3, c.0);
    match span_key(css, c) {
        None => (kept + css.subrange(c.0, c.1), st.1, st.2, c.1),
        Some(k) => if t.contains_key(k) {
            (kept + url_ref(t[k]), st.1, st.2, c.1)
        } else if st.1.contains_key(k) {
            (kept + url_ref(st.1[k]), st.1, st.2, c.1)
        } else {
            (kept + url_ref(ids[st.2]), st.1.insert(k, ids[st.2]), st.2 + 1, c.1)
        },
    }
}

pub open spec fn css_fold(
    css: Seq<u8>,
    caps: Seq<Span>,
    t: Map<Seq<char>, Seq<char>>,
    ids: Seq<Seq<char>>,
    n: int,
) -> CssState
    decreases n,
{
    if n <= 0 || n > caps.len() {
        (Seq::empty(), Map::empty(), 0, 0)
    } else {
        css_step(css, t, ids, css_fold(css, caps, t, ids, n - 1), caps[n - 1])
    }
}

/// The rewritten text and the mappings minted for it.
pub open spec fn css_rewritten(
    css: Seq<u8>,
    caps: Seq<Span>,
    t: Map<Seq<char>, Seq<char>>,
    ids: Seq<Seq<char>>,
) -> (Seq<u8>, Map<Seq<char>, Seq<char>>) {
    let st = css_fold(css, caps, t, ids, caps.len() as int);
    (st.0 + css.subrange(st.3, css.len() as int), st.1)
}

pub open spec fn views_of(ids: Seq<String>) -> Seq<Seq<char>> {
    ids.map_values(|s: String| s@)
}

fn unquote_exec(s: &Vec<u8>) -> (r: Vec<u8>)
    ensures
        r@ == unquote(s@),
{
    let a: usize = if s.len() > 0 && (s[0] == 34u8 || s[0] == 39u8) {
        1
    } else {
        0
    };
    let b: usize = if s.len() > a && (s[s.len() - 1] == 34u8 || s[s.len() - 1] == 39u8) {
        s.len() - 1
    } else {
        s.len()
    };
    subvec(s, a, b)
}

fn proxied_key_exec(loc: Vec<u8>) -> (r: Option<String>)
    ensures
        r matches Some(k) ==> proxied_key(loc@) == Some(k@),
        r is None ==> proxied_key(loc@) is None,
{
    let data = vec![100u8, 97u8, 116u8, 97u8, 58u8];
    let ext = vec![46u8, 99u8, 115u8, 115u8];
    assert(data@ == data_scheme());
    assert(ext@ == css_extension());
    if starts_with_bytes(loc.as_slice(), data.as_slice()) || ends_with_bytes(
        loc.as_slice(),
        ext.as_slice(),
    ) {
        return None;
    }
    match utf8_text(loc) {
        Some(text) => Some(decode_or_keep(&text)),
        None => None,
    }
}

fn push_url_ref(out: &mut Vec<u8>, name: &String)
    ensures
        final(out)@ == old(out)@ + url_ref(name@),
{
    let head = vec![117u8, 114u8, 108u8, 40u8, 34u8];
    append_all(out, head.as_slice());
    append_all(out, name.as_str().as_bytes());
    out.push(34u8);
    out.push(41u8);
    assert(final(out)@ =~= old(out)@ + url_ref(name@));
}

/// Rewrites the references of `css` that `caps` locates, taking the names it
/// mints from `ids` in order; returns the text and the mappings it minted.
pub fn rewrite_css_with(
    css: &Vec<u8>,
    caps: &Vec<Capture>,
    table: &LinkTable,
    ids: &Vec<String>,
) -> (r: (Vec<u8>, LinkTable))
    requires
        table.wf(),
        spans_in_order(spans_of(caps@), css@.len() as int),
        caps@.len() <= ids@.len(),
    ensures
        r.1.wf(),
        (r.0@, r.1@) == css_rewritten(css@, spans_of(caps@), table@, views_of(ids@)),
{
    let ghost sp = spans_of(caps@);
    let ghost iv = views_of(ids@);
    let mut out: Vec<u8> = Vec::new();
    let mut delta: LinkTable = Assoc::new();
    let mut used: usize = 0;
    let mut pos: usize = 0;
    let mut k: usize = 0;
    while k < caps.len()
        invariant
            table.wf(),
            delta.wf(),
            sp == spans_of(caps@),
            iv == views_of(ids@),
            spans_in_order(sp, css@.len() as int),
            caps@.len() <= ids@.len(),
            k <= caps@.len(),
            used <= k,
            pos <= css@.len(),
            k < caps@.len() ==> pos <= sp[k as int].0,
            css_fold(css@, sp, table@, iv, k as int) == (out@, delta@, used as int, pos as int),
        decreases caps@.len() - k,
    {
        let c = caps[k];
        assert(sp[k as int] == c.span());
        let gap = subvec(css, pos, c.start);
        append_all(&mut out, gap.as_slice());
        let key = match c.group {
            Some(g) => proxied_key_exec(unquote_exec(&subvec(css, g.0, g.1))),
            None => None,
        };
        match key {
            None => {
                let whole = subvec(css, c.start, c.end);
                append_all(&mut out, whole.as_slice());
            },
            Some(key) => {
                match table.lookup(&key) {
                    Some(name) => push_url_ref(&mut out, &name),
                    None => match delta.lookup(&key) {
                        Some(name) => push_url_ref(&mut out, &name),
                        None => {
                            let name = ids[used].clone();
                            push_url_ref(&mut out, &name);
                            delta.insert_if_absent(key, name);
                            used = used + 1;
                        },
                    },
                }
            },
        }
        pos = c.end;
        proof {
            if k + 1 < caps@.len() {
                assert(sp[k + 1].0 >= sp[k as int].1);
            }
        }
        k = k + 1;
    }
    let rest = subvec(css, pos, css.len());
    append_all(&mut out, rest.as_slice());
    (out, delta)
}

/// Rewrites the references of `css`: where the table names a locator the
/// reference takes that name, else it takes a freshly minted identifier.
/// Returns the text and the mappings it minted; where the reference pattern
/// is not accepted, the text as it is and no mapping.
pub fn rewrite_css(css: &Vec<u8>, table: &LinkTable) -> (r: (Vec<u8>, LinkTable))
    requires
        table.wf(),
    ensures
        r.1.wf(),
        regex_accepts(URL_PATTERN@) ==> exists|ids: Seq<Seq<char>>|
            (forall|i: int| 0 <= i < ids.len() ==> is_minted_id(#[trigger] ids[i])) && (
            r.0@,
            r.1@,
        ) == css_rewritten(
                css@,
                regex_captures(URL_PATTERN@, css@),
                table@,
                ids,
            ),
        !regex_accepts(URL_PATTERN@) ==> r.0@ == css@ && r.1@ == Map::<
            Seq<char>,
            Seq<char>,
        >::empty(),
{
    match find_captures(URL_PATTERN, css.as_slice()) {
        Some(caps) => {
            let mut ids: Vec<String> = Vec::new();
            let mut i: usize = 0;
            while i < caps.len()
                invariant
                    i <= caps@.len(),
                    ids@.len() == i,
                    forall|j: int| 0 <= j < i ==> is_minted_id(#[trigger] ids@[j]@),
                decreases caps@.len() - i,
            {
                ids.push(mint_id());
                i = i + 1;
            }
            let r = rewrite_css_with(css, &caps, table, &ids);
            assert(forall|j: int|
                0 <= j < views_of(ids@).len() ==> is_minted_id(#[trigger] views_of(ids@)[j]));
            r
        },
        None => {
            let mut same: Vec<u8> = Vec::new();
            append_all(&mut same, css.as_slice());
            (same, Assoc::new())
        },
    }
}

} // verus!
