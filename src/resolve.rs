//! The walk over the parts of an archive: each part is matched against the
//! link table, decoded bodies are rewritten where they are stylesheets, and
//! the results are collected under their output names.
use vstd::prelude::*;
use crate::css::{css_rewritten, rewrite_css, URL_PATTERN};
use crate::html::{edit_view, element_outcome, rewrite_element, AttributeEdit, ElementInfo};
use crate::outside::{decode_or_keep, is_minted_id, mint_id, regex_accepts, regex_captures, unescaped_or_same};
use crate::table::{merge, with_name, Assoc, FileSet, LinkTable};
use crate::text::{
    after_last, after_last_exec, append_all, before_first, before_first_exec, chars_of,
    string_of, subvec, without, without_exec,
};

verus! {

/// The transfer encoding of a part.
#[derive(Clone, Copy, Debug, PartialEq, Eq)]
pub enum TransferEncoding {
    Base64,
    QuotedPrintable,
    SevenBit,
    EightBit,
    Binary,
}

/// One part of the archive, as its parser hands it over: the header values
/// that resolution reads, and the body with its transfer encoding undone.
#[derive(Clone, Debug)]
pub struct Part {
    pub content_type: String,
    pub content_id: Option<String>,
    pub content_location: Option<String>,
    pub encoding: TransferEncoding,
    pub body: Vec<u8>,
}

/// What became of a part.
#[derive(Clone, Debug)]
pub enum PartOutcome {
    /// Its content was stored under this name.
    Stored(String),
    /// It is a nested HTML document, to be rewritten and then stored under
    /// `name` with `Extraction::store_document`.
    Frame { name: String, body: Vec<u8> },
    /// Its transfer encoding is not one whose parts are extracted.
    Skipped,
}

/// The parts whose content is extracted are those sent in base64 or
/// quoted-printable.
pub open spec fn extracted_encoding(e: TransferEncoding) -> bool {
    e is Base64 || e is QuotedPrintable
}

pub open spec fn header_key(h: Option<String>) -> Option<Seq<char>> {
    match h {
        Some(s) => Some(unescaped_or_same(s@)),
        None => None,
    }
}

/// The name that the table gives a part: by its content-location first,
/// else by its content-id.
pub open spec fn found_name(t: Map<Seq<char>, Seq<char>>, p: Part) -> Option<Seq<char>> {
    let l = header_key(p.content_location);
    let c = header_key(p.content_id);
    if l is Some && t.contains_key(l->0) {
        Some(t[l->0])
    } else if c is Some && t.contains_key(c->0) {
        Some(t[c->0])
    } else {
        None
    }
}

/// The locator under which a part that no markup named is recorded.
pub open spec fn identity(p: Part) -> Option<Seq<char>> {
    match header_key(p.content_location) {
        Some(l) => Some(l),
        None => header_key(p.content_id),
    }
}

/// The file name made of an assigned name: what follows its last colon,
/// without `#`.
pub open spec fn output_name(n: Seq<char>) -> Seq<char> {
    without(after_last(n, ':'), '#')
}

/// `s` without enclosing angle brackets.
pub open spec fn unbracketed(s: Seq<char>) -> Seq<char> {
    if s.len() >= 2 && s[0] == '<' && s.last() == '>' {
        s.subrange(1, s.len() - 1)
    } else {
        s
    }
}

/// The file name of a nested frame: the local part of its content-id up to
/// the first dot, with `.html`; without a content-id, its output name.
pub open spec fn frame_file(p: Part, n: Seq<char>) -> Seq<char> {
    match header_key(p.content_id) {
        Some(c) => before_first(unbracketed(c), '.') + seq!['.', 'h', 't', 'm', 'l'],
        None => output_name(n),
    }
}

pub open spec fn with_file(
    f: Map<Seq<char>, Seq<u8>>,
    name: Seq<char>,
    content: Seq<u8>,
) -> Map<Seq<char>, Seq<u8>> {
    if f.contains_key(name) {
        f
    } else {
        f.insert(name, content)
    }
}

pub open spec fn root_name() -> Seq<char> {
    seq!['i', 'n', 'd', 'e', 'x', '.', 'h', 't', 'm', 'l']
}

pub open spec fn text_css() -> Seq<char> {
    seq!['t', 'e', 'x', 't', '/', 'c', 's', 's']
}

pub open spec fn text_html() -> Seq<char> {
    seq!['t', 'e', 'x', 't', '/', 'h', 't', 'm', 'l']
}

/// One extraction: the link table and the files extracted so far.
pub struct Extraction {
    table: LinkTable,
    files: FileSet,
}

fn header_key_exec(h: &Option<String>) -> (r: Option<String>)
    ensures
        match r {
            Some(s) => header_key(*h) == Some(s@),
            None => header_key(*h) is None,
        },
{
    match h {
        Some(s) => Some(decode_or_keep(s)),
        None => None,
    }
}

fn output_name_exec(n: &String) -> (r: String)
    ensures
        r@ == output_name(n@),
{
    let c = chars_of(n.as_str());
    string_of(&without_exec(&after_last_exec(&c, ':'), '#'))
}

fn frame_file_exec(p: &Part, n: &String) -> (r: String)
    ensures
        r@ == frame_file(*p, n@),
{
    match header_key_exec(&p.content_id) {
        Some(c) => {
            let s = chars_of(c.as_str());
            let inner = if s.len() >= 2 && s[0] == '<' && s[s.len() - 1] == '>' {
                subvec(&s, 1, s.len() - 1)
            } else {
                s
            };
            let mut name = before_first_exec(&inner, '.');
            append_all(&mut name, vec!['.', 'h', 't', 'm', 'l'].as_slice());
            string_of(&name)
        },
        None => output_name_exec(n),
    }
}

impl Extraction {
    pub closed spec fn wf(&self) -> bool {
        self.table.wf() && self.files.wf()
    }

    /// The link table.
    pub closed spec fn links(&self) -> Map<Seq<char>, Seq<char>> {
        self.table@
    }

    /// The files extracted so far, by name.
    pub closed spec fn extracted(&self) -> Map<Seq<char>, Seq<u8>> {
        self.files@
    }

    pub fn new() -> (r: Self)
        ensures
            r.wf(),
            r.links() == Map::<Seq<char>, Seq<char>>::empty(),
            r.extracted() == Map::<Seq<char>, Seq<u8>>::empty(),
    {
        Extraction { table: Assoc::new(), files: Assoc::new() }
    }

    /// Applies the element rules to one element of an HTML body being
    /// rewritten, against the table of this extraction.
    pub fn rewrite_element(&mut self, el: &ElementInfo) -> (r: Option<AttributeEdit>)
        requires
            old(self).wf(),
        ensures
            final(self).wf(),
            final(self).extracted() == old(self).extracted(),
            exists|fresh: Seq<char>|
                is_minted_id(fresh) && (final(self).links(), edit_view(r)) == element_outcome(
                    *el,
                    old(self).links(),
                    fresh,
                ),
    {
        rewrite_element(&mut self.table, el)
    }

    /// Stores a rewritten HTML document under `name`, unless a file of
    /// that name was stored before.
    pub fn store_document(&mut self, name: String, body: Vec<u8>)
        requires
            old(self).wf(),
        ensures
            final(self).wf(),
            final(self).links() == old(self).links(),
            final(self).extracted() == with_file(old(self).extracted(), name@, body@),
    {
        self.files.insert_if_absent(name, body);
    }

    /// Stores the rewritten root document under `index.html`.
    pub fn store_root(&mut self, body: Vec<u8>)
        requires
            old(self).wf(),
        ensures
            final(self).wf(),
            final(self).links() == old(self).links(),
            final(self).extracted() == with_file(old(self).extracted(), root_name(), body@),
    {
        let name = string_of(&vec!['i', 'n', 'd', 'e', 'x', '.', 'h', 't', 'm', 'l']);
        self.store_document(name, body);
    }

    /// Resolves one part of the archive against the link table.
    pub fn resolve_part(&mut self, part: Part) -> (r: PartOutcome)
        requires
            old(self).wf(),
        ensures
            final(self).wf(),
            match found_name(old(self).links(), part) {
                Some(n) => if !extracted_encoding(part.encoding) {
                    r is Skipped && final(self).links() == old(self).links()
                        && final(self).extracted() == old(self).extracted()
                } else if part.content_type@ == text_css() {
                    &&& r matches PartOutcome::Stored(s) && s@ == output_name(n)
                    &&& regex_accepts(URL_PATTERN@) ==> exists|ids: Seq<Seq<char>>|
                        {
                            let (out, minted) = #[trigger] css_rewritten(
                                part.body@,
                                regex_captures(URL_PATTERN@, part.body@),
                                old(self).links(),
                                ids,
                            );
                            &&& forall|i: int| 0 <= i < ids.len() ==> is_minted_id(#[trigger] ids[i])
                            &&& final(self).links() == minted.union_prefer_right(
                                old(self).links(),
                            )
                            &&& final(self).extracted() == with_file(
                                old(self).extracted(),
                                output_name(n),
                                out,
                            )
                        }
                    &&& !regex_accepts(URL_PATTERN@) ==> final(self).links() == old(self).links()
                        && final(self).extracted() == with_file(
                        old(self).extracted(),
                        output_name(n),
                        part.body@,
                    )
                } else if part.content_type@ == text_html() {
                    r matches PartOutcome::Frame { name, body } && name@ == frame_file(part, n)
                        && body@ == part.body@ && final(self).links() == old(self).links()
                        && final(self).extracted() == old(self).extracted()
                } else {
                    r matches PartOutcome::Stored(s) && s@ == output_name(n) && final(self).links() == old(self).links() && final(self).extracted() == with_file(
                        old(self).extracted(),
                        output_name(n),
                        part.body@,
                    )
                },
                None => exists|fresh: Seq<char>|
                    {
                        &&& is_minted_id(fresh)
                        &&& final(self).links() == match identity(part) {
                            Some(k) => with_name(old(self).links(), k, fresh),
                            None => old(self).links(),
                        }
                        &&& if extracted_encoding(part.encoding) {
                            r matches PartOutcome::Stored(s) && s@ == fresh
                                && final(self).extracted() == with_file(
                                old(self).extracted(),
                                fresh,
                                part.body@,
                            )
                        } else {
                            r is Skipped && final(self).extracted() == old(self).extracted()
                        }
                    },
            },
    {
        let loc = header_key_exec(&part.content_location);
        let cid = header_key_exec(&part.content_id);
        let mut found: Option<String> = None;
        if let Some(l) = &loc {
            found = self.table.lookup(l);
        }
        if found.is_none() {
            if let Some(c) = &cid {
                found = self.table.lookup(c);
            }
        }
        let extracted = match part.encoding {
            TransferEncoding::Base64 | TransferEncoding::QuotedPrintable => true,
            _ => false,
        };
        match found {
            Some(n) => {
                if !extracted {
                    return PartOutcome::Skipped;
                }
                let text_css = string_of(&vec!['t', 'e', 'x', 't', '/', 'c', 's', 's']);
                let text_html = string_of(&vec!['t', 'e', 'x', 't', '/', 'h', 't', 'm', 'l']);
                let out = output_name_exec(&n);
                if part.content_type == text_css {
                    let (after, minted) = rewrite_css(&part.body, &self.table);
                    merge(&mut self.table, &minted);
                    self.files.insert_if_absent(out.clone(), after);
                    PartOutcome::Stored(out)
                } else if part.content_type == text_html {
                    let name = frame_file_exec(&part, &n);
                    PartOutcome::Frame { name, body: part.body }
                } else {
                    self.files.insert_if_absent(out.clone(), part.body);
                    PartOutcome::Stored(out)
                }
            },
            None => {
                let fresh = mint_id();
                let key = match loc {
                    Some(l) => Some(l),
                    None => cid,
                };
                match key {
                    Some(k) => {
                        self.table.assign_if_absent(k, fresh.clone());
                    },
                    None => {},
                }
                if extracted {
                    self.files.insert_if_absent(fresh.clone(), part.body);
                    PartOutcome::Stored(fresh)
                } else {
                    PartOutcome::Skipped
                }
            },
        }
    }

    /// The extracted files, in the order in which they were stored.
    pub fn into_files(self) -> (r: Vec<(String, Vec<u8>)>)
        requires
            self.wf(),
        ensures
            crate::table::entries_map(r@) == self.extracted(),
            crate::table::keys_unique(r@),
    {
        self.files.into_entries()
    }
}

} // verus!
