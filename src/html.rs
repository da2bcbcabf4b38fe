//! The rules by which the resource attributes of an HTML element are
//! rewritten, and the names they record in the link table.
use vstd::prelude::*;
use crate::outside::{decode_or_keep, is_minted_id, mint_id, unescaped_or_same};
use crate::table::{name_for, with_name, LinkTable};
use crate::text::{
    append_all, before_first_exec, chars_of, has_prefix, last_segment, last_segment_exec,
    lemma_first_from_bounds, first_from, stem, stem_exec, starts_with_chars, string_of, subvec,
    without, without_exec,
};

verus! {

/// What the rules read of an element: its tag name and the attributes
/// `rel`, `href` and `src`, where present.
#[derive(Clone, Debug)]
pub struct ElementInfo {
    pub tag: String,
    pub rel: Option<String>,
    pub href: Option<String>,
    pub src: Option<String>,
}

/// An attribute of an element to set to a new value.
#[derive(Clone, Debug)]
pub struct AttributeEdit {
    pub attribute: String,
    pub value: String,
}

pub open spec fn edit_view(e: Option<AttributeEdit>) -> Option<(Seq<char>, Seq<char>)> {
    match e {
        Some(a) => Some((a.attribute@, a.value@)),
        None => None,
    }
}

pub open spec fn opt_is(o: Option<String>, v: Seq<char>) -> bool {
    o matches Some(s) && s@ == v
}

pub open spec fn href_attr() -> Seq<char> {
    seq!['h', 'r', 'e', 'f']
}

pub open spec fn src_attr() -> Seq<char> {
    seq!['s', 'r', 'c']
}

pub open spec fn css_suffix() -> Seq<char> {
    seq!['.', 'c', 's', 's']
}

pub open spec fn html_suffix() -> Seq<char> {
    seq!['.', 'h', 't', 'm', 'l']
}

pub open spec fn cid_scheme() -> Seq<char> {
    seq!['c', 'i', 'd', ':']
}

/// `s` holds the character `c`.
pub open spec fn has_char(s: Seq<char>, c: char) -> bool {
    first_from(s, c, 0) < s.len()
}

/// The name proposed for a stylesheet: its stem with `.css`, behind a fresh
/// identifier where the last path segment has no extension.
pub open spec fn stylesheet_name(href: Seq<char>, fresh: Seq<char>) -> Seq<char> {
    let base = without(stem(href), '#') + css_suffix();
    if has_char(last_segment(href), '.') {
        base
    } else {
        fresh + base
    }
}

/// The name proposed for a nested frame: its stem with `.html`.
pub open spec fn frame_name(src: Seq<char>) -> Seq<char> {
    without(stem(src), '#') + html_suffix()
}

/// The locator under which a frame is recorded: `cid:X` becomes `<X>`, the
/// form in which a part gives its content-id.
pub open spec fn frame_key(src: Seq<char>) -> Seq<char> {
    if has_prefix(src, cid_scheme()) {
        seq!['<'] + src.subrange(4, src.len() as int) + seq!['>']
    } else {
        src
    }
}

/// The table after an element was visited, and the attribute edit to make
/// on it; `fresh` is the identifier minted for the visit.
pub open spec fn element_outcome(
    el: ElementInfo,
    t: Map<Seq<char>, Seq<char>>,
    fresh: Seq<char>,
) -> (Map<Seq<char>, Seq<char>>, Option<(Seq<char>, Seq<char>)>) {
    if el.tag@ == seq!['l', 'i', 'n', 'k'] && opt_is(el.rel, seq!['s', 't', 'y', 'l', 'e', 's', 'h', 'e', 'e', 't']) && el.href is Some {
        let h = el.href->0@;
        let p = stylesheet_name(h, fresh);
        (with_name(t, h, p), Some((href_attr(), name_for(t, h, p))))
    } else if el.tag@ == seq!['i', 'f', 'r', 'a', 'm', 'e'] && el.src is Some {
        let s = el.src->0@;
        let k = frame_key(s);
        (with_name(t, k, frame_name(s)), Some((src_attr(), name_for(t, k, frame_name(s)))))
    } else if el.tag@ == seq!['b', 'a', 's', 'e'] {
        (t, Some((href_attr(), Seq::<char>::empty())))
    } else if el.src is Some {
        let k = unescaped_or_same(el.src->0@);
        (with_name(t, k, fresh), Some((src_attr(), name_for(t, k, fresh))))
    } else {
        (t, None)
    }
}

fn frame_key_exec(src: &String) -> (r: String)
    ensures
        r@ == frame_key(src@),
{
    let s = chars_of(src.as_str());
    let scheme = vec!['c', 'i', 'd', ':'];
    if starts_with_chars(&s, &scheme) {
        let mut k: Vec<char> = vec!['<'];
        let rest = subvec(&s, 4, s.len());
        append_all(&mut k, rest.as_slice());
        k.push('>');
        proof {
            assert(k@ =~= seq!['<'] + s@.subrange(4, s@.len() as int) + seq!['>']);
        }
        string_of(&k)
    } else {
        src.clone()
    }
}

fn stylesheet_name_exec(href: &String, fresh: &String) -> (r: String)
    ensures
        r@ == stylesheet_name(href@, fresh@),
{
    let h = chars_of(href.as_str());
    let mut base = without_exec(&stem_exec(&h), '#');
    append_all(&mut base, vec!['.', 'c', 's', 's'].as_slice());
    let seg = last_segment_exec(&h);
    let head = before_first_exec(&seg, '.');
    proof {
        lemma_first_from_bounds(seg@, '.', 0);
    }
    if head.len() < seg.len() {
        string_of(&base)
    } else {
        let mut named = chars_of(fresh.as_str());
        append_all(&mut named, base.as_slice());
        string_of(&named)
    }
}

fn frame_name_exec(src: &String) -> (r: String)
    ensures
        r@ == frame_name(src@),
{
    let s = chars_of(src.as_str());
    let mut name = without_exec(&stem_exec(&s), '#');
    append_all(&mut name, vec!['.', 'h', 't', 'm', 'l'].as_slice());
    string_of(&name)
}

/// Applies the element rules to one element with `fresh` as the identifier
/// minted for it: records the names that the element brings into `table`
/// (a locator that has a name keeps it) and returns the edit to make.
pub fn rewrite_element_with(table: &mut LinkTable, el: &ElementInfo, fresh: &String) -> (r:
    Option<AttributeEdit>)
    requires
        old(table).wf(),
    ensures
        final(table).wf(),
        (final(table)@, edit_view(r)) == element_outcome(*el, old(table)@, fresh@),
{
    let href_name = string_of(&vec!['h', 'r', 'e', 'f']);
    let src_name = string_of(&vec!['s', 'r', 'c']);
    let stylesheet = string_of(&vec!['s', 't', 'y', 'l', 'e', 's', 'h', 'e', 'e', 't']);
    let iframe = string_of(&vec!['i', 'f', 'r', 'a', 'm', 'e']);
    let base = string_of(&vec!['b', 'a', 's', 'e']);
    let link = string_of(&vec!['l', 'i', 'n', 'k']);
    let is_stylesheet = match &el.rel {
        Some(rel) => *rel == stylesheet,
        None => false,
    };
    if el.tag == link && is_stylesheet && el.href.is_some() {
        let h = el.href.clone().unwrap();
        let proposed = stylesheet_name_exec(&h, fresh);
        let name = table.assign_if_absent(h, proposed);
        Some(AttributeEdit { attribute: href_name, value: name })
    } else if el.tag == iframe && el.src.is_some() {
        let s = el.src.clone().unwrap();
        let key = frame_key_exec(&s);
        let proposed = frame_name_exec(&s);
        let name = table.assign_if_absent(key, proposed);
        Some(AttributeEdit { attribute: src_name, value: name })
    } else if el.tag == base {
        Some(AttributeEdit { attribute: href_name, value: String::new() })
    } else if el.src.is_some() {
        let s = el.src.clone().unwrap();
        let key = decode_or_keep(&s);
        let name = table.assign_if_absent(key, fresh.clone());
        Some(AttributeEdit { attribute: src_name, value: name })
    } else {
        None
    }
}

/// Applies the element rules to one element, minting a fresh identifier for
/// it.
pub fn rewrite_element(table: &mut LinkTable, el: &ElementInfo) -> (r: Option<AttributeEdit>)
    requires
        old(table).wf(),
    ensures
        final(table).wf(),
        exists|fresh: Seq<char>|
            is_minted_id(fresh) && (final(table)@, edit_view(r)) == element_outcome(
                *el,
                old(table)@,
                fresh,
            ),
{
    let fresh = mint_id();
    rewrite_element_with(table, el, &fresh)
}

} // verus!
