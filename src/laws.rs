//! Properties that hold across the rewriting functions.
use vstd::prelude::*;
use crate::css::{css_fold, css_rewritten, css_step, span_key, url_ref, Span};
use crate::resolve::{found_name, header_key, output_name, Part};
use crate::text::{after_last, last_before, without};
use crate::html::{element_outcome, href_attr, opt_is};
use crate::outside::{is_minted_id, spans_in_order};

verus! {

proof fn lemma_fold_passthrough(
    css: Seq<u8>,
    caps: Seq<Span>,
    t: Map<Seq<char>, Seq<char>>,
    ids: Seq<Seq<char>>,
    n: int,
)
    requires
        spans_in_order(caps, css.len() as int),
        forall|k: int| 0 <= k < caps.len() ==> (#[trigger] span_key(css, caps[k])) is None,
        0 <= n <= caps.len(),
    ensures
        ({
            let st = css_fold(css, caps, t, ids, n);
            let pos = if n == 0 {
                0
            } else {
                caps[n - 1].1
            };
            st == (css.subrange(0, pos), Map::<Seq<char>, Seq<char>>::empty(), 0int, pos)
        }),
    decreases n,
{
    if n > 0 {
        lemma_fold_passthrough(css, caps, t, ids, n - 1);
        let prev = if n - 1 == 0 {
            0
        } else {
            caps[n - 2].1
        };
        assert(span_key(css, caps[n - 1]) is None);
        assert(0 <= caps[n - 1].0);
        if n >= 2 {
            assert(caps[n - 2].1 <= caps[n - 1].0);
        }
        assert(css.subrange(0, prev) + css.subrange(prev, caps[n - 1].0) + css.subrange(
            caps[n - 1].0,
            caps[n - 1].1,
        ) =~= css.subrange(0, caps[n - 1].1));
    }
}

/// A stylesheet none of whose references is proxied (each a data URI, a
/// stylesheet, or not text) comes out byte for byte as it went in, and no
/// name is minted for it.
pub proof fn lemma_unproxied_css_unchanged(
    css: Seq<u8>,
    caps: Seq<Span>,
    t: Map<Seq<char>, Seq<char>>,
    ids: Seq<Seq<char>>,
)
    requires
        spans_in_order(caps, css.len() as int),
        forall|k: int| 0 <= k < caps.len() ==> (#[trigger] span_key(css, caps[k])) is None,
    ensures
        css_rewritten(css, caps, t, ids) == (css, Map::<Seq<char>, Seq<char>>::empty()),
{
    lemma_fold_passthrough(css, caps, t, ids, caps.len() as int);
    let pos = if caps.len() == 0 {
        0
    } else {
        caps[caps.len() - 1].1
    };
    assert(css.subrange(0, pos) + css.subrange(pos, css.len() as int) =~= css);
}

/// The name that the reference at index `k` is rewritten to, where its
/// locator is proxied.
pub open spec fn css_name_at(
    css: Seq<u8>,
    caps: Seq<Span>,
    t: Map<Seq<char>, Seq<char>>,
    ids: Seq<Seq<char>>,
    k: int,
) -> Seq<char> {
    let st = css_fold(css, caps, t, ids, k);
    let key = span_key(css, caps[k])->0;
    if t.contains_key(key) {
        t[key]
    } else if st.1.contains_key(key) {
        st.1[key]
    } else {
        ids[st.2]
    }
}

proof fn lemma_css_names_stable(
    css: Seq<u8>,
    caps: Seq<Span>,
    t: Map<Seq<char>, Seq<char>>,
    ids: Seq<Seq<char>>,
    n: int,
)
    requires
        0 <= n <= caps.len(),
    ensures
        forall|k: int|
            0 <= k < n && (#[trigger] span_key(css, caps[k])) is Some ==> {
                let m = css_fold(css, caps, t, ids, n).1.union_prefer_right(t);
                let key = span_key(css, caps[k])->0;
                m.contains_key(key) && m[key] == css_name_at(css, caps, t, ids, k)
            },
    decreases n,
{
    if n > 0 {
        lemma_css_names_stable(css, caps, t, ids, n - 1);
        let prev = css_fold(css, caps, t, ids, n - 1);
        let cur = css_fold(css, caps, t, ids, n);
        assert(cur == css_step(css, t, ids, prev, caps[n - 1]));
        let m0 = prev.1.union_prefer_right(t);
        let m1 = cur.1.union_prefer_right(t);
        assert(m0.submap_of(m1));
        assert forall|k: int|
            0 <= k < n && (#[trigger] span_key(css, caps[k])) is Some implies {
                let key = span_key(css, caps[k])->0;
                m1.contains_key(key) && m1[key] == css_name_at(css, caps, t, ids, k)
            } by {
            if k < n - 1 {
                let key = span_key(css, caps[k])->0;
                assert(m0.contains_key(key));
            }
        }
    }
}

/// Every proxied reference of a stylesheet is rewritten to the name that
/// the table, merged with the names minted for the stylesheet, gives its
/// locator; so two references to one locator take one name.
pub proof fn lemma_css_references_recorded(
    css: Seq<u8>,
    caps: Seq<Span>,
    t: Map<Seq<char>, Seq<char>>,
    ids: Seq<Seq<char>>,
)
    ensures
        forall|k: int|
            0 <= k < caps.len() && (#[trigger] span_key(css, caps[k])) is Some ==> {
                let m = css_rewritten(css, caps, t, ids).1.union_prefer_right(t);
                let key = span_key(css, caps[k])->0;
                m.contains_key(key) && m[key] == css_name_at(css, caps, t, ids, k)
            },
        forall|k: int|
            0 <= k < caps.len() && (#[trigger] span_key(css, caps[k])) is Some ==> {
                let st = css_fold(css, caps, t, ids, k);
                css_fold(css, caps, t, ids, k + 1).0 == st.0 + css.subrange(st.3, caps[k].0)
                    + url_ref(css_name_at(css, caps, t, ids, k))
            },
{
    lemma_css_names_stable(css, caps, t, ids, caps.len() as int);
}

/// The locator under which an element's resource is recorded, if it has
/// one.
pub open spec fn element_locator(el: crate::html::ElementInfo) -> Option<Seq<char>> {
    if el.tag@ == seq!['l', 'i', 'n', 'k'] && opt_is(el.rel, seq!['s', 't', 'y', 'l', 'e', 's', 'h', 'e', 'e', 't']) && el.href is Some {
        Some(el.href->0@)
    } else if el.tag@ == seq!['i', 'f', 'r', 'a', 'm', 'e'] && el.src is Some {
        Some(crate::html::frame_key(el.src->0@))
    } else if el.tag@ == seq!['b', 'a', 's', 'e'] {
        None
    } else if el.src is Some {
        Some(crate::outside::unescaped_or_same(el.src->0@))
    } else {
        None
    }
}

/// The value that an edit sets, if there is an edit.
pub open spec fn edited_value(e: Option<(Seq<char>, Seq<char>)>) -> Option<Seq<char>> {
    match e {
        Some((_, v)) => Some(v),
        None => None,
    }
}

/// Visiting an element never changes a name that the table already holds;
/// an element whose locator has a name is rewritten to that name, and the
/// table stays as it was.
pub proof fn lemma_element_keeps_names(
    el: crate::html::ElementInfo,
    t: Map<Seq<char>, Seq<char>>,
    fresh: Seq<char>,
)
    ensures
        t.submap_of(element_outcome(el, t, fresh).0),
        match element_locator(el) {
            Some(k) => t.contains_key(k) ==> element_outcome(el, t, fresh).0 == t
                && edited_value(element_outcome(el, t, fresh).1) == Some(t[k]),
            None => true,
        },
{
}

/// An element whose tag is `base` has its `href` emptied, whatever it held
/// and whatever other attributes it carries; the table stays as it was.
pub proof fn lemma_base_neutralized(
    el: crate::html::ElementInfo,
    t: Map<Seq<char>, Seq<char>>,
    fresh: Seq<char>,
)
    requires
        el.tag@ == seq!['b', 'a', 's', 'e'],
    ensures
        element_outcome(el, t, fresh) == (t, Some((href_attr(), Seq::<char>::empty()))),
{
}

/// Every non-empty name that an element is rewritten to is recorded in the
/// table, under the locator that the element gave.
pub proof fn lemma_element_name_recorded(
    el: crate::html::ElementInfo,
    t: Map<Seq<char>, Seq<char>>,
    fresh: Seq<char>,
)
    ensures
        ({
            let (t2, e) = element_outcome(el, t, fresh);
            match e {
                Some((_, v)) => v.len() > 0 ==> exists|k: Seq<char>|
                    t2.contains_key(k) && #[trigger] t2[k] == v,
                None => true,
            }
        }),
{
    let (t2, e) = element_outcome(el, t, fresh);
    if let Some((_, v)) = e {
        if el.tag@ == seq!['l', 'i', 'n', 'k'] && opt_is(el.rel, seq!['s', 't', 'y', 'l', 'e', 's', 'h', 'e', 'e', 't']) && el.href is Some {
            let h = el.href->0@;
            assert(t2.contains_key(h) && t2[h] == v);
        } else if el.tag@ == seq!['i', 'f', 'r', 'a', 'm', 'e'] && el.src is Some {
            let k = crate::html::frame_key(el.src->0@);
            assert(t2.contains_key(k) && t2[k] == v);
        } else if el.tag@ == seq!['b', 'a', 's', 'e'] {
        } else if el.src is Some {
            let k = crate::outside::unescaped_or_same(el.src->0@);
            assert(t2.contains_key(k) && t2[k] == v);
        }
    }
}

/// A part whose content-location is the locator of an element resolves to
/// the name that the element was rewritten to.
pub proof fn lemma_element_part_resolves(
    el: crate::html::ElementInfo,
    t: Map<Seq<char>, Seq<char>>,
    fresh: Seq<char>,
    p: Part,
)
    requires
        element_locator(el) is Some,
        header_key(p.content_location) == element_locator(el),
    ensures
        ({
            let (t2, e) = element_outcome(el, t, fresh);
            let k = element_locator(el)->0;
            &&& t2.contains_key(k)
            &&& found_name(t2, p) == Some(t2[k])
            &&& edited_value(e) == Some(t2[k])
        }),
{
}

proof fn lemma_last_before_absent(s: Seq<char>, c: char, i: int)
    requires
        0 <= i <= s.len(),
        forall|j: int| 0 <= j < s.len() ==> s[j] != c,
    ensures
        last_before(s, c, i) == -1,
    decreases i,
{
    if i > 0 {
        lemma_last_before_absent(s, c, i - 1);
    }
}

proof fn lemma_without_absent(s: Seq<char>, c: char)
    requires
        forall|j: int| 0 <= j < s.len() ==> s[j] != c,
    ensures
        without(s, c) == s,
    decreases s.len(),
{
    if s.len() > 0 {
        lemma_without_absent(s.drop_last(), c);
        assert(s.drop_last().push(s.last()) =~= s);
    }
}

/// A minted identifier is stored under itself.
pub proof fn lemma_minted_name_kept(n: Seq<char>)
    requires
        is_minted_id(n),
    ensures
        output_name(n) == n,
{
    lemma_output_name_plain(n);
}

/// A name without colon or `#` (such as a minted identifier or a name made
/// by the element rules) is stored under itself.
pub proof fn lemma_output_name_plain(n: Seq<char>)
    requires
        forall|j: int| 0 <= j < n.len() ==> n[j] != ':' && n[j] != '#',
    ensures
        output_name(n) == n,
{
    lemma_last_before_absent(n, ':', n.len() as int);
    assert(after_last(n, ':') =~= n);
    lemma_without_absent(n, '#');
}

/// The table after visiting the first `n` elements of a document in order,
/// the element at index `k` with `ids[k]` as its minted identifier.
pub open spec fn visit_all(
    els: Seq<crate::html::ElementInfo>,
    t: Map<Seq<char>, Seq<char>>,
    ids: Seq<Seq<char>>,
    n: int,
) -> Map<Seq<char>, Seq<char>>
    decreases n,
{
    if n <= 0 || n > els.len() {
        t
    } else {
        element_outcome(els[n - 1], visit_all(els, t, ids, n - 1), ids[n - 1]).0
    }
}

/// The value that the element at index `k` is rewritten to.
pub open spec fn value_at(
    els: Seq<crate::html::ElementInfo>,
    t: Map<Seq<char>, Seq<char>>,
    ids: Seq<Seq<char>>,
    k: int,
) -> Option<Seq<char>> {
    edited_value(element_outcome(els[k], visit_all(els, t, ids, k), ids[k]).1)
}

proof fn lemma_visit_grows(
    els: Seq<crate::html::ElementInfo>,
    t: Map<Seq<char>, Seq<char>>,
    ids: Seq<Seq<char>>,
    a: int,
    b: int,
)
    requires
        0 <= a <= b <= els.len(),
    ensures
        visit_all(els, t, ids, a).submap_of(visit_all(els, t, ids, b)),
    decreases b - a,
{
    if a < b {
        lemma_visit_grows(els, t, ids, a, b - 1);
        lemma_element_keeps_names(els[b - 1], visit_all(els, t, ids, b - 1), ids[b - 1]);
    }
}

/// Over a whole document, two elements with the same locator are rewritten
/// to the same name: the one that the first of them received.
pub proof fn lemma_document_first_name_wins(
    els: Seq<crate::html::ElementInfo>,
    t: Map<Seq<char>, Seq<char>>,
    ids: Seq<Seq<char>>,
    i: int,
    j: int,
)
    requires
        0 <= i < j < els.len(),
        element_locator(els[i]) is Some,
        element_locator(els[i]) == element_locator(els[j]),
    ensures
        value_at(els, t, ids, j) == value_at(els, t, ids, i),
{
    let k = element_locator(els[i])->0;
    let ti = visit_all(els, t, ids, i);
    lemma_element_keeps_names(els[i], ti, ids[i]);
    let after_i = visit_all(els, t, ids, i + 1);
    assert(after_i == element_outcome(els[i], ti, ids[i]).0);
    assert(after_i.contains_key(k) && value_at(els, t, ids, i) == Some(after_i[k]));
    lemma_visit_grows(els, t, ids, i + 1, j);
    lemma_element_keeps_names(els[j], visit_all(els, t, ids, j), ids[j]);
}

} // verus!
