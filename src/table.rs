//! Association tables keyed by strings, in which the first assignment of a key
//! is never overwritten.
use vstd::prelude::*;

verus! {

/// The map that a list of entries denotes: a later entry for a key
/// shadows an earlier one (with unique keys, no entry is shadowed).
pub open spec fn entries_map<V: View>(s: Seq<(String, V)>) -> Map<Seq<char>, V::V>
    decreases s.len(),
{
    if s.len() == 0 {
        Map::empty()
    } else {
        entries_map(s.drop_last()).insert(s.last().0@, s.last().1@)
    }
}

/// No two entries share a key.
pub open spec fn keys_unique<V>(s: Seq<(String, V)>) -> bool {
    forall|i: int, j: int| 0 <= i < j < s.len() ==> s[i].0@ != s[j].0@
}

proof fn lemma_entries_dom<V: View>(s: Seq<(String, V)>, k: Seq<char>)
    ensures
        entries_map(s).contains_key(k) <==> exists|i: int| 0 <= i < s.len() && s[i].0@ == k,
    decreases s.len(),
{
    if s.len() > 0 {
        lemma_entries_dom(s.drop_last(), k);
        if entries_map(s.drop_last()).contains_key(k) {
            let i = choose|i: int| 0 <= i < s.drop_last().len() && s.drop_last()[i].0@ == k;
            assert(s[i].0@ == k);
        }
        if exists|i: int| 0 <= i < s.len() && s[i].0@ == k {
            let i = choose|i: int| 0 <= i < s.len() && s[i].0@ == k;
            if i < s.len() - 1 {
                assert(s.drop_last()[i].0@ == k);
            }
        }
    }
}

proof fn lemma_entries_value<V: View>(s: Seq<(String, V)>, i: int)
    requires
        keys_unique(s),
        0 <= i < s.len(),
    ensures
        entries_map(s).contains_key(s[i].0@),
        entries_map(s)[s[i].0@] == s[i].1@,
    decreases s.len(),
{
    if i < s.len() - 1 {
        let t = s.drop_last();
        assert(t[i] == s[i]);
        assert(keys_unique(t));
        lemma_entries_value(t, i);
        assert(s.last().0@ != s[i].0@);
    }
}

proof fn lemma_entries_push<V: View>(s: Seq<(String, V)>, e: (String, V))
    ensures
        entries_map(s.push(e)) == entries_map(s).insert(e.0@, e.1@),
{
    assert(s.push(e).drop_last() =~= s);
}

/// A table of string keys; its view is the map from each key to its value.
pub struct Assoc<V> {
    entries: Vec<(String, V)>,
}

/// Maps an original locator to the output name assigned to it.
pub type LinkTable = Assoc<String>;

/// Maps an output name to the content extracted under it.
pub type FileSet = Assoc<Vec<u8>>;

impl<V: View> View for Assoc<V> {
    type V = Map<Seq<char>, V::V>;

    closed spec fn view(&self) -> Map<Seq<char>, V::V> {
        entries_map(self.entries@)
    }
}

impl<V: View> Assoc<V> {
    /// Keys are unique.
    pub closed spec fn wf(&self) -> bool {
        keys_unique(self.entries@)
    }

    /// Number of keys.
    pub closed spec fn size(&self) -> nat {
        self.entries@.len()
    }

    /// The keys, in the order in which they were first assigned.
    pub closed spec fn key_order(&self) -> Seq<Seq<char>> {
        self.entries@.map_values(|e: (String, V)| e.0@)
    }

    pub fn new() -> (r: Self)
        ensures
            r.wf(),
            r@ == Map::<Seq<char>, V::V>::empty(),
    {
        Assoc { entries: Vec::new() }
    }

    /// Position of `key` among the entries, if it has one.
    fn position(&self, key: &String) -> (r: Option<usize>)
        requires
            self.wf(),
        ensures
            r is None <==> !self@.contains_key(key@),
            r matches Some(i) ==> i < self.entries@.len() && self.entries@[i as int].0@ == key@,
    {
        let mut i: usize = 0;
        while i < self.entries.len()
            invariant
                i <= self.entries@.len(),
                forall|j: int| 0 <= j < i ==> self.entries@[j].0@ != key@,
            decreases self.entries@.len() - i,
        {
            if self.entries[i].0 == *key {
                proof {
                    lemma_entries_dom(self.entries@, key@);
                }
                return Some(i);
            }
            i = i + 1;
        }
        proof {
            lemma_entries_dom(self.entries@, key@);
        }
        None
    }

    pub fn contains_key(&self, key: &String) -> (r: bool)
        requires
            self.wf(),
        ensures
            r == self@.contains_key(key@),
    {
        self.position(key).is_some()
    }

    /// Records `key -> value` unless `key` already has a value, which then
    /// stays as it is. Returns whether the entry was added.
    pub fn insert_if_absent(&mut self, key: String, value: V) -> (r: bool)
        requires
            old(self).wf(),
        ensures
            final(self).wf(),
            r == !old(self)@.contains_key(key@),
            final(self)@ == (if r {
                old(self)@.insert(key@, value@)
            } else {
                old(self)@
            }),
    {
        if self.position(&key).is_some() {
            false
        } else {
            proof {
                lemma_entries_push(self.entries@, (key, value));
                assert forall|j: int| 0 <= j < self.entries@.len() implies self.entries@[j].0@
                    != key@ by {
                    if self.entries@[j].0@ == key@ {
                        lemma_entries_dom(self.entries@, key@);
                    }
                }
            }
            self.entries.push((key, value));
            true
        }
    }

    /// The entries, in the order in which their keys were first assigned.
    pub fn into_entries(self) -> (r: Vec<(String, V)>)
        requires
            self.wf(),
        ensures
            entries_map(r@) == self@,
            keys_unique(r@),
    {
        self.entries
    }
}

/// The name that `key` ends up with: the one it has, or else `proposed`.
pub open spec fn name_for(
    t: Map<Seq<char>, Seq<char>>,
    key: Seq<char>,
    proposed: Seq<char>,
) -> Seq<char> {
    if t.contains_key(key) {
        t[key]
    } else {
        proposed
    }
}

/// The table after `key` was given `proposed`, unless it had a name already.
pub open spec fn with_name(
    t: Map<Seq<char>, Seq<char>>,
    key: Seq<char>,
    proposed: Seq<char>,
) -> Map<Seq<char>, Seq<char>> {
    if t.contains_key(key) {
        t
    } else {
        t.insert(key, proposed)
    }
}

impl Assoc<String> {
    /// Returns the name of `key`; where it has none yet, gives it `proposed`
    /// first.
    pub fn assign_if_absent(&mut self, key: String, proposed: String) -> (r: String)
        requires
            old(self).wf(),
        ensures
            final(self).wf(),
            r@ == name_for(old(self)@, key@, proposed@),
            final(self)@ == with_name(old(self)@, key@, proposed@),
    {
        match self.lookup(&key) {
            Some(name) => name,
            None => {
                let name = proposed.clone();
                self.insert_if_absent(key, proposed);
                name
            },
        }
    }

    /// The value of `key`, if it has one.
    pub fn lookup(&self, key: &String) -> (r: Option<String>)
        requires
            self.wf(),
        ensures
            r is Some <==> self@.contains_key(key@),
            r matches Some(v) ==> v@ == self@[key@],
    {
        match self.position(key) {
            Some(i) => {
                proof {
                    lemma_entries_value(self.entries@, i as int);
                }
                Some(self.entries[i].1.clone())
            },
            None => None,
        }
    }
}

/// Copies into `first_context` every entry of `second_context` whose key it
/// does not have yet; the entries it has keep their values.
pub fn merge(first_context: &mut LinkTable, second_context: &LinkTable)
    requires
        old(first_context).wf(),
        second_context.wf(),
    ensures
        final(first_context).wf(),
        final(first_context)@ == second_context@.union_prefer_right(old(first_context)@),
{
    let ghost start = first_context@;
    let mut i: usize = 0;
    while i < second_context.entries.len()
        invariant
            first_context.wf(),
            second_context.wf(),
            i <= second_context.entries@.len(),
            first_context@ == entries_map(second_context.entries@.subrange(0, i as int))
                .union_prefer_right(start),
        decreases second_context.entries@.len() - i,
    {
        let key = second_context.entries[i].0.clone();
        let value = second_context.entries[i].1.clone();
        let ghost before = first_context@;
        first_context.insert_if_absent(key, value);
        proof {
            let s = second_context.entries@;
            let p = s.subrange(0, i as int);
            assert(s.subrange(0, i + 1) =~= p.push(s[i as int]));
            lemma_entries_push(p, s[i as int]);
            lemma_entries_dom(p, s[i as int].0@);
            if entries_map(p).contains_key(s[i as int].0@) {
                let j = choose|j: int| 0 <= j < p.len() && p[j].0@ == s[i as int].0@;
                assert(s[j].0@ == s[i as int].0@);
            }
            assert(first_context@ =~= entries_map(s.subrange(0, i + 1)).union_prefer_right(start));
        }
        i = i + 1;
    }
    assert(second_context.entries@.subrange(0, i as int) =~= second_context.entries@);
}

} // verus!
