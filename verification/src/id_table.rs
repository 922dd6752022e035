//! A small verified association table from `u32` ids to entities.
//!
//! The persisted state keeps its epics and stories keyed by id. This table
//! stores the entries in a vector with pairwise-distinct keys and is viewed
//! as a mathematical `Map` from id to the entity's view, so that every
//! contract over the store can speak of plain maps.

use vstd::prelude::*;

verus! {

/// No key occurs twice in the entry sequence.
pub open spec fn unique_keys<V>(s: Seq<(u32, V)>) -> bool {
    forall|i: int, j: int| 0 <= i < j < s.len() ==> (#[trigger] s[i]).0 != (#[trigger] s[j]).0
}

/// The map described by an entry sequence; a later entry for the same key
/// would win, though well-formed tables never hold one.
pub open spec fn entries_to_map<V: View>(s: Seq<(u32, V)>) -> Map<u32, V::V>
    decreases s.len(),
{
    if s.len() == 0 {
        Map::empty()
    } else {
        entries_to_map(s.drop_last()).insert(s.last().0, s.last().1@)
    }
}

/// A key is in the map exactly when some entry carries it.
pub proof fn lemma_etm_dom<V: View>(s: Seq<(u32, V)>, k: u32)
    ensures
        entries_to_map(s).dom().contains(k) <==> exists|i: int|
            0 <= i < s.len() && (#[trigger] s[i]).0 == k,
    decreases s.len(),
{
    if s.len() > 0 {
        lemma_etm_dom(s.drop_last(), k);
        if entries_to_map(s).dom().contains(k) {
            if s.last().0 == k {
                assert(s[s.len() - 1].0 == k);
            } else {
                let i = choose|i: int| 0 <= i < s.drop_last().len() && (#[trigger] s.drop_last()[i]).0
                    == k;
                assert(s[i].0 == k);
            }
        }
        if exists|i: int| 0 <= i < s.len() && (#[trigger] s[i]).0 == k {
            let i = choose|i: int| 0 <= i < s.len() && (#[trigger] s[i]).0 == k;
            if i < s.len() - 1 {
                assert(s.drop_last()[i].0 == k);
            }
        }
    }
}

/// With distinct keys, the map sends each entry's key to that entry's value.
pub proof fn lemma_etm_index<V: View>(s: Seq<(u32, V)>, i: int)
    requires
        unique_keys(s),
        0 <= i < s.len(),
    ensures
        entries_to_map(s).dom().contains(s[i].0),
        entries_to_map(s)[s[i].0] == s[i].1@,
    decreases s.len(),
{
    if i == s.len() - 1 {
        assert(s.last() == s[i]);
    } else {
        assert(unique_keys(s.drop_last())) by {
            assert(forall|x: int, y: int|
                0 <= x < y < s.drop_last().len() ==> (#[trigger] s.drop_last()[x]).0 != (
                #[trigger] s.drop_last()[y]).0);
        }
        lemma_etm_index(s.drop_last(), i);
        assert(s.drop_last()[i] == s[i]);
        assert(s[i].0 != s.last().0);
    }
}

/// Removing the entry at `i` removes exactly its key from the map.
pub proof fn lemma_etm_remove<V: View>(s: Seq<(u32, V)>, i: int)
    requires
        unique_keys(s),
        0 <= i < s.len(),
    ensures
        entries_to_map(s.remove(i)) == entries_to_map(s).remove(s[i].0),
    decreases s.len(),
{
    assert(unique_keys(s.drop_last()));
    if i == s.len() - 1 {
        assert(s.remove(i) =~= s.drop_last());
        lemma_etm_dom(s.drop_last(), s[i].0);
        assert(!entries_to_map(s.drop_last()).dom().contains(s[i].0));
        assert(entries_to_map(s.drop_last()).insert(s.last().0, s.last().1@).remove(s[i].0)
            =~= entries_to_map(s.drop_last()));
    } else {
        lemma_etm_remove(s.drop_last(), i);
        assert(s.remove(i).drop_last() =~= s.drop_last().remove(i));
        assert(s.remove(i).last() == s.last());
        assert(s.remove(i).len() > 0);
        assert(entries_to_map(s.remove(i)) == entries_to_map(s.drop_last().remove(i)).insert(
            s.last().0,
            s.last().1@,
        ));
        assert(s.drop_last()[i] == s[i]);
        assert(s[i].0 != s.last().0);
        assert(entries_to_map(s.drop_last()).remove(s[i].0).insert(s.last().0, s.last().1@)
            =~= entries_to_map(s.drop_last()).insert(s.last().0, s.last().1@).remove(s[i].0));
    }
}

/// Entry sequences that agree key-for-key and view-for-view describe one map.
pub proof fn lemma_etm_congruent<V: View, W: View<V = V::V>>(s: Seq<(u32, V)>, t: Seq<(u32, W)>)
    requires
        s.len() == t.len(),
        forall|i: int| 0 <= i < s.len() ==> (#[trigger] s[i]).0 == (#[trigger] t[i]).0 && s[i].1@
            == t[i].1@,
    ensures
        entries_to_map(s) == entries_to_map(t),
    decreases s.len(),
{
    if s.len() > 0 {
        lemma_etm_congruent(s.drop_last(), t.drop_last());
        assert(s.last() == s[s.len() - 1]);
        assert(t.last() == t[t.len() - 1]);
    }
}

/// A value that can be duplicated without sharing, preserving its view.
pub trait DeepCopy: View + Sized {
    /// Produce an independent value with the same mathematical view.
    fn deep_copy(&self) -> (r: Self)
        ensures
            r@ == self@,
    ;
}

/// An association table from ids to values, with pairwise-distinct ids.
#[derive(Debug)]
pub struct IdTable<V> {
    entries: Vec<(u32, V)>,
}

impl<V: View> View for IdTable<V> {
    type V = Map<u32, V::V>;

    closed spec fn view(&self) -> Map<u32, V::V> {
        entries_to_map(self.entries@)
    }
}

impl<V> IdTable<V> {
    /// The raw entry sequence backing the table.
    pub closed spec fn spec_entries(&self) -> Seq<(u32, V)> {
        self.entries@
    }

    /// The table's ids are pairwise distinct.
    pub closed spec fn wf(&self) -> bool {
        unique_keys(self.entries@)
    }
}

impl<V: View> IdTable<V> {
    /// The view is the map described by the entry sequence.
    pub proof fn lemma_view(&self)
        ensures
            self@ == entries_to_map(self.spec_entries()),
    {
    }

    /// An empty table.
    pub fn new() -> (r: Self)
        ensures
            r@ == Map::<u32, V::V>::empty(),
            r.spec_entries() == Seq::<(u32, V)>::empty(),
            r.wf(),
    {
        IdTable { entries: Vec::new() }
    }

    /// Read access to the whole entry sequence.
    pub(crate) fn raw_entries(&self) -> (r: &Vec<(u32, V)>)
        ensures
            r@ == self.spec_entries(),
    {
        &self.entries
    }

    /// How many entries the table holds.
    pub fn len(&self) -> (r: usize)
        ensures
            r == self.spec_entries().len(),
    {
        self.entries.len()
    }

    /// Read access to the entry at a position, for walking the table.
    pub fn entry_at(&self, i: usize) -> (r: &(u32, V))
        requires
            self.wf(),
            i < self.spec_entries().len(),
        ensures
            *r == self.spec_entries()[i as int],
            self@.dom().contains(r.0),
            self@[r.0] == r.1@,
    {
        proof {
            lemma_etm_index(self.entries@, i as int);
        }
        &self.entries[i]
    }

    /// Whether the table holds the key.
    #[verifier::loop_isolation(false)]
    pub fn contains_key(&self, key: u32) -> (r: bool)
        ensures
            r == self@.dom().contains(key),
    {
        proof {
            lemma_etm_dom(self.entries@, key);
        }
        let n = self.entries.len();
        let mut i: usize = 0;
        while i < n
            invariant
                n == self.entries.len(),
                0 <= i <= n,
                forall|j: int| 0 <= j < i ==> (#[trigger] self.entries@[j]).0 != key,
            decreases n - i,
        {
            if self.entries[i].0 == key {
                return true;
            }
            i += 1;
        }
        false
    }

    /// Look a value up by key.
    #[verifier::loop_isolation(false)]
    pub fn get(&self, key: u32) -> (r: Option<&V>)
        requires
            self.wf(),
        ensures
            match r {
                Some(v) => self@.dom().contains(key) && v@ == self@[key],
                None => !self@.dom().contains(key),
            },
    {
        proof {
            lemma_etm_dom(self.entries@, key);
        }
        let n = self.entries.len();
        let mut i: usize = 0;
        while i < n
            invariant
                n == self.entries.len(),
                0 <= i <= n,
                forall|j: int| 0 <= j < i ==> (#[trigger] self.entries@[j]).0 != key,
            decreases n - i,
        {
            if self.entries[i].0 == key {
                proof {
                    lemma_etm_index(self.entries@, i as int);
                }
                return Some(&self.entries[i].1);
            }
            i += 1;
        }
        None
    }

    /// Insert a value under a key, replacing any entry the key already had.
    #[verifier::loop_isolation(false)]
    pub fn insert(&mut self, key: u32, value: V)
        requires
            old(self).wf(),
        ensures
            final(self).wf(),
            final(self)@ == old(self)@.insert(key, value@),
            final(self).spec_entries().len() <= old(self).spec_entries().len() + 1,
    {
        let ghost s0 = self.entries@;
        let n = self.entries.len();
        let mut i: usize = 0;
        while i < n
            invariant
                n == self.entries.len(),
                *self == *old(self),
                self.entries@ == s0,
                0 <= i <= n,
                forall|j: int| 0 <= j < i ==> (#[trigger] self.entries@[j]).0 != key,
            decreases n - i,
        {
            if self.entries[i].0 == key {
                proof {
                    lemma_etm_remove(s0, i as int);
                    lemma_etm_dom(s0.remove(i as int), key);
                }
                self.entries.remove(i);
                self.entries.push((key, value));
                proof {
                    assert(self.entries@.drop_last() =~= s0.remove(i as int));
                    assert(self.entries@.last() == (key, value));
                    assert(unique_keys(self.entries@)) by {
                        assert(forall|x: int, y: int|
                            0 <= x < y < s0.remove(i as int).len() ==> (#[trigger] s0.remove(
                                i as int,
                            )[x]).0 != (#[trigger] s0.remove(i as int)[y]).0);
                        assert(forall|j: int|
                            0 <= j < self.entries@.len() - 1 ==> (#[trigger] self.entries@[j]).0
                                != key) by {
                            lemma_etm_dom(s0.remove(i as int), key);
                            assert(forall|j: int|
                                0 <= j < s0.remove(i as int).len() && (#[trigger] s0.remove(
                                    i as int,
                                )[j]).0 == key ==> entries_to_map(s0.remove(i as int)).dom()
                                    .contains(key));
                        }
                    }
                    assert(entries_to_map(self.entries@) =~= entries_to_map(s0).insert(
                        key,
                        value@,
                    ));
                }
                return ;
            }
            i += 1;
        }
        proof {
            lemma_etm_dom(s0, key);
        }
        self.entries.push((key, value));
        proof {
            assert(self.entries@.drop_last() =~= s0);
            assert(self.entries@.last() == (key, value));
            assert(unique_keys(self.entries@));
        }
    }

    /// Remove a key and hand back its value, if the table held it.
    #[verifier::loop_isolation(false)]
    pub fn remove(&mut self, key: u32) -> (r: Option<V>)
        requires
            old(self).wf(),
        ensures
            final(self).wf(),
            final(self)@ == old(self)@.remove(key),
            match r {
                Some(v) => old(self)@.dom().contains(key) && v@ == old(self)@[key],
                None => !old(self)@.dom().contains(key) && *final(self) == *old(self),
            },
    {
        proof {
            lemma_etm_dom(self.entries@, key);
        }
        let ghost s0 = self.entries@;
        let n = self.entries.len();
        let mut i: usize = 0;
        while i < n
            invariant
                n == self.entries.len(),
                *self == *old(self),
                self.entries@ == s0,
                0 <= i <= n,
                forall|j: int| 0 <= j < i ==> (#[trigger] self.entries@[j]).0 != key,
            decreases n - i,
        {
            if self.entries[i].0 == key {
                proof {
                    lemma_etm_index(s0, i as int);
                    lemma_etm_remove(s0, i as int);
                    assert(forall|x: int, y: int|
                        0 <= x < y < s0.remove(i as int).len() ==> (#[trigger] s0.remove(
                            i as int,
                        )[x]).0 != (#[trigger] s0.remove(i as int)[y]).0);
                }
                let (_, v) = self.entries.remove(i);
                return Some(v);
            }
            i += 1;
        }
        proof {
            assert(entries_to_map(s0).remove(key) =~= entries_to_map(s0));
        }
        None
    }
}

impl<V: DeepCopy> DeepCopy for IdTable<V> {
    fn deep_copy(&self) -> (r: Self)
        ensures
            r@ == self@,
            r.spec_entries().len() == self.spec_entries().len(),
            forall|i: int|
                0 <= i < self.spec_entries().len() ==> (#[trigger] r.spec_entries()[i]).0 == (
                #[trigger] self.spec_entries()[i]).0,
            self.wf() ==> r.wf(),
    {
        let mut entries: Vec<(u32, V)> = Vec::new();
        let n = self.entries.len();
        let mut i: usize = 0;
        #[verifier::loop_isolation(false)]
        while i < n
            invariant
                0 <= i <= n,
                entries@.len() == i,
                forall|j: int|
                    0 <= j < i ==> (#[trigger] entries@[j]).0 == (
                    #[trigger] self.entries@[j]).0 && entries@[j].1@ == self.entries@[j].1@,
            decreases n - i,
        {
            let k = self.entries[i].0;
            let v = self.entries[i].1.deep_copy();
            entries.push((k, v));
            i += 1;
        }
        proof {
            lemma_etm_congruent(entries@, self.entries@);
            if self.wf() {
                assert forall|x: int, y: int|
                    0 <= x < y < entries@.len() implies (#[trigger] entries@[x]).0 != (
                #[trigger] entries@[y]).0 by {
                    assert(entries@[x].0 == self.entries@[x].0);
                    assert(entries@[y].0 == self.entries@[y].0);
                }
            }
        }
        IdTable { entries }
    }
}

} // verus!
