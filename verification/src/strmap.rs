//! A string-keyed map with explicit overwrite-on-insert semantics.
//!
//! The lock state is built by repeated insertion where a later insertion
//! under an already-present key replaces the earlier value.  That
//! last-write-wins behaviour carries the merge policy of the whole crate
//! (re-importing a module is idempotent, a later command export shadows an
//! earlier one), so the map names it in its contract instead of leaning on
//! a library default.  The view of a map is a mathematical `Map` from key
//! characters to the view of the stored value.

use vstd::prelude::*;
use crate::strkey::str_eq;

verus! {

/// The mathematical map described by a sequence of keyed entries, where a
/// later entry under the same key overwrites an earlier one.
pub closed spec fn map_of<T>(s: Seq<(Seq<char>, T)>) -> Map<Seq<char>, T>
    decreases s.len(),
{
    if s.len() == 0 {
        Map::empty()
    } else {
        map_of(s.drop_last()).insert(s.last().0, s.last().1)
    }
}

proof fn lemma_map_of_contains<T>(s: Seq<(Seq<char>, T)>, k: Seq<char>)
    ensures
        map_of(s).contains_key(k) <==> (exists|i: int| 0 <= i < s.len() && s[i].0 == k),
    decreases s.len(),
{
    if s.len() == 0 {
    } else {
        lemma_map_of_contains(s.drop_last(), k);
        if s.last().0 == k {
            assert(s[s.len() - 1].0 == k);
        } else {
            if map_of(s).contains_key(k) {
                let i = choose|i: int| 0 <= i < s.drop_last().len() && s.drop_last()[i].0 == k;
                assert(s[i].0 == k);
            }
            if exists|i: int| 0 <= i < s.len() && s[i].0 == k {
                let i = choose|i: int| 0 <= i < s.len() && s[i].0 == k;
                assert(i < s.len() - 1);
                assert(s.drop_last()[i].0 == k);
            }
        }
    }
}

proof fn lemma_map_of_get<T>(s: Seq<(Seq<char>, T)>, i: int)
    requires
        0 <= i < s.len(),
        forall|j: int| i < j < s.len() ==> s[j].0 != s[i].0,
    ensures
        map_of(s).contains_key(s[i].0),
        map_of(s)[s[i].0] == s[i].1,
    decreases s.len(),
{
    if i == s.len() - 1 {
    } else {
        assert(forall|j: int| i < j < s.drop_last().len() ==> s.drop_last()[j].0 != s.drop_last()[i].0);
        lemma_map_of_get(s.drop_last(), i);
        assert(s.last().0 != s[i].0);
    }
}

proof fn lemma_map_of_update<T>(s: Seq<(Seq<char>, T)>, i: int, v: T)
    requires
        0 <= i < s.len(),
        forall|j: int| i < j < s.len() ==> s[j].0 != s[i].0,
    ensures
        map_of(s.update(i, (s[i].0, v))) == map_of(s).insert(s[i].0, v),
    decreases s.len(),
{
    let s2 = s.update(i, (s[i].0, v));
    if i == s.len() - 1 {
        assert(s2.drop_last() =~= s.drop_last());
        assert(s2.last() == (s[i].0, v));
        assert(map_of(s2) =~= map_of(s).insert(s[i].0, v));
    } else {
        assert(forall|j: int| i < j < s.drop_last().len() ==> s.drop_last()[j].0 != s.drop_last()[i].0);
        lemma_map_of_update(s.drop_last(), i, v);
        assert(s2.drop_last() =~= s.drop_last().update(i, (s[i].0, v)));
        assert(s2.last() == s.last());
        assert(s.last().0 != s[i].0);
        assert(map_of(s2) =~= map_of(s).insert(s[i].0, v));
    }
}

proof fn lemma_map_of_card<T>(s: Seq<(Seq<char>, T)>)
    requires
        forall|i: int, j: int| 0 <= i < j < s.len() ==> (#[trigger] s[i]).0 != (#[trigger] s[j]).0,
    ensures
        map_of(s).dom().finite(),
        map_of(s).dom().len() == s.len(),
    decreases s.len(),
{
    if s.len() == 0 {
        assert(map_of(s).dom() =~= Set::<Seq<char>>::empty());
    } else {
        lemma_map_of_card(s.drop_last());
        assert(!map_of(s.drop_last()).contains_key(s.last().0)) by {
            lemma_map_of_contains(s.drop_last(), s.last().0);
        }
        assert(map_of(s).dom() =~= map_of(s.drop_last()).dom().insert(s.last().0));
    }
}

/// A map from string keys to values, with overwrite-on-insert semantics.
pub struct StrMap<V: View> {
    entries: Vec<(String, V)>,
}

impl<V: View> StrMap<V> {
    /// The entries as a sequence of (key characters, value view) pairs, in
    /// insertion order.
    pub closed spec fn kseq(&self) -> Seq<(Seq<char>, V::V)> {
        self.entries@.map(|i: int, e: (String, V)| (e.0@, e.1@))
    }

    /// Well-formed: no two entries share a key.
    pub open spec fn wf(&self) -> bool {
        forall|i: int, j: int|
            0 <= i < j < self.kseq().len() ==> (#[trigger] self.kseq()[i]).0 != (#[trigger] self.kseq()[j]).0
    }

    /// Relates the entry sequence to the map view: under well-formedness,
    /// each entry is present in the view, and each key of the view comes
    /// from some entry.
    pub proof fn lemma_entries_view(&self)
        requires
            self.wf(),
        ensures
            forall|i: int| 0 <= i < self.kseq().len() ==> {
                &&& self@.contains_key((#[trigger] self.kseq()[i]).0)
                &&& self@[self.kseq()[i].0] == self.kseq()[i].1
            },
            forall|k: Seq<char>| #[trigger] self@.contains_key(k)
                ==> exists|i: int| 0 <= i < self.kseq().len() && (#[trigger] self.kseq()[i]).0 == k,
    {
        assert forall|i: int| 0 <= i < self.kseq().len() implies {
            &&& self@.contains_key((#[trigger] self.kseq()[i]).0)
            &&& self@[self.kseq()[i].0] == self.kseq()[i].1
        } by {
            lemma_map_of_get(self.kseq(), i);
        }
        assert forall|k: Seq<char>| #[trigger] self@.contains_key(k)
            implies exists|i: int| 0 <= i < self.kseq().len() && (#[trigger] self.kseq()[i]).0 == k by {
            lemma_map_of_contains(self.kseq(), k);
        }
    }

    /// An empty map.
    pub fn new() -> (r: Self)
        ensures
            r@ == Map::<Seq<char>, V::V>::empty(),
            r.kseq() == Seq::<(Seq<char>, V::V)>::empty(),
            r.wf(),
    {
        let r = StrMap { entries: Vec::new() };
        proof {
            assert(r.kseq() =~= Seq::<(Seq<char>, V::V)>::empty());
        }
        r
    }

    /// The number of entries, which under well-formedness is the number of
    /// distinct keys.
    pub fn len(&self) -> (r: usize)
        ensures
            r == self.kseq().len(),
            self.wf() ==> r == self@.dom().len(),
    {
        proof {
            if self.wf() {
                lemma_map_of_card(self.kseq());
            }
        }
        self.entries.len()
    }

    /// The entry at a position, in insertion order.
    pub fn entry(&self, i: usize) -> (r: &(String, V))
        requires
            i < self.kseq().len(),
        ensures
            (r.0@, r.1@) == self.kseq()[i as int],
    {
        &self.entries[i]
    }

    /// Exact-key lookup.
    pub fn get(&self, k: &str) -> (r: Option<&V>)
        requires
            self.wf(),
        ensures
            match r {
                Some(v) => self@.contains_key(k@) && v@ == self@[k@],
                None => !self@.contains_key(k@),
            },
    {
        let ghost s0 = self.kseq();
        let n = self.entries.len();
        let mut i: usize = 0;
        while i < n
            invariant
                n == self.entries.len(),
                i <= n,
                self.wf(),
                s0 == self.kseq(),
                forall|j: int| 0 <= j < i ==> (#[trigger] s0[j]).0 != k@,
            decreases n - i,
        {
            if str_eq(self.entries[i].0.as_str(), k) {
                proof {
                    assert(s0[i as int].0 == k@);
                    lemma_map_of_get(s0, i as int);
                }
                return Some(&self.entries[i].1);
            }
            i += 1;
        }
        proof {
            lemma_map_of_contains(s0, k@);
        }
        None
    }

    /// True exactly when the key is present.
    pub fn contains_key(&self, k: &str) -> (r: bool)
        requires
            self.wf(),
        ensures
            r == self@.contains_key(k@),
    {
        self.get(k).is_some()
    }

    /// Inserts a value under a key; an already-present key has its value
    /// overwritten (last write wins).
    pub fn insert(&mut self, k: String, v: V)
        requires
            old(self).wf(),
        ensures
            final(self).wf(),
            final(self)@ == old(self)@.insert(k@, v@),
    {
        let ghost s0 = self.kseq();
        let ghost kv = k@;
        let n = self.entries.len();
        let mut i: usize = 0;
        while i < n
            invariant
                n == self.entries.len(),
                *self == *old(self),
                i <= n,
                self.wf(),
                s0 == self.kseq(),
                kv == k@,
                forall|j: int| 0 <= j < i ==> (#[trigger] s0[j]).0 != kv,
            decreases n - i,
        {
            if str_eq(self.entries[i].0.as_str(), k.as_str()) {
                proof {
                    assert(s0[i as int].0 == kv);
                }
                self.entries[i] = (k, v);
                proof {
                    assert(self.kseq() =~= s0.update(i as int, (s0[i as int].0, v@)));
                    lemma_map_of_update(s0, i as int, v@);
                    assert(forall|m: int| 0 <= m < self.kseq().len()
                        ==> (#[trigger] self.kseq()[m]).0 == s0[m].0);
                }
                return;
            }
            i += 1;
        }
        self.entries.push((k, v));
        proof {
            assert(self.kseq() =~= s0.push((kv, v@)));
            assert(self.kseq().drop_last() =~= s0);
            assert(self@ == map_of(s0).insert(kv, v@));
        }
    }
}

impl<V: View> View for StrMap<V> {
    type V = Map<Seq<char>, V::V>;

    closed spec fn view(&self) -> Map<Seq<char>, V::V> {
        map_of(self.kseq())
    }
}

} // verus!
