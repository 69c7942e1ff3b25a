//! A map from document ids to values, backed by a vector of entries with
//! pairwise distinct keys.

use vstd::prelude::*;

verus! {

/// The keys of the entries are pairwise distinct.
pub open spec fn id_distinct_keys<V>(s: Seq<(u128, V)>) -> bool {
    forall|i: int, j: int| 0 <= i < j < s.len() ==> s[i].0 != s[j].0
}

/// The map described by a sequence of entries; later entries win.
pub open spec fn id_map_of<V: View>(s: Seq<(u128, V)>) -> Map<u128, V::V>
    decreases s.len(),
{
    if s.len() == 0 {
        Map::empty()
    } else {
        id_map_of(s.drop_last()).insert(s.last().0, s.last().1@)
    }
}

/// A key is in the map exactly when some entry carries it.
pub proof fn lemma_id_map_contains<V: View>(s: Seq<(u128, V)>, k: u128)
    ensures
        id_map_of(s).contains_key(k) <==> exists|i: int| 0 <= i < s.len() && s[i].0 == k,
    decreases s.len(),
{
    if s.len() > 0 {
        lemma_id_map_contains(s.drop_last(), k);
        if s.last().0 == k {
            assert(s[s.len() - 1].0 == k);
        } else if id_map_of(s).contains_key(k) {
            let i = choose|i: int| 0 <= i < s.drop_last().len() && s.drop_last()[i].0 == k;
            assert(s[i].0 == k);
        } else if exists|i: int| 0 <= i < s.len() && s[i].0 == k {
            let i = choose|i: int| 0 <= i < s.len() && s[i].0 == k;
            assert(i < s.len() - 1);
            assert(s.drop_last()[i].0 == k);
        }
    }
}

/// Dropping the last entry keeps the keys distinct.
pub proof fn lemma_id_distinct_drop_last<V>(s: Seq<(u128, V)>)
    requires
        id_distinct_keys(s),
        s.len() > 0,
    ensures
        id_distinct_keys(s.drop_last()),
{
    assert forall|i: int, j: int|
        0 <= i < j < s.drop_last().len() implies s.drop_last()[i].0 != s.drop_last()[j].0 by {
        assert(s.drop_last()[i] == s[i]);
        assert(s.drop_last()[j] == s[j]);
    }
}

/// With distinct keys, each entry gives the value of the map at its key.
pub proof fn lemma_id_map_index<V: View>(s: Seq<(u128, V)>, i: int)
    requires
        id_distinct_keys(s),
        0 <= i < s.len(),
    ensures
        id_map_of(s).contains_key(s[i].0),
        id_map_of(s)[s[i].0] == s[i].1@,
    decreases s.len(),
{
    if i == s.len() - 1 {
    } else {
        lemma_id_distinct_drop_last(s);
        assert(s.drop_last()[i] == s[i]);
        lemma_id_map_index(s.drop_last(), i);
        assert(s[i].0 != s.last().0);
    }
}

/// Appending an entry inserts its key and value into the map.
pub proof fn lemma_id_map_push<V: View>(s: Seq<(u128, V)>, k: u128, v: V)
    ensures
        id_map_of(s.push((k, v))) == id_map_of(s).insert(k, v@),
{
    assert(s.push((k, v)).drop_last() =~= s);
    assert(s.push((k, v)).last() == (k, v));
}

/// Removing an entry keeps the keys distinct.
pub proof fn lemma_id_distinct_remove<V>(s: Seq<(u128, V)>, i: int)
    requires
        id_distinct_keys(s),
        0 <= i < s.len(),
    ensures
        id_distinct_keys(s.remove(i)),
{
    s.remove_ensures(i);
    let r = s.remove(i);
    assert forall|a: int, b: int| 0 <= a < b < r.len() implies r[a].0 != r[b].0 by {
        let pa: int = if a < i {
            a
        } else {
            a + 1
        };
        let pb: int = if b < i {
            b
        } else {
            b + 1
        };
        assert(r[a] == s[pa]);
        assert(r[b] == s[pb]);
    }
}

/// With distinct keys, removing an entry removes exactly its key from the map.
pub proof fn lemma_id_map_remove<V: View>(s: Seq<(u128, V)>, i: int)
    requires
        id_distinct_keys(s),
        0 <= i < s.len(),
    ensures
        id_map_of(s.remove(i)) =~= id_map_of(s).remove(s[i].0),
    decreases s.len(),
{
    lemma_id_distinct_drop_last(s);
    if i == s.len() - 1 {
        assert(s.remove(i) =~= s.drop_last());
        lemma_id_map_contains(s.drop_last(), s[i].0);
        assert(forall|j: int|
            0 <= j < s.drop_last().len() ==> #[trigger] s.drop_last()[j].0 != s[i].0);
        assert(!id_map_of(s.drop_last()).contains_key(s[i].0));
        assert(id_map_of(s.drop_last()).insert(s[i].0, s[i].1@).remove(s[i].0) =~= id_map_of(
            s.drop_last(),
        ));
    } else {
        assert(s.remove(i).drop_last() =~= s.drop_last().remove(i));
        assert(s.remove(i).last() == s.last());
        lemma_id_map_remove(s.drop_last(), i);
        assert(s.drop_last()[i] == s[i]);
        assert(s[i].0 != s.last().0);
        assert(id_map_of(s.drop_last()).remove(s[i].0).insert(s.last().0, s.last().1@)
            =~= id_map_of(s.drop_last()).insert(s.last().0, s.last().1@).remove(s[i].0));
    }
}

/// A map from document ids to values.
pub struct IdMap<V> {
    entries: Vec<(u128, V)>,
}

impl<V: View> View for IdMap<V> {
    type V = Map<u128, V::V>;

    closed spec fn view(&self) -> Map<u128, V::V> {
        id_map_of(self.entries@)
    }
}

impl<V: View> IdMap<V> {
    /// The backing entries carry pairwise distinct keys.
    pub closed spec fn wf(self) -> bool {
        id_distinct_keys(self.entries@)
    }

    pub fn new() -> (r: Self)
        ensures
            r.wf(),
            r@ == Map::<u128, V::V>::empty(),
    {
        IdMap { entries: Vec::new() }
    }

    /// The index of the entry with the given key, if any.
    fn position(&self, k: u128) -> (r: Option<usize>)
        ensures
            match r {
                Some(j) => j < self.entries@.len() && self.entries@[j as int].0 == k,
                None => forall|i: int|
                    0 <= i < self.entries@.len() ==> #[trigger] self.entries@[i].0 != k,
            },
    {
        let mut j: usize = 0;
        while j < self.entries.len()
            invariant
                j <= self.entries.len(),
                forall|i: int| 0 <= i < j ==> #[trigger] self.entries@[i].0 != k,
            decreases self.entries.len() - j,
        {
            if self.entries[j].0 == k {
                return Some(j);
            }
            j = j + 1;
        }
        None
    }

    pub fn get(&self, k: u128) -> (r: Option<&V>)
        requires
            self.wf(),
        ensures
            match r {
                Some(v) => self@.contains_key(k) && v@ == self@[k],
                None => !self@.contains_key(k),
            },
    {
        let pos = self.position(k);
        proof {
            lemma_id_map_contains(self.entries@, k);
        }
        match pos {
            Some(j) => {
                proof {
                    lemma_id_map_index(self.entries@, j as int);
                }
                Some(&self.entries[j].1)
            },
            None => None,
        }
    }

    pub fn contains_key(&self, k: u128) -> (r: bool)
        requires
            self.wf(),
        ensures
            r == self@.contains_key(k),
    {
        self.get(k).is_some()
    }

    pub fn insert(&mut self, k: u128, v: V)
        requires
            old(self).wf(),
        ensures
            final(self).wf(),
            final(self)@ == old(self)@.insert(k, v@),
    {
        let ghost orig = self.entries@;
        let pos = self.position(k);
        match pos {
            Some(j) => {
                let _prior = self.entries.remove(j);
                let ghost mid = self.entries@;
                self.entries.push((k, v));
                proof {
                    lemma_id_distinct_remove(orig, j as int);
                    lemma_id_map_remove(orig, j as int);
                    lemma_id_map_push(mid, k, v);
                    assert forall|i: int| 0 <= i < mid.len() implies #[trigger] mid[i].0 != k by {
                        if i < j {
                            assert(mid[i] == orig[i]);
                        } else {
                            assert(mid[i] == orig[i + 1]);
                        }
                    }
                    assert(id_distinct_keys(self.entries@));
                    assert(id_map_of(orig).remove(k).insert(k, v@) =~= id_map_of(orig).insert(
                        k,
                        v@,
                    ));
                }
            },
            None => {
                self.entries.push((k, v));
                proof {
                    lemma_id_map_push(orig, k, v);
                    assert(id_distinct_keys(self.entries@));
                }
            },
        }
    }

    /// Removes the entry with the given key and hands its value back.
    pub fn take(&mut self, k: u128) -> (r: Option<V>)
        requires
            old(self).wf(),
        ensures
            final(self).wf(),
            final(self)@ == old(self)@.remove(k),
            match r {
                Some(v) => old(self)@.contains_key(k) && v@ == old(self)@[k],
                None => !old(self)@.contains_key(k),
            },
    {
        let ghost orig = self.entries@;
        let pos = self.position(k);
        proof {
            lemma_id_map_contains(orig, k);
        }
        match pos {
            Some(j) => {
                proof {
                    lemma_id_map_index(orig, j as int);
                    lemma_id_distinct_remove(orig, j as int);
                    lemma_id_map_remove(orig, j as int);
                }
                let pair = self.entries.remove(j);
                Some(pair.1)
            },
            None => {
                proof {
                    assert(old(self)@.remove(k) =~= old(self)@);
                }
                None
            },
        }
    }

    pub fn remove(&mut self, k: u128)
        requires
            old(self).wf(),
        ensures
            final(self).wf(),
            final(self)@ == old(self)@.remove(k),
    {
        let _r = self.take(k);
    }

    /// Read-only access to the entries, for iteration.
    pub fn entries(&self) -> (r: &Vec<(u128, V)>)
        requires
            self.wf(),
        ensures
            id_distinct_keys(r@),
            id_map_of(r@) == self@,
    {
        &self.entries
    }

    /// Adopts a vector of entries, provided its keys are distinct.
    pub fn from_entries(entries: Vec<(u128, V)>) -> (r: Option<IdMap<V>>)
        ensures
            r is Some <==> id_distinct_keys(entries@),
            match r {
                Some(m) => m.wf() && m@ == id_map_of(entries@),
                None => true,
            },
    {
        let mut i: usize = 1;
        while i < entries.len()
            invariant
                forall|a: int, b: int| 0 <= a < b < i ==> entries@[a].0 != entries@[b].0,
            decreases entries.len() - i,
        {
            let mut k: usize = 0;
            while k < i
                invariant
                    k <= i < entries@.len(),
                    forall|a: int| 0 <= a < k ==> entries@[a].0 != entries@[i as int].0,
                decreases i - k,
            {
                if entries[k].0 == entries[i].0 {
                    return None;
                }
                k = k + 1;
            }
            i = i + 1;
        }
        proof {
            assert(id_distinct_keys(entries@));
        }
        Some(IdMap { entries })
    }
}

} // verus!
