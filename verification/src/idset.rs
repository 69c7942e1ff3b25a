//! A set of document ids, backed by a vector without duplicates.

use vstd::prelude::*;
use vstd::seq_lib::seq_to_set_is_finite;

verus! {

/// A set of document ids. The backing vector holds each id at most once,
/// so the length of the vector is the cardinality of the set.
pub struct IdSet {
    ids: Vec<u128>,
}

impl View for IdSet {
    type V = Set<u128>;

    closed spec fn view(&self) -> Set<u128> {
        self.ids@.to_set()
    }
}

impl IdSet {
    /// No id occurs twice in the backing vector.
    pub closed spec fn wf(self) -> bool {
        self.ids@.no_duplicates()
    }

    pub fn new() -> (r: IdSet)
        ensures
            r.wf(),
            r@ == Set::<u128>::empty(),
    {
        let r = IdSet { ids: Vec::new() };
        proof {
            assert(r@ =~= Set::<u128>::empty());
        }
        r
    }

    pub fn contains(&self, id: u128) -> (r: bool)
        ensures
            r == self@.contains(id),
    {
        let mut j: usize = 0;
        while j < self.ids.len()
            invariant
                j <= self.ids.len(),
                forall|k: int| 0 <= k < j ==> self.ids@[k] != id,
            decreases self.ids.len() - j,
        {
            if self.ids[j] == id {
                return true;
            }
            j = j + 1;
        }
        proof {
            assert(!self.ids@.contains(id));
        }
        false
    }

    pub fn insert(&mut self, id: u128)
        requires
            old(self).wf(),
        ensures
            final(self).wf(),
            final(self)@ == old(self)@.insert(id),
    {
        if !self.contains(id) {
            let ghost prev = self.ids@;
            self.ids.push(id);
            proof {
                prev.lemma_push_to_set_commute(id);
            }
        } else {
            proof {
                assert(old(self)@.insert(id) =~= old(self)@);
            }
        }
    }

    pub fn remove(&mut self, id: u128)
        requires
            old(self).wf(),
        ensures
            final(self).wf(),
            final(self)@ == old(self)@.remove(id),
    {
        let mut j: usize = 0;
        while j < self.ids.len()
            invariant
                j <= self.ids.len(),
                self.ids@ == old(self).ids@,
                self.ids@.no_duplicates(),
                forall|k: int| 0 <= k < j ==> self.ids@[k] != id,
            decreases self.ids.len() - j,
        {
            if self.ids[j] == id {
                let ghost prev = self.ids@;
                self.ids.remove(j);
                proof {
                    crate::seqext::lemma_remove_no_duplicates(prev, j as int);
                    crate::seqext::lemma_remove_to_set(prev, j as int);
                }
                return ;
            }
            j = j + 1;
        }
        proof {
            assert(!self.ids@.contains(id));
            assert(old(self)@.remove(id) =~= old(self)@);
        }
    }

    pub fn len(&self) -> (r: usize)
        requires
            self.wf(),
        ensures
            r == self@.len(),
            self@.finite(),
    {
        proof {
            self.ids@.unique_seq_to_set();
        }
        self.ids.len()
    }

    pub fn is_empty(&self) -> (r: bool)
        requires
            self.wf(),
        ensures
            r == self@.is_empty(),
            self@.finite(),
    {
        proof {
            self.ids@.unique_seq_to_set();
            if self.ids@.len() == 0 {
                assert(self@ =~= Set::<u128>::empty());
            } else {
                assert(self@.contains(self.ids@[0]));
            }
        }
        self.ids.len() == 0
    }

    /// Read-only access to the backing vector, for iteration.
    pub fn as_vec(&self) -> (r: &Vec<u128>)
        requires
            self.wf(),
        ensures
            r@.no_duplicates(),
            r@.to_set() == self@,
    {
        &self.ids
    }

    /// A fresh vector holding the elements, each exactly once.
    pub fn to_vec(&self) -> (r: Vec<u128>)
        requires
            self.wf(),
        ensures
            r@.no_duplicates(),
            r@.to_set() == self@,
    {
        let mut r: Vec<u128> = Vec::new();
        let mut j: usize = 0;
        while j < self.ids.len()
            invariant
                j <= self.ids.len(),
                r@ == self.ids@.take(j as int),
            decreases self.ids.len() - j,
        {
            r.push(self.ids[j]);
            proof {
                assert(r@ =~= self.ids@.take(j as int + 1));
            }
            j = j + 1;
        }
        proof {
            assert(r@ =~= self.ids@);
        }
        r
    }

    /// The backing vector itself, consuming the set.
    pub fn into_vec(self) -> (r: Vec<u128>)
        requires
            self.wf(),
        ensures
            r@.no_duplicates(),
            r@.to_set() == self@,
    {
        self.ids
    }

    /// Adopts a vector as a set, provided it holds no id twice.
    pub fn from_vec(ids: Vec<u128>) -> (r: Option<IdSet>)
        ensures
            r is Some <==> ids@.no_duplicates(),
            match r {
                Some(s) => s.wf() && s@ == ids@.to_set() && s@.len() == ids@.len(),
                None => true,
            },
    {
        let mut i: usize = 1;
        while i < ids.len()
            invariant
                forall|a: int, b: int| 0 <= a < b < i ==> ids@[a] != ids@[b],
            decreases ids.len() - i,
        {
            let mut k: usize = 0;
            while k < i
                invariant
                    k <= i < ids@.len(),
                    forall|a: int| 0 <= a < k ==> ids@[a] != ids@[i as int],
                decreases i - k,
            {
                if ids[k] == ids[i] {
                    return None;
                }
                k = k + 1;
            }
            i = i + 1;
        }
        proof {
            assert(ids@.no_duplicates());
            ids@.unique_seq_to_set();
        }
        Some(IdSet { ids })
    }

    /// A well-formed `IdSet` has as many elements as its backing vector.
    pub proof fn lemma_finite(self)
        requires
            self.wf(),
        ensures
            self@.finite(),
    {
        seq_to_set_is_finite(self.ids@);
    }
}

} // verus!
