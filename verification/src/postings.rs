//! The inverted map from tokens to the set of documents that contain them.

use crate::idset::IdSet;
use crate::strmap::lemma_str_distinct_remove;
use crate::strmap::lemma_str_map_contains;
use crate::strmap::lemma_str_map_index;
use crate::strmap::lemma_str_map_push;
use crate::strmap::lemma_str_map_remove;
use crate::strmap::str_distinct_keys;
use crate::strmap::str_map_of;
use vstd::prelude::*;

verus! {

/// The effect on the postings map of discarding `id` under token `t`:
/// the posting set shrinks by `id`, and disappears entirely when nothing
/// is left of it. Tokens without a posting entry are untouched.
pub open spec fn discard_posting(m: Map<Seq<char>, Set<u128>>, t: Seq<char>, id: u128) -> Map<
    Seq<char>,
    Set<u128>,
> {
    if m.contains_key(t) {
        if m[t].remove(id).is_empty() {
            m.remove(t)
        } else {
            m.insert(t, m[t].remove(id))
        }
    } else {
        m
    }
}

/// The postings map described by plain token/id-list entries; later
/// entries win, and each id list is read as a set.
pub open spec fn postings_model_of(s: Seq<(String, Vec<u128>)>) -> Map<Seq<char>, Set<u128>>
    decreases s.len(),
{
    if s.len() == 0 {
        Map::empty()
    } else {
        postings_model_of(s.drop_last()).insert(s.last().0@, s.last().1@.to_set())
    }
}

/// Entry-wise matching vectors describe the same postings map.
pub proof fn lemma_converted_postings(conv: Seq<(String, IdSet)>, orig: Seq<(String, Vec<u128>)>)
    requires
        conv.len() == orig.len(),
        forall|k: int|
            0 <= k < conv.len() ==> (#[trigger] conv[k]).0@ == orig[k].0@ && conv[k].1@
                == orig[k].1@.to_set(),
    ensures
        str_map_of(conv) == postings_model_of(orig),
    decreases conv.len(),
{
    if conv.len() > 0 {
        assert forall|k: int| 0 <= k < conv.len() - 1 implies (#[trigger] conv.drop_last()[k]).0@
            == orig.drop_last()[k].0@ && conv.drop_last()[k].1@
            == orig.drop_last()[k].1@.to_set() by {
            assert(conv.drop_last()[k] == conv[k]);
            assert(orig.drop_last()[k] == orig[k]);
        }
        lemma_converted_postings(conv.drop_last(), orig.drop_last());
        assert(conv.last() == conv[conv.len() - 1]);
        assert(orig.last() == orig[orig.len() - 1]);
    }
}

/// A map from tokens to non-empty sets of document ids.
pub struct PostingsMap {
    entries: Vec<(String, IdSet)>,
}

impl View for PostingsMap {
    type V = Map<Seq<char>, Set<u128>>;

    closed spec fn view(&self) -> Map<Seq<char>, Set<u128>> {
        str_map_of(self.entries@)
    }
}

impl PostingsMap {
    /// Distinct tokens, well-formed id sets, and no empty posting list.
    pub closed spec fn wf(self) -> bool {
        &&& str_distinct_keys(self.entries@)
        &&& forall|i: int|
            0 <= i < self.entries@.len() ==> (#[trigger] self.entries@[i].1).wf()
                && self.entries@[i].1@.len() > 0
    }

    /// Every posting set of a well-formed map is finite and non-empty.
    pub proof fn lemma_values_nonempty(self)
        requires
            self.wf(),
        ensures
            forall|t: Seq<char>|
                #[trigger] self@.contains_key(t) ==> self@[t].finite() && self@[t].len() > 0,
    {
        assert forall|t: Seq<char>| #[trigger] self@.contains_key(t) implies self@[t].finite()
            && self@[t].len() > 0 by {
            lemma_str_map_contains(self.entries@, t);
            let i = choose|i: int| 0 <= i < self.entries@.len() && self.entries@[i].0@ == t;
            lemma_str_map_index(self.entries@, i);
            self.entries@[i].1.lemma_finite();
        }
    }

    pub fn new() -> (r: Self)
        ensures
            r.wf(),
            r@ == Map::<Seq<char>, Set<u128>>::empty(),
    {
        PostingsMap { entries: Vec::new() }
    }

    /// The index of the entry with the given token, if any.
    fn position(&self, t: &String) -> (r: Option<usize>)
        ensures
            match r {
                Some(j) => j < self.entries@.len() && self.entries@[j as int].0@ == t@,
                None => forall|i: int|
                    0 <= i < self.entries@.len() ==> #[trigger] self.entries@[i].0@ != t@,
            },
    {
        let mut j: usize = 0;
        while j < self.entries.len()
            invariant
                j <= self.entries.len(),
                forall|i: int| 0 <= i < j ==> #[trigger] self.entries@[i].0@ != t@,
            decreases self.entries.len() - j,
        {
            if self.entries[j].0 == *t {
                return Some(j);
            }
            j = j + 1;
        }
        None
    }

    pub fn get(&self, t: &String) -> (r: Option<&IdSet>)
        requires
            self.wf(),
        ensures
            match r {
                Some(v) => self@.contains_key(t@) && v@ == self@[t@] && v.wf(),
                None => !self@.contains_key(t@),
            },
    {
        let pos = self.position(t);
        proof {
            lemma_str_map_contains(self.entries@, t@);
        }
        match pos {
            Some(j) => {
                proof {
                    lemma_str_map_index(self.entries@, j as int);
                }
                Some(&self.entries[j].1)
            },
            None => None,
        }
    }

    pub fn contains_key(&self, t: &String) -> (r: bool)
        requires
            self.wf(),
        ensures
            r == self@.contains_key(t@),
    {
        self.get(t).is_some()
    }

    /// The number of tokens with at least one posting.
    pub fn len(&self) -> (r: usize)
        requires
            self.wf(),
        ensures
            r == self@.dom().len(),
            self@.dom().finite(),
    {
        proof {
            crate::strmap::lemma_str_map_dom_len(self.entries@);
        }
        self.entries.len()
    }

    /// Records that `id`'s document contains token `t`.
    pub fn add_id(&mut self, t: &String, id: u128)
        requires
            old(self).wf(),
        ensures
            final(self).wf(),
            final(self)@ == old(self)@.insert(
                t@,
                (if old(self)@.contains_key(t@) {
                    old(self)@[t@]
                } else {
                    Set::empty()
                }).insert(id),
            ),
    {
        let ghost orig = self.entries@;
        let pos = self.position(t);
        proof {
            lemma_str_map_contains(orig, t@);
        }
        match pos {
            Some(j) => {
                proof {
                    lemma_str_map_index(orig, j as int);
                }
                let mut pair = self.entries.remove(j);
                let ghost mid = self.entries@;
                pair.1.insert(id);
                proof {
                    pair.1.lemma_finite();
                    assert(pair.1@.contains(id));
                }
                let ghost gpair = pair;
                self.entries.push(pair);
                proof {
                    lemma_str_distinct_remove(orig, j as int);
                    lemma_str_map_remove(orig, j as int);
                    lemma_str_map_push(mid, gpair.0, gpair.1);
                    assert forall|i: int|
                        0 <= i < mid.len() implies #[trigger] mid[i].0@ != t@ by {
                        if i < j {
                            assert(mid[i] == orig[i]);
                        } else {
                            assert(mid[i] == orig[i + 1]);
                        }
                    }
                    assert(str_distinct_keys(self.entries@));
                    assert forall|i: int|
                        0 <= i < self.entries@.len() implies (
                        #[trigger] self.entries@[i].1).wf() && self.entries@[i].1@.len() > 0 by {
                        if i < self.entries@.len() - 1 {
                            if i < j {
                                assert(self.entries@[i] == orig[i]);
                            } else {
                                assert(self.entries@[i] == orig[i + 1]);
                            }
                        }
                    }
                    assert(str_map_of(orig).remove(t@).insert(t@, gpair.1@) =~= str_map_of(
                        orig,
                    ).insert(t@, gpair.1@));
                }
            },
            None => {
                let mut fresh = IdSet::new();
                fresh.insert(id);
                proof {
                    fresh.lemma_finite();
                    assert(fresh@.contains(id));
                }
                let key = t.clone();
                let ghost gkey = key;
                let ghost gfresh = fresh;
                self.entries.push((key, fresh));
                proof {
                    lemma_str_map_push(orig, gkey, gfresh);
                    assert(str_distinct_keys(self.entries@));
                    assert forall|i: int|
                        0 <= i < self.entries@.len() implies (
                        #[trigger] self.entries@[i].1).wf() && self.entries@[i].1@.len() > 0 by {
                        if i < self.entries@.len() - 1 {
                            assert(self.entries@[i] == orig[i]);
                        }
                    }
                }
            },
        }
    }

    /// Forgets that `id`'s document contained token `t`, dropping the
    /// token entirely once no document carries it.
    pub fn remove_id(&mut self, t: &String, id: u128)
        requires
            old(self).wf(),
        ensures
            final(self).wf(),
            final(self)@ == discard_posting(old(self)@, t@, id),
    {
        let ghost orig = self.entries@;
        let pos = self.position(t);
        proof {
            lemma_str_map_contains(orig, t@);
        }
        match pos {
            Some(j) => {
                proof {
                    lemma_str_map_index(orig, j as int);
                    lemma_str_distinct_remove(orig, j as int);
                    lemma_str_map_remove(orig, j as int);
                }
                let mut pair = self.entries.remove(j);
                let ghost mid = self.entries@;
                pair.1.remove(id);
                if pair.1.is_empty() {
                    proof {
                        assert forall|i: int|
                            0 <= i < self.entries@.len() implies (
                            #[trigger] self.entries@[i].1).wf() && self.entries@[i].1@.len()
                            > 0 by {
                            if i < j {
                                assert(self.entries@[i] == orig[i]);
                            } else {
                                assert(self.entries@[i] == orig[i + 1]);
                            }
                        }
                    }
                } else {
                    let ghost gpair = pair;
                    self.entries.push(pair);
                    proof {
                        lemma_str_map_push(mid, gpair.0, gpair.1);
                        assert forall|i: int|
                            0 <= i < mid.len() implies #[trigger] mid[i].0@ != t@ by {
                            if i < j {
                                assert(mid[i] == orig[i]);
                            } else {
                                assert(mid[i] == orig[i + 1]);
                            }
                        }
                        assert(str_distinct_keys(self.entries@));
                        assert forall|i: int|
                            0 <= i < self.entries@.len() implies (
                            #[trigger] self.entries@[i].1).wf() && self.entries@[i].1@.len()
                            > 0 by {
                            if i < self.entries@.len() - 1 {
                                if i < j {
                                    assert(self.entries@[i] == orig[i]);
                                } else {
                                    assert(self.entries@[i] == orig[i + 1]);
                                }
                            } else {
                                gpair.1.lemma_finite();
                                assert(!gpair.1@.is_empty());
                                assert(gpair.1@.len() > 0);
                            }
                        }
                        assert(str_map_of(orig).remove(t@).insert(t@, gpair.1@) =~= str_map_of(
                            orig,
                        ).insert(t@, gpair.1@));
                    }
                }
            },
            None => {},
        }
    }

    /// Adopts a vector of token/id-list entries, provided the tokens are
    /// distinct and each id list holds at least one id and none twice.
    pub fn from_entries(entries: Vec<(String, Vec<u128>)>) -> (r: Option<PostingsMap>)
        ensures
            r is Some <==> (str_distinct_keys(entries@) && forall|i: int|
                0 <= i < entries@.len() ==> (#[trigger] entries@[i].1)@.no_duplicates()
                    && entries@[i].1@.len() > 0),
            match r {
                Some(p) => p.wf() && p@ == postings_model_of(entries@),
                None => true,
            },
    {
        let mut i: usize = 1;
        while i < entries.len()
            invariant
                forall|a: int, b: int| 0 <= a < b < i ==> entries@[a].0@ != entries@[b].0@,
            decreases entries.len() - i,
        {
            let mut k: usize = 0;
            while k < i
                invariant
                    k <= i < entries@.len(),
                    forall|a: int| 0 <= a < k ==> entries@[a].0@ != entries@[i as int].0@,
                decreases i - k,
            {
                if entries[k].0 == entries[i].0 {
                    return None;
                }
                k = k + 1;
            }
            i = i + 1;
        }
        proof {
            assert(str_distinct_keys(entries@));
        }
        let ghost orig = entries@;
        let mut remaining = entries;
        let mut built: Vec<(String, IdSet)> = Vec::new();
        proof {
            assert(remaining@ =~= orig.skip(0));
        }
        while remaining.len() > 0
            invariant
                orig == entries@,
                str_distinct_keys(orig),
                built@.len() + remaining@.len() == orig.len(),
                remaining@ == orig.skip(built@.len() as int),
                forall|k: int|
                    0 <= k < built@.len() ==> (#[trigger] built@[k]).0@ == orig[k].0@
                        && built@[k].1.wf() && built@[k].1@ == orig[k].1@.to_set()
                        && built@[k].1@.len() > 0 && orig[k].1@.no_duplicates() && orig[k].1@.len()
                        > 0,
            decreases remaining@.len(),
        {
            let ghost n = built@.len() as int;
            proof {
                assert(remaining@[0] == orig[n]);
            }
            let pair = remaining.remove(0);
            if pair.1.len() == 0 {
                proof {
                    assert(orig[n].1@.len() == 0);
                }
                return None;
            }
            match IdSet::from_vec(pair.1) {
                None => {
                    proof {
                        assert(!orig[n].1@.no_duplicates());
                    }
                    return None;
                },
                Some(iset) => {
                    built.push((pair.0, iset));
                },
            }
            proof {
                assert(orig.skip(n).remove(0) =~= orig.skip(n + 1));
            }
        }
        proof {
            assert(built@.len() == orig.len());
            assert forall|i: int| 0 <= i < entries@.len() implies (
            #[trigger] entries@[i].1)@.no_duplicates() && entries@[i].1@.len() > 0 by {
                assert(built@[i].0@ == orig[i].0@);
            }
            assert forall|a: int, b: int| 0 <= a < b < built@.len() implies built@[a].0@
                != built@[b].0@ by {
                assert(built@[a].0@ == orig[a].0@);
                assert(built@[b].0@ == orig[b].0@);
            }
            lemma_converted_postings(built@, orig);
        }
        Some(PostingsMap { entries: built })
    }

    /// Read-only access to the entries, for iteration.
    pub fn entries(&self) -> (r: &Vec<(String, IdSet)>)
        requires
            self.wf(),
        ensures
            str_distinct_keys(r@),
            str_map_of(r@) == self@,
            forall|i: int| 0 <= i < r@.len() ==> (#[trigger] r@[i].1).wf(),
    {
        &self.entries
    }
}

} // verus!
