//! A set of tokens, backed by a vector of strings without duplicates.

use crate::tokenizer::token_views;
use vstd::prelude::*;

verus! {

/// The distinct tokens of one document. Built once from the tokenizer's
/// output and kept alongside the document so that its postings can be
/// removed later without re-tokenizing.
pub struct TokenSet {
    toks: Vec<String>,
}

impl View for TokenSet {
    type V = Set<Seq<char>>;

    closed spec fn view(&self) -> Set<Seq<char>> {
        token_views(self.toks@).to_set()
    }
}

impl TokenSet {
    /// No token occurs twice in the backing vector.
    pub closed spec fn wf(self) -> bool {
        token_views(self.toks@).no_duplicates()
    }

    /// Collects a token sequence into the set of its distinct tokens.
    pub fn from_tokens(tokens: &Vec<String>) -> (r: TokenSet)
        ensures
            r.wf(),
            r@ == token_views(tokens@).to_set(),
    {
        let mut toks: Vec<String> = Vec::new();
        let ghost all = token_views(tokens@);
        let mut i: usize = 0;
        proof {
            assert(token_views(toks@) =~= Seq::empty());
            assert(token_views(toks@).to_set() =~= all.take(0).to_set());
        }
        while i < tokens.len()
            invariant
                i <= tokens.len(),
                all == token_views(tokens@),
                token_views(toks@).no_duplicates(),
                token_views(toks@).to_set() == all.take(i as int).to_set(),
            decreases tokens.len() - i,
        {
            let ghost prev = toks@;
            let mut found = false;
            let mut j: usize = 0;
            while j < toks.len()
                invariant
                    j <= toks.len(),
                    toks@ == prev,
                    i < tokens.len(),
                    found <==> exists|k: int| 0 <= k < j && prev[k]@ == tokens@[i as int]@,
                decreases toks.len() - j,
            {
                if toks[j] == tokens[i] {
                    found = true;
                }
                j = j + 1;
            }
            if !found {
                toks.push(tokens[i].clone());
                proof {
                    assert(token_views(toks@) =~= token_views(prev).push(all[i as int]));
                    assert(forall|k: int|
                        0 <= k < prev.len() ==> token_views(prev)[k] != all[i as int]);
                    token_views(prev).lemma_push_to_set_commute(all[i as int]);
                }
            } else {
                proof {
                    assert(exists|k: int| 0 <= k < prev.len() && prev[k]@ == tokens@[i as int]@);
                    let k = choose|k: int| 0 <= k < prev.len() && prev[k]@ == tokens@[i as int]@;
                    assert(token_views(prev)[k] == all[i as int]);
                    assert(token_views(prev).to_set().contains(all[i as int]));
                }
            }
            proof {
                assert(all.take(i as int).push(all[i as int]) =~= all.take(i as int + 1));
                all.take(i as int).lemma_push_to_set_commute(all[i as int]);
            }
            i = i + 1;
        }
        proof {
            assert(all.take(tokens@.len() as int) =~= all);
        }
        TokenSet { toks }
    }

    pub fn contains(&self, t: &String) -> (r: bool)
        ensures
            r == self@.contains(t@),
    {
        let mut j: usize = 0;
        while j < self.toks.len()
            invariant
                j <= self.toks.len(),
                forall|k: int| 0 <= k < j ==> self.toks@[k]@ != t@,
            decreases self.toks.len() - j,
        {
            if self.toks[j] == *t {
                proof {
                    assert(token_views(self.toks@)[j as int] == t@);
                }
                return true;
            }
            j = j + 1;
        }
        proof {
            assert(forall|k: int|
                0 <= k < self.toks@.len() ==> token_views(self.toks@)[k] != t@);
            assert(!token_views(self.toks@).contains(t@));
        }
        false
    }

    /// Whether two token sets hold exactly the same tokens.
    pub fn same_tokens(&self, other: &TokenSet) -> (r: bool)
        ensures
            r == (self@ == other@),
    {
        let mut j: usize = 0;
        while j < self.toks.len()
            invariant
                j <= self.toks@.len(),
                forall|k: int| 0 <= k < j ==> other@.contains(#[trigger] self.toks@[k]@),
            decreases self.toks@.len() - j,
        {
            if !other.contains(&self.toks[j]) {
                proof {
                    assert(self@.contains(token_views(self.toks@)[j as int]));
                }
                return false;
            }
            j = j + 1;
        }
        let mut k: usize = 0;
        while k < other.toks.len()
            invariant
                k <= other.toks@.len(),
                forall|i: int| 0 <= i < self.toks@.len() ==> other@.contains(
                    #[trigger] self.toks@[i]@,
                ),
                forall|i: int| 0 <= i < k ==> self@.contains(#[trigger] other.toks@[i]@),
            decreases other.toks@.len() - k,
        {
            if !self.contains(&other.toks[k]) {
                proof {
                    assert(other@.contains(token_views(other.toks@)[k as int]));
                }
                return false;
            }
            k = k + 1;
        }
        proof {
            assert forall|x: Seq<char>| #[trigger] self@.contains(x) implies other@.contains(
                x,
            ) by {
                let i = choose|i: int|
                    0 <= i < token_views(self.toks@).len() && token_views(self.toks@)[i] == x;
                assert(self.toks@[i]@ == x);
            }
            assert forall|x: Seq<char>| #[trigger] other@.contains(x) implies self@.contains(
                x,
            ) by {
                let i = choose|i: int|
                    0 <= i < token_views(other.toks@).len() && token_views(other.toks@)[i] == x;
                assert(other.toks@[i]@ == x);
            }
            assert(self@ =~= other@);
        }
        true
    }

    /// Read-only access to the backing vector, for iteration.
    pub fn as_vec(&self) -> (r: &Vec<String>)
        ensures
            token_views(r@).to_set() == self@,
    {
        &self.toks
    }

    /// A fresh vector holding the tokens.
    pub fn to_vec(&self) -> (r: Vec<String>)
        ensures
            token_views(r@).to_set() == self@,
    {
        let mut r: Vec<String> = Vec::new();
        let mut j: usize = 0;
        proof {
            assert(token_views(r@) =~= token_views(self.toks@).take(0));
        }
        while j < self.toks.len()
            invariant
                j <= self.toks.len(),
                token_views(r@) == token_views(self.toks@).take(j as int),
            decreases self.toks.len() - j,
        {
            let ghost prevr = r@;
            proof {
                assert(token_views(prevr).len() == prevr.len());
                assert(token_views(self.toks@).take(j as int).len() == j);
                assert(prevr.len() == j);
            }
            r.push(self.toks[j].clone());
            proof {
                assert(r@ == prevr.push(self.toks@[j as int]));
                assert forall|k: int| 0 <= k < j + 1 implies token_views(r@)[k] == token_views(
                    self.toks@,
                ).take(j as int + 1)[k] by {
                    if k < j {
                        assert(token_views(prevr)[k] == token_views(self.toks@).take(j as int)[k]);
                    }
                }
                assert(token_views(r@) =~= token_views(self.toks@).take(j as int + 1));
            }
            j = j + 1;
        }
        proof {
            assert(token_views(r@) =~= token_views(self.toks@));
        }
        r
    }
}

} // verus!
