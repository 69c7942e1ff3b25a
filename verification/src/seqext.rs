//! Small general lemmas about sequences used by the vector-backed
//! containers of this crate.

use vstd::prelude::*;

verus! {

/// Removing the element at index `i` keeps the remaining elements, in order.
pub proof fn lemma_remove_keeps_rest<A>(s: Seq<A>, i: int)
    requires
        0 <= i < s.len(),
    ensures
        s.remove(i).len() == s.len() - 1,
        forall|k: int| 0 <= k < i ==> #[trigger] s.remove(i)[k] == s[k],
        forall|k: int| i <= k < s.len() - 1 ==> #[trigger] s.remove(i)[k] == s[k + 1],
{
    s.remove_ensures(i);
}

/// Removing an element of a duplicate-free sequence keeps it duplicate-free.
pub proof fn lemma_remove_no_duplicates<A>(s: Seq<A>, i: int)
    requires
        s.no_duplicates(),
        0 <= i < s.len(),
    ensures
        s.remove(i).no_duplicates(),
{
    lemma_remove_keeps_rest(s, i);
    let r = s.remove(i);
    assert forall|a: int, b: int|
        0 <= a < r.len() && 0 <= b < r.len() && a != b implies r[a] != r[b] by {
        let pa: int = if a < i {
            a
        } else {
            a + 1
        };
        let pb: int = if b < i {
            b
        } else {
            b + 1
        };
        assert(r[a] == s[pa]);
        assert(r[b] == s[pb]);
    }
}

/// In a duplicate-free sequence, removing index `i` removes exactly the
/// element `s[i]` from the set of elements.
pub proof fn lemma_remove_to_set<A>(s: Seq<A>, i: int)
    requires
        s.no_duplicates(),
        0 <= i < s.len(),
    ensures
        s.remove(i).to_set() =~= s.to_set().remove(s[i]),
{
    lemma_remove_keeps_rest(s, i);
    let r = s.remove(i);
    assert forall|x: A| r.to_set().contains(x) implies s.to_set().remove(s[i]).contains(x) by {
        let k = choose|k: int| 0 <= k < r.len() && r[k] == x;
        if k < i {
            assert(s[k] == x);
        } else {
            assert(s[k + 1] == x);
            assert(k + 1 != i);
        }
        assert(s.to_set().contains(x));
    }
    assert forall|x: A| s.to_set().remove(s[i]).contains(x) implies r.to_set().contains(x) by {
        let k = choose|k: int| 0 <= k < s.len() && s[k] == x;
        assert(k != i);
        if k < i {
            assert(r[k] == x);
        } else {
            assert(r[k - 1] == x);
        }
    }
}

} // verus!
