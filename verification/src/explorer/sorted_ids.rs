//! Strictly increasing lists of planet identifiers.
//!
//! Every list of planets that the map hands out is sorted and free of
//! duplicates; a strictly increasing sequence is the unique listing of the
//! set of its elements.

use vstd::prelude::*;

verus! {

/// `s` is strictly increasing.
pub open spec fn strictly_increasing(s: Seq<u32>) -> bool {
    forall|i: int, j: int| 0 <= i < j < s.len() ==> s[i] < s[j]
}

/// `s` lists exactly the elements of `set`, in increasing order.
pub open spec fn sorted_listing(s: Seq<u32>, set: Set<u32>) -> bool {
    &&& strictly_increasing(s)
    &&& s.to_set() == set
}

/// Inserts `x` into a strictly increasing vector at its place.
pub fn insert_sorted(v: &mut Vec<u32>, x: u32)
    requires
        strictly_increasing(old(v)@),
        !old(v)@.contains(x),
    ensures
        strictly_increasing(final(v)@),
        final(v)@.to_set() == old(v)@.to_set().insert(x),
        final(v)@.len() == old(v)@.len() + 1,
{
    let mut i: usize = 0;
    while i < v.len() && v[i] < x
        invariant
            0 <= i <= v.len(),
            forall|j: int| 0 <= j < i ==> v@[j] < x,
        decreases v.len() - i,
    {
        i = i + 1;
    }
    let ghost before = v@;
    v.insert(i, x);
    assert(forall|j: int| i <= j < before.len() ==> x < before[j]) by {
        assert forall|j: int| i <= j < before.len() implies x < before[j] by {
            if i < before.len() {
                assert(before[i as int] >= x);
                assert(before[i as int] != x) by {
                    assert(before.contains(before[i as int]));
                }
                if j > i {
                    assert(before[i as int] < before[j]);
                }
            }
        }
    }
    assert(v@ =~= before.insert(i as int, x));
    assert forall|a: int, b: int| 0 <= a < b < v@.len() implies v@[a] < v@[b] by {
        if b < i {
        } else if b == i {
        } else if a < i {
            assert(v@[b] == before[b - 1]);
        } else if a == i {
            assert(v@[b] == before[b - 1]);
        } else {
            assert(v@[b] == before[b - 1]);
            assert(v@[a] == before[a - 1]);
        }
    }
    assert(v@.to_set() =~= before.to_set().insert(x)) by {
        assert forall|y: u32| v@.to_set().contains(y) implies before.to_set().insert(x).contains(y) by {
            let k = choose|k: int| 0 <= k < v@.len() && v@[k] == y;
            if k < i {
                assert(before[k] == y);
            } else if k > i {
                assert(before[k - 1] == y);
            }
        }
        assert forall|y: u32| before.to_set().insert(x).contains(y) implies v@.to_set().contains(y) by {
            if y == x {
                assert(v@[i as int] == x);
            } else {
                let k = choose|k: int| 0 <= k < before.len() && before[k] == y;
                if k < i {
                    assert(v@[k] == y);
                } else {
                    assert(v@[k + 1] == y);
                }
            }
        }
    }
}


/// A strictly increasing sequence has as many elements as the set it lists.
pub proof fn lemma_sorted_listing_len(s: Seq<u32>, set: Set<u32>)
    requires
        sorted_listing(s, set),
    ensures
        s.len() == set.len(),
{
    assert(s.no_duplicates()) by {
        assert forall|i: int, j: int| 0 <= i < s.len() && 0 <= j < s.len() && i != j implies s[i] != s[j] by {
            if i < j {
                assert(s[i] < s[j]);
            } else {
                assert(s[j] < s[i]);
            }
        }
    }
    s.unique_seq_to_set();
}

/// A finite set has exactly one sorted listing: two strictly increasing
/// sequences with the same elements are equal.
pub proof fn lemma_sorted_listing_unique(s1: Seq<u32>, s2: Seq<u32>, set: Set<u32>)
    requires
        sorted_listing(s1, set),
        sorted_listing(s2, set),
    ensures
        s1 == s2,
    decreases s1.len() + s2.len(),
{
    if s1.len() == 0 {
        if s2.len() > 0 {
            assert(s2.to_set().contains(s2[0]));
            assert(s1.to_set().contains(s2[0]));
        }
        assert(s1 =~= s2);
    } else if s2.len() == 0 {
        assert(s1.to_set().contains(s1[0]));
        assert(s2.to_set().contains(s1[0]));
    } else {
        let a = s1.last();
        let b = s2.last();
        assert(s1.to_set().contains(a));
        assert(s2.to_set().contains(b));
        let ia = choose|k: int| 0 <= k < s2.len() && s2[k] == a;
        let ib = choose|k: int| 0 <= k < s1.len() && s1[k] == b;
        if ia < s2.len() - 1 {
            assert(s2[ia] < s2[s2.len() - 1]);
        }
        if ib < s1.len() - 1 {
            assert(s1[ib] < s1[s1.len() - 1]);
        }
        assert(a == b);
        let t1 = s1.drop_last();
        let t2 = s2.drop_last();
        let smaller = set.remove(a);
        assert(t1.to_set() =~= smaller) by {
            assert forall|x: u32| t1.to_set().contains(x) implies smaller.contains(x) by {
                let k = choose|k: int| 0 <= k < t1.len() && t1[k] == x;
                assert(s1[k] == x);
                assert(s1[k] < s1[s1.len() - 1]);
                assert(s1.to_set().contains(x));
            }
            assert forall|x: u32| smaller.contains(x) implies t1.to_set().contains(x) by {
                assert(s1.to_set().contains(x));
                let k = choose|k: int| 0 <= k < s1.len() && s1[k] == x;
                assert(k != s1.len() - 1);
                assert(t1[k] == x);
            }
        }
        assert(t2.to_set() =~= smaller) by {
            assert forall|x: u32| t2.to_set().contains(x) implies smaller.contains(x) by {
                let k = choose|k: int| 0 <= k < t2.len() && t2[k] == x;
                assert(s2[k] == x);
                assert(s2[k] < s2[s2.len() - 1]);
                assert(s2.to_set().contains(x));
            }
            assert forall|x: u32| smaller.contains(x) implies t2.to_set().contains(x) by {
                assert(s2.to_set().contains(x));
                let k = choose|k: int| 0 <= k < s2.len() && s2[k] == x;
                assert(k != s2.len() - 1);
                assert(t2[k] == x);
            }
        }
        lemma_sorted_listing_unique(t1, t2, smaller);
        assert(s1 =~= t1.push(a));
        assert(s2 =~= t2.push(b));
    }
}

} // verus!
