//! Lists of entity indices: ordering them and removing repetitions.

use vstd::prelude::*;

verus! {

/// Each element is no greater than those behind it.
pub open spec fn is_sorted(s: Seq<u32>) -> bool {
    forall|i: int, j: int| 0 <= i <= j < s.len() ==> s[i] <= s[j]
}

/// Each element is less than those behind it.
pub open spec fn is_strictly_increasing(s: Seq<u32>) -> bool {
    forall|i: int, j: int| 0 <= i < j < s.len() ==> s[i] < s[j]
}

/// Two strictly increasing sequences with the same elements are equal.
pub proof fn lemma_strictly_increasing_unique(a: Seq<u32>, b: Seq<u32>)
    requires
        is_strictly_increasing(a),
        is_strictly_increasing(b),
        forall|e: u32| a.contains(e) <==> b.contains(e),
    ensures
        a == b,
    decreases a.len(),
{
    if a.len() == 0 {
        if b.len() > 0 {
            assert(b.contains(b[0]));
        }
        assert(a =~= b);
    } else {
        assert(a.contains(a[0]));
        assert(b.len() > 0);
        assert(b.contains(b[0]));
        let ia = choose|i: int| 0 <= i < a.len() && a[i] == b[0];
        let ib = choose|i: int| 0 <= i < b.len() && b[i] == a[0];
        assert(a[0] == b[0]);
        let a1 = a.skip(1);
        let b1 = b.skip(1);
        assert forall|e: u32| a1.contains(e) <==> b1.contains(e) by {
            if a1.contains(e) {
                let i = choose|i: int| 0 <= i < a1.len() && a1[i] == e;
                assert(a[i + 1] == e);
                assert(a.contains(e));
                let j = choose|j: int| 0 <= j < b.len() && b[j] == e;
                assert(j != 0);
                assert(b1[j - 1] == e);
            }
            if b1.contains(e) {
                let i = choose|i: int| 0 <= i < b1.len() && b1[i] == e;
                assert(b[i + 1] == e);
                assert(b.contains(e));
                let j = choose|j: int| 0 <= j < a.len() && a[j] == e;
                assert(j != 0);
                assert(a1[j - 1] == e);
            }
        }
        assert(is_strictly_increasing(a1)) by {
            assert forall|i: int, j: int| 0 <= i < j < a1.len() implies a1[i] < a1[j] by {
                assert(a[i + 1] < a[j + 1]);
            }
        }
        assert(is_strictly_increasing(b1)) by {
            assert forall|i: int, j: int| 0 <= i < j < b1.len() implies b1[i] < b1[j] by {
                assert(b[i + 1] < b[j + 1]);
            }
        }
        lemma_strictly_increasing_unique(a1, b1);
        assert(a =~= seq![a[0]] + a1);
        assert(b =~= seq![b[0]] + b1);
    }
}

/// Puts the indices in ascending order. This is `sort_unstable` of the
/// standard library, of which the contract states what its documentation
/// does: the result is in ascending order and holds the same elements, each
/// as often as before.
#[verifier::external_body]
pub(crate) fn sort_ids(ids: &mut Vec<u32>)
    ensures
        is_sorted(final(ids)@),
        final(ids)@.to_multiset() == old(ids)@.to_multiset(),
{
    ids.sort_unstable();
}

/// The elements of a sorted list, each once.
pub fn dedup_sorted(ids: &Vec<u32>) -> (out: Vec<u32>)
    requires
        is_sorted(ids@),
    ensures
        is_strictly_increasing(out@),
        forall|e: u32| out@.contains(e) <==> ids@.contains(e),
{
    let mut out: Vec<u32> = Vec::new();
    let mut i: usize = 0;
    while i < ids.len()
        invariant
            is_sorted(ids@),
            i <= ids.len(),
            is_strictly_increasing(out@),
            out@.len() <= i,
            i > 0 ==> out@.len() > 0 && out@.last() == ids@[i - 1],
            forall|e: u32| out@.contains(e) <==> exists|k: int| 0 <= k < i && ids@[k] == e,
        decreases ids.len() - i,
    {
        let id = ids[i];
        let ghost before = out@;
        if out.len() == 0 || out[out.len() - 1] != id {
            out.push(id);
            proof {
                assert forall|a: int, b: int| 0 <= a < b < out@.len() implies out@[a] < out@[b] by {
                    if b == out@.len() - 1 {
                        assert(before.contains(before[a]));
                        let k = choose|k: int| 0 <= k < i && ids@[k] == before[a];
                        assert(ids@[k] <= ids@[i - 1]);
                        assert(before[a] <= before.last());
                    }
                }
                assert forall|e: u32| out@.contains(e) <==> exists|k: int|
                    0 <= k < i + 1 && ids@[k] == e by {
                    if out@.contains(e) {
                        let a = choose|a: int| 0 <= a < out@.len() && out@[a] == e;
                        if a < before.len() {
                            assert(before.contains(e));
                        } else {
                            assert(ids@[i as int] == e);
                        }
                    }
                    if exists|k: int| 0 <= k < i + 1 && ids@[k] == e {
                        let k = choose|k: int| 0 <= k < i + 1 && ids@[k] == e;
                        if k < i {
                            assert(before.contains(e));
                            let a = choose|a: int| 0 <= a < before.len() && before[a] == e;
                            assert(out@[a] == e);
                        } else {
                            assert(out@[out@.len() - 1] == e);
                        }
                    }
                }
            }
        } else {
            proof {
                assert forall|e: u32| out@.contains(e) <==> exists|k: int|
                    0 <= k < i + 1 && ids@[k] == e by {
                    if exists|k: int| 0 <= k < i + 1 && ids@[k] == e {
                        let k = choose|k: int| 0 <= k < i + 1 && ids@[k] == e;
                        if k == i {
                            assert(ids@[i - 1] == e);
                        }
                    }
                }
            }
        }
        i += 1;
    }
    proof {
        assert forall|e: u32| out@.contains(e) <==> ids@.contains(e) by {
            if ids@.contains(e) {
                let k = choose|k: int| 0 <= k < ids@.len() && ids@[k] == e;
                assert(0 <= k < i && ids@[k] == e);
            }
        }
    }
    out
}

/// The elements of `ids` in ascending order, each once.
pub fn sorted_unique(ids: Vec<u32>) -> (out: Vec<u32>)
    ensures
        is_strictly_increasing(out@),
        forall|e: u32| out@.contains(e) <==> ids@.contains(e),
{
    let mut sorted = ids;
    sort_ids(&mut sorted);
    proof {
        ids@.to_multiset_ensures();
        sorted@.to_multiset_ensures();
        assert forall|e: u32| sorted@.contains(e) <==> ids@.contains(e) by {
            assert(sorted@.to_multiset().count(e) == ids@.to_multiset().count(e));
        }
    }
    dedup_sorted(&sorted)
}

/// A copy of the list.
pub fn copy_ids(ids: &Vec<u32>) -> (out: Vec<u32>)
    ensures
        out@ == ids@,
{
    let mut out: Vec<u32> = Vec::new();
    let mut i: usize = 0;
    while i < ids.len()
        invariant
            i <= ids.len(),
            out@ == ids@.take(i as int),
        decreases ids.len() - i,
    {
        out.push(ids[i]);
        i += 1;
        assert(out@ =~= ids@.take(i as int));
    }
    assert(ids@.take(ids@.len() as int) =~= ids@);
    out
}

} // verus!
