//! A stable ordering of rows by an integer sort key, largest first.
use vstd::prelude::*;

verus! {

/// `a` sorts no later than `b`: larger first component, then larger second.
pub open spec fn key_ge(a: (i128, i128), b: (i128, i128)) -> bool {
    a.0 > b.0 || (a.0 == b.0 && a.1 >= b.1)
}

fn key_at_least(a: (i128, i128), b: (i128, i128)) -> (r: bool)
    ensures
        r == key_ge(a, b),
{
    a.0 > b.0 || (a.0 == b.0 && a.1 >= b.1)
}

/// `k` appears in `order`.
pub open spec fn lists(order: Seq<usize>, k: int) -> bool {
    exists|j: int| 0 <= j < order.len() && order[j] == k
}

/// `order` lists each position below `n` exactly once.
pub open spec fn is_permutation(order: Seq<usize>, n: int) -> bool {
    &&& order.len() == n
    &&& forall|j: int| 0 <= j < order.len() ==> (#[trigger] order[j]) < n
    &&& forall|a: int, b: int|
        0 <= a < order.len() && 0 <= b < order.len() && a != b ==> order[a] != order[b]
    &&& forall|k: int| 0 <= k < n ==> #[trigger] lists(order, k)
}

/// Positions of `keys` ordered by `key_ge`, largest first; equal keys keep
/// their relative order.
pub fn sort_order(keys: &Vec<(i128, i128)>) -> (order: Vec<usize>)
    ensures
        is_permutation(order@, keys@.len() as int),
        forall|a: int, b: int|
            0 <= a < b < order@.len() ==> key_ge(keys@[order@[a] as int], keys@[order@[b] as int]),
        forall|a: int, b: int|
            0 <= a < b < order@.len() && keys@[order@[a] as int] == keys@[order@[b] as int]
                ==> order@[a] < order@[b],
{
    let n = keys.len();
    let mut order: Vec<usize> = Vec::new();
    let mut i: usize = 0;
    while i < n
        invariant
            n == keys@.len(),
            i <= n,
            is_permutation(order@, i as int),
            forall|a: int, b: int|
                0 <= a < b < order@.len() ==> key_ge(
                    keys@[order@[a] as int],
                    keys@[order@[b] as int],
                ),
            forall|a: int, b: int|
                0 <= a < b < order@.len() && keys@[order@[a] as int] == keys@[order@[b] as int]
                    ==> order@[a] < order@[b],
        decreases n - i,
    {
        let k = keys[i];
        let mut pos: usize = 0;
        while pos < order.len() && key_at_least(keys[order[pos]], k)
            invariant
                n == keys@.len(),
                i < n,
                k == keys@[i as int],
                pos <= order@.len(),
                is_permutation(order@, i as int),
                forall|a: int| 0 <= a < pos ==> key_ge(#[trigger] keys@[order@[a] as int], k),
            decreases order@.len() - pos,
        {
            pos = pos + 1;
        }
        let ghost before = order@;
        proof {
            if pos < before.len() {
                assert forall|a: int| pos <= a < before.len() implies !key_ge(
                    #[trigger] keys@[before[a] as int],
                    k,
                ) by {
                    if a > pos {
                        assert(key_ge(keys@[before[pos as int] as int], keys@[before[a] as int]));
                    }
                }
            }
        }
        order.insert(pos, i);
        proof {
            assert(order@ == before.insert(pos as int, i));
            assert forall|j: int| 0 <= j < order@.len() implies (#[trigger] order@[j]) < i + 1 by {
                if j < pos {
                    assert(order@[j] == before[j]);
                } else if j > pos {
                    assert(order@[j] == before[j - 1]);
                }
            }
            assert forall|kk: int| 0 <= kk < i + 1 implies #[trigger] lists(order@, kk) by {
                if kk == i {
                    assert(order@[pos as int] == kk);
                } else {
                    assert(lists(before, kk));
                    let j0 = choose|j: int| 0 <= j < before.len() && before[j] == kk;
                    if j0 < pos {
                        assert(order@[j0] == kk);
                    } else {
                        assert(order@[j0 + 1] == kk);
                    }
                }
            }
        }
        i = i + 1;
    }
    order
}

/// Applies an order to a sequence.
pub open spec fn reordered<T>(rows: Seq<T>, order: Seq<usize>) -> Seq<T> {
    Seq::new(order.len(), |j: int| rows[order[j] as int])
}

} // verus!
