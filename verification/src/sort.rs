//! A stable sort of dated positions.

use vstd::prelude::*;

verus! {

/// Whether one dated position comes before another: by its date, then by its position.
pub open spec fn comes_before(a: (u64, usize), b: (u64, usize)) -> bool {
    a.0 < b.0 || (a.0 == b.0 && a.1 < b.1)
}

/// Whether each dated position of a list comes before all that follow.
pub open spec fn is_ordered(list: Seq<(u64, usize)>) -> bool {
    forall|i: int, j: int|
        0 <= i < j < list.len() ==> comes_before(#[trigger] list[i], #[trigger] list[j])
}

/// Whether the positions of a list increase.
pub open spec fn positions_increase(list: Seq<(u64, usize)>) -> bool {
    forall|i: int, j: int|
        0 <= i < j < list.len() ==> (#[trigger] list[i]).1 < (#[trigger] list[j]).1
}

/// An ordered list is by date, and of one date by position; nothing stands in it twice.
pub proof fn ordered_lists_are_by_date(list: Seq<(u64, usize)>, i: int, j: int)
    requires
        is_ordered(list),
        0 <= i < j < list.len(),
    ensures
        list[i].0 <= list[j].0,
        list[i].0 == list[j].0 ==> list[i].1 < list[j].1,
        list[i] != list[j],
{
}

/// Merges two ordered lists, of which the first has the smaller positions.
fn merge(first: &Vec<(u64, usize)>, second: &Vec<(u64, usize)>) -> (merged: Vec<(u64, usize)>)
    requires
        is_ordered(first@),
        is_ordered(second@),
        forall|i: int, j: int|
            0 <= i < first.len() && 0 <= j < second.len() ==> (#[trigger] first[i]).1 < (
            #[trigger] second[j]).1,
    ensures
        is_ordered(merged@),
        forall|x: (u64, usize)| #[trigger]
            merged@.contains(x) <==> first@.contains(x) || second@.contains(x),
{
    let mut merged: Vec<(u64, usize)> = Vec::new();
    let mut i: usize = 0;
    let mut j: usize = 0;
    while i < first.len() || j < second.len()
        invariant
            is_ordered(first@),
            is_ordered(second@),
            forall|a: int, b: int|
                0 <= a < first.len() && 0 <= b < second.len() ==> (#[trigger] first[a]).1 < (
                #[trigger] second[b]).1,
            i <= first.len(),
            j <= second.len(),
            is_ordered(merged@),
            forall|k: int, a: int|
                0 <= k < merged.len() && i <= a < first.len() ==> comes_before(
                    #[trigger] merged[k],
                    #[trigger] first[a],
                ),
            forall|k: int, b: int|
                0 <= k < merged.len() && j <= b < second.len() ==> comes_before(
                    #[trigger] merged[k],
                    #[trigger] second[b],
                ),
            forall|k: int|
                0 <= k < merged.len() ==> first@.contains(#[trigger] merged[k]) || second@.contains(
                    merged[k],
                ),
            forall|a: int| 0 <= a < i ==> merged@.contains(#[trigger] first[a]),
            forall|b: int| 0 <= b < j ==> merged@.contains(#[trigger] second[b]),
        decreases first.len() - i + second.len() - j,
    {
        let ghost before = merged@;
        let from_first: bool = if i < first.len() && j < second.len() {
            first[i].0 <= second[j].0
        } else {
            i < first.len()
        };
        if from_first {
            merged.push(first[i]);
            i = i + 1;
        } else {
            merged.push(second[j]);
            j = j + 1;
        }
        proof {
            assert(merged@.last() == merged@[before.len() as int]);
            assert forall|x: (u64, usize)| before.contains(x) implies merged@.contains(x) by {
                let k = before.index_of(x);
                assert(merged@[k] == x);
            }
        }
    }
    assert forall|x: (u64, usize)| first@.contains(x) || second@.contains(x) implies #[trigger]
    merged@.contains(x) by {
        if first@.contains(x) {
            let a = first@.index_of(x);
            assert(merged@.contains(first[a]));
        } else {
            let b = second@.index_of(x);
            assert(merged@.contains(second[b]));
        }
    }
    merged
}

/// Sorts dated positions that stand in the order of their positions.
pub fn sort_by_date(list: Vec<(u64, usize)>) -> (sorted: Vec<(u64, usize)>)
    requires
        positions_increase(list@),
    ensures
        is_ordered(sorted@),
        forall|x: (u64, usize)| #[trigger] sorted@.contains(x) <==> list@.contains(x),
    decreases list.len(),
{
    if list.len() <= 1 {
        return list;
    }
    let ghost all = list@;
    let mut front = list;
    let middle: usize = front.len() / 2;
    let back = front.split_off(middle);
    let ghost left = front@;
    let ghost right = back@;
    proof {
        assert(left == all.subrange(0, middle as int));
        assert(right == all.subrange(middle as int, all.len() as int));
    }
    let front = sort_by_date(front);
    let back = sort_by_date(back);
    proof {
        assert forall|i: int, j: int| 0 <= i < front.len() && 0 <= j < back.len() implies (
        #[trigger] front[i]).1 < (#[trigger] back[j]).1 by {
            assert(front@.contains(front@[i]));
            assert(back@.contains(back@[j]));
            let a = left.index_of(front@[i]);
            let b = right.index_of(back@[j]);
            assert(all[a] == front@[i]);
            assert(all[middle + b] == back@[j]);
        }
        assert forall|x: (u64, usize)| #[trigger] all.contains(x) <==> left.contains(x)
            || right.contains(x) by {
            if all.contains(x) {
                let k = all.index_of(x);
                if k < middle {
                    assert(left[k] == x);
                } else {
                    assert(right[k - middle] == x);
                }
            }
            if left.contains(x) {
                let k = left.index_of(x);
                assert(all[k] == x);
            }
            if right.contains(x) {
                let k = right.index_of(x);
                assert(all[middle + k] == x);
            }
        }
    }
    merge(&front, &back)
}

} // verus!
