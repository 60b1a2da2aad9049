//! Small operations on vectors.
use vstd::prelude::*;

verus! {

/// The items of `v` in the opposite order.
pub fn in_reverse<T>(v: Vec<T>) -> (r: Vec<T>)
    ensures
        r@ == v@.reverse(),
{
    let mut from = v;
    let mut r: Vec<T> = Vec::new();
    while from.len() > 0
        invariant
            from@.len() + r@.len() == v@.len(),
            forall|k: int| 0 <= k < from@.len() ==> from@[k] == v@[k],
            forall|k: int| 0 <= k < r@.len() ==> r@[k] == v@[v@.len() - 1 - k],
        decreases from.len(),
    {
        let item = from.pop().unwrap();
        r.push(item);
    }
    assert(r@ =~= v@.reverse());
    r
}

/// The items of `v`, each in a slot of its own that it can be taken out of.
pub fn into_slots<T>(v: Vec<T>) -> (r: Vec<Option<T>>)
    ensures
        r@.len() == v@.len(),
        forall|k: int| 0 <= k < v@.len() ==> #[trigger] r@[k] == Some(v@[k]),
{
    let n = v.len();
    let mut from = in_reverse(v);
    let mut r: Vec<Option<T>> = Vec::new();
    while from.len() > 0
        invariant
            n == v@.len(),
            from@.len() + r@.len() == n,
            forall|k: int| 0 <= k < from@.len() ==> from@[k] == v@[n - 1 - k],
            forall|k: int| 0 <= k < r@.len() ==> #[trigger] r@[k] == Some(v@[k]),
        decreases from.len(),
    {
        let item = from.pop().unwrap();
        r.push(Some(item));
    }
    r
}

/// Takes what slot `i` holds and leaves the slot empty.
pub fn take_at<T>(slots: &mut Vec<Option<T>>, i: usize) -> (r: Option<T>)
    requires
        i < old(slots)@.len(),
    ensures
        r == old(slots)@[i as int],
        final(slots)@ == old(slots)@.update(i as int, None),
{
    slots.push(None);
    let r = slots.swap_remove(i);
    assert(slots@ =~= old(slots)@.update(i as int, None));
    r
}

/// The places that `marks` marks, in rising order.
pub fn marked_places(marks: &Vec<bool>) -> (r: Vec<usize>)
    ensures
        forall|k: int| 0 <= k < r@.len() ==> #[trigger] r@[k] < marks@.len() && marks@[r@[k] as int],
        forall|k: int, m: int| 0 <= k < m < r@.len() ==> r@[k] < r@[m],
        forall|i: int| 0 <= i < marks@.len() && #[trigger] marks@[i] ==> r@.contains(i as usize),
{
    let mut r: Vec<usize> = Vec::new();
    let mut i: usize = 0;
    while i < marks.len()
        invariant
            i <= marks.len(),
            forall|k: int| 0 <= k < r@.len() ==> #[trigger] r@[k] < i && marks@[r@[k] as int],
            forall|k: int, m: int| 0 <= k < m < r@.len() ==> r@[k] < r@[m],
            forall|j: int| 0 <= j < i && #[trigger] marks@[j] ==> r@.contains(j as usize),
        decreases marks.len() - i,
    {
        let ghost before = r@;
        if marks[i] {
            r.push(i);
            assert(r@[before.len() as int] == i);
        }
        proof {
            assert forall|j: int| 0 <= j < i + 1 && #[trigger] marks@[j] implies r@.contains(
                j as usize,
            ) by {
                if j < i {
                    let w = choose|w: int| 0 <= w < before.len() && before[w] == j as usize;
                    assert(r@[w] == j as usize);
                }
            }
        }
        i = i + 1;
    }
    r
}

} // verus!
