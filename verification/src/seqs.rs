//! Positions in sequences.

use vstd::prelude::*;

verus! {

/// The position of the first entry of `items` that equals `item`, or `None`.
pub open spec fn position_of<A>(items: Seq<A>, item: A) -> Option<int>
    decreases items.len(),
{
    if items.len() == 0 {
        None
    } else {
        match position_of(items.drop_last(), item) {
            Some(i) => Some(i),
            None => if items.last() == item {
                Some(items.len() - 1)
            } else {
                None
            },
        }
    }
}

/// `position_of` gives the first position that holds `item`, and `None` only where no
/// position holds it.
pub proof fn lemma_position_of<A>(items: Seq<A>, item: A)
    ensures
        match position_of(items, item) {
            Some(i) => 0 <= i < items.len() && items[i] == item && forall|j: int|
                0 <= j < i ==> items[j] != item,
            None => forall|j: int| 0 <= j < items.len() ==> items[j] != item,
        },
    decreases items.len(),
{
    if items.len() > 0 {
        let front = items.drop_last();
        lemma_position_of(front, item);
        assert(forall|j: int| 0 <= j < front.len() ==> front[j] == items[j]);
    }
}

} // verus!
