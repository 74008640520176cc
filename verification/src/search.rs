//! Finding the first item of a sequence that has a wanted property.

use vstd::prelude::*;

verus! {

/// The place of the first item of `items` that is `wanted`, if there is one.
pub open spec fn position<T>(items: Seq<T>, wanted: spec_fn(T) -> bool) -> Option<int>
    decreases items.len(),
{
    if items.len() == 0 {
        None
    } else {
        match position(items.drop_last(), wanted) {
            Some(i) => Some(i),
            None => if wanted(items.last()) {
                Some(items.len() - 1)
            } else {
                None
            },
        }
    }
}

/// `position` gives the first wanted item: an item that is wanted, after
/// items that are not. It gives none only where no item is wanted.
pub proof fn lemma_position_is_first<T>(items: Seq<T>, wanted: spec_fn(T) -> bool)
    ensures
        match position(items, wanted) {
            Some(i) => 0 <= i < items.len() && wanted(items[i]) && forall|j: int|
                0 <= j < i ==> !wanted(#[trigger] items[j]),
            None => forall|j: int| 0 <= j < items.len() ==> !wanted(#[trigger] items[j]),
        },
    decreases items.len(),
{
    if items.len() > 0 {
        let front = items.drop_last();
        lemma_position_is_first(front, wanted);
        match position(front, wanted) {
            Some(i) => {
                assert(front[i] == items[i]);
                assert forall|j: int| 0 <= j < i implies !wanted(#[trigger] items[j]) by {
                    assert(front[j] == items[j]);
                }
            },
            None => {
                assert forall|j: int| 0 <= j < items.len() - 1 implies !wanted(
                    #[trigger] items[j],
                ) by {
                    assert(front[j] == items[j]);
                }
            },
        }
    }
}

/// An item that is wanted, after items that are not, is the one that
/// `position` gives.
pub proof fn lemma_first_is_position<T>(items: Seq<T>, wanted: spec_fn(T) -> bool, i: int)
    requires
        0 <= i < items.len(),
        wanted(items[i]),
        forall|j: int| 0 <= j < i ==> !wanted(#[trigger] items[j]),
    ensures
        position(items, wanted) == Some(i),
{
    lemma_position_is_first(items, wanted);
    match position(items, wanted) {
        Some(k) => {
            if k < i {
                assert(!wanted(items[k]));
            } else if i < k {
                assert(!wanted(items[i]));
            }
        },
        None => {
            assert(!wanted(items[i]));
        },
    }
}

/// Where no item is wanted, `position` gives none.
pub proof fn lemma_none_is_position<T>(items: Seq<T>, wanted: spec_fn(T) -> bool)
    requires
        forall|j: int| 0 <= j < items.len() ==> !wanted(#[trigger] items[j]),
    ensures
        position(items, wanted) is None,
{
    lemma_position_is_first(items, wanted);
    if position(items, wanted) is Some {
        let k = position(items, wanted)->0;
        assert(!wanted(items[k]));
    }
}

} // verus!
