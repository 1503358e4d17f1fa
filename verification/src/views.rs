//! Views of vectors of values that have a view of their own.

use vstd::prelude::*;

verus! {

/// The views of the items of `items`, in their order.
pub open spec fn views<T: View>(items: Seq<T>) -> Seq<T::V> {
    Seq::new(items.len(), |i: int| items[i]@)
}

pub proof fn lemma_views_push<T: View>(items: Seq<T>, item: T)
    ensures
        views(items.push(item)) == views(items).push(item@),
{
    assert(views(items.push(item)) =~= views(items).push(item@));
}

/// Taking one more item of a sequence appends that item to what was taken.
pub proof fn lemma_take_next<T>(items: Seq<T>, n: int)
    requires
        0 <= n < items.len(),
    ensures
        items.take(n + 1) == items.take(n).push(items[n]),
        items.take(n + 1).drop_last() == items.take(n),
        items.take(n + 1).last() == items[n],
{
    assert(items.take(n + 1) =~= items.take(n).push(items[n]));
    assert(items.take(n + 1).drop_last() =~= items.take(n));
}

} // verus!
