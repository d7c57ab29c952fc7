//! Collapsing runs of adjacent items that count as the same.
//!
//! Only neighbours are compared: an item that comes back later, after
//! something else, is kept again. Of each run the first item stays.

use vstd::prelude::*;

verus! {

/// `items` with every run collapsed to its first item. An item is dropped
/// when it counts as the same as the one that was kept last.
pub open spec fn coalesced<T>(items: Seq<T>, same: spec_fn(T, T) -> bool) -> Seq<T>
    decreases items.len(),
{
    if items.len() == 0 {
        items
    } else {
        let kept = coalesced(items.drop_last(), same);
        if kept.len() > 0 && same(kept.last(), items.last()) {
            kept
        } else {
            kept.push(items.last())
        }
    }
}

/// Whether no two neighbours in `items` count as the same.
pub open spec fn no_adjacent_same<T>(items: Seq<T>, same: spec_fn(T, T) -> bool) -> bool {
    forall|i: int| 0 <= i < items.len() - 1 ==> !same(#[trigger] items[i], items[i + 1])
}

/// What is left after collapsing holds no two neighbours that count as the
/// same and is no longer than what went in. Unless nothing went in, it
/// begins with the first item that went in and ends with the last one or
/// with an item that counts as the same.
pub proof fn lemma_coalesced_shape<T>(items: Seq<T>, same: spec_fn(T, T) -> bool)
    ensures
        no_adjacent_same(coalesced(items, same), same),
        coalesced(items, same).len() <= items.len(),
        items.len() > 0 ==> coalesced(items, same).len() > 0,
        items.len() > 0 ==> coalesced(items, same).first() == items.first(),
        items.len() > 0 ==> (coalesced(items, same).last() == items.last() || same(
            coalesced(items, same).last(),
            items.last(),
        )),
    decreases items.len(),
{
    if items.len() > 0 {
        lemma_coalesced_shape(items.drop_last(), same);
    }
}

/// Every item that is left after collapsing was there before.
pub proof fn lemma_coalesced_keeps_only_items<T>(items: Seq<T>, same: spec_fn(T, T) -> bool)
    ensures
        forall|i: int|
            0 <= i < coalesced(items, same).len() ==> items.contains(
                #[trigger] coalesced(items, same)[i],
            ),
    decreases items.len(),
{
    if items.len() > 0 {
        let shorter = items.drop_last();
        lemma_coalesced_keeps_only_items(shorter, same);
        let kept = coalesced(shorter, same);
        assert forall|i: int| 0 <= i < coalesced(items, same).len() implies items.contains(
            #[trigger] coalesced(items, same)[i],
        ) by {
            if i < kept.len() {
                assert(shorter.contains(kept[i]));
                let j = choose|j: int| 0 <= j < shorter.len() && shorter[j] == kept[i];
                assert(items[j] == kept[i]);
            } else {
                assert(items[items.len() - 1] == items.last());
            }
        }
    }
}

/// Collapsing changes nothing where no two neighbours count as the same.
pub proof fn lemma_coalesced_fixes_collapsed<T>(items: Seq<T>, same: spec_fn(T, T) -> bool)
    requires
        no_adjacent_same(items, same),
    ensures
        coalesced(items, same) == items,
    decreases items.len(),
{
    if items.len() > 0 {
        let shorter = items.drop_last();
        assert forall|i: int| 0 <= i < shorter.len() - 1 implies !same(
            #[trigger] shorter[i],
            shorter[i + 1],
        ) by {
            assert(shorter[i] == items[i]);
            assert(shorter[i + 1] == items[i + 1]);
        }
        lemma_coalesced_fixes_collapsed(shorter, same);
        if shorter.len() > 0 {
            let i = shorter.len() - 1;
            assert(!same(items[i], items[i + 1]));
        }
        assert(shorter.push(items.last()) =~= items);
    }
}

/// Collapsing twice is collapsing once.
pub proof fn lemma_coalesced_idempotent<T>(items: Seq<T>, same: spec_fn(T, T) -> bool)
    ensures
        coalesced(coalesced(items, same), same) == coalesced(items, same),
{
    lemma_coalesced_shape(items, same);
    lemma_coalesced_fixes_collapsed(coalesced(items, same), same);
}

} // verus!
