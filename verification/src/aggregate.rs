//! Merging what several walks found into one listing: sorted by name and
//! path, with every name and path at most once.
//!
//! Entries of one name at different paths all stay. The listing reports
//! such copies; it does not choose between them.
//!
//! Paths are compared and ordered as texts, not component by component:
//! two paths are one only if they are spelled alike, and `a-b` comes
//! before `a/b`.

use crate::dedup::{coalesced, lemma_coalesced_keeps_only_items, lemma_coalesced_shape};
use crate::order::{
    key_le, key_lt, lemma_key_le_antisymmetric, lemma_text_le_reflexive, same_key, sorted_by_key,
    strictly_sorted_by_key,
};
use crate::package::{entry_views, Entry, EntryView};
use itertools::Itertools;
use vstd::prelude::*;

verus! {

/// Two entries count as the same when they have one name and one path.
pub open spec fn same_entry_key() -> spec_fn(EntryView, EntryView) -> bool {
    |a: EntryView, b: EntryView| same_key(a, b)
}

/// Whether `entries` holds an entry with the name and path of `one`.
pub open spec fn holds_key(entries: Seq<EntryView>, one: EntryView) -> bool {
    exists|k: int| 0 <= k < entries.len() && #[trigger] same_key(entries[k], one)
}

/// Whether every entry of `part` has its name and path somewhere in `whole`.
pub open spec fn keys_within(part: Seq<EntryView>, whole: Seq<EntryView>) -> bool {
    forall|i: int| 0 <= i < part.len() ==> #[trigger] holds_key(whole, part[i])
}

/// Whether every entry of `part` is an entry of `whole`.
pub open spec fn entries_within(part: Seq<EntryView>, whole: Seq<EntryView>) -> bool {
    forall|i: int| 0 <= i < part.len() ==> whole.contains(#[trigger] part[i])
}

/// Whether `listing` is an aggregate of `found`: it is sorted by name and
/// path and holds none of them twice, each of its entries was found, and
/// every name and path that was found is listed. Sorted means the order of
/// texts, for the paths too.
///
/// Where several entries with one name and path and different build types
/// were found, any one of them may be the one listed.
pub open spec fn is_aggregate_of(listing: Seq<EntryView>, found: Seq<EntryView>) -> bool {
    &&& strictly_sorted_by_key(listing)
    &&& entries_within(listing, found)
    &&& keys_within(found, listing)
}

/// Whether name and path decide the whole entry: no two of `entries` agree
/// in both and differ in the build type.
pub open spec fn key_decides_entry(entries: Seq<EntryView>) -> bool {
    forall|i: int, j: int|
        0 <= i < entries.len() && 0 <= j < entries.len() && #[trigger] same_key(
            entries[i],
            entries[j],
        ) ==> entries[i] == entries[j]
}

/// Whether two entries have one name and one path.
pub fn same_entry(a: &Entry, b: &Entry) -> (same: bool)
    ensures
        same == same_key(a@, b@),
{
    a.pkg.name == b.pkg.name && a.path == b.path
}

/// Sorts copies of the entries with `Itertools::sorted_unstable_by_key`,
/// the key of an entry being its name and then its path, both of them
/// strings and compared as strings are: by their bytes, which for UTF-8 is
/// the order of the code points. What comes out is a rearrangement of what
/// went in; where two entries have one key the sort is free to put either
/// first.
#[verifier::external_body]
fn sort_by_name_and_path(entries: &Vec<Entry>) -> (sorted: Vec<Entry>)
    ensures
        entry_views(sorted@).to_multiset() == entry_views(entries@).to_multiset(),
        sorted_by_key(entry_views(sorted@)),
{
    entries.iter().sorted_unstable_by_key(|e| (&e.pkg.name, &e.path)).cloned().collect()
}

/// Collapses runs of entries with one name and path with
/// `Itertools::dedup_by`, which compares each entry with the one it kept
/// last and keeps the first of every run.
#[verifier::external_body]
fn dedup_by_name_and_path(entries: Vec<Entry>) -> (kept: Vec<Entry>)
    ensures
        entry_views(kept@) == coalesced(entry_views(entries@), same_entry_key()),
{
    entries.into_iter().dedup_by(|a, b| same_entry(a, b)).collect()
}

/// A sorted sequence stays sorted when its last entry is dropped.
proof fn lemma_sorted_prefix(entries: Seq<EntryView>)
    requires
        sorted_by_key(entries),
        entries.len() > 0,
    ensures
        sorted_by_key(entries.drop_last()),
{
    let shorter = entries.drop_last();
    assert forall|i: int, j: int| 0 <= i < j < shorter.len() implies #[trigger] key_le(
        shorter[i],
        shorter[j],
    ) by {
        assert(key_le(entries[i], entries[j]));
    }
}

/// Collapsing a sorted sequence leaves it sorted.
proof fn lemma_coalesced_stays_sorted(entries: Seq<EntryView>)
    requires
        sorted_by_key(entries),
    ensures
        sorted_by_key(coalesced(entries, same_entry_key())),
    decreases entries.len(),
{
    if entries.len() > 0 {
        let shorter = entries.drop_last();
        lemma_sorted_prefix(entries);
        lemma_coalesced_stays_sorted(shorter);
        lemma_coalesced_keeps_only_items(shorter, same_entry_key());
        let kept = coalesced(shorter, same_entry_key());
        let all = coalesced(entries, same_entry_key());
        assert forall|i: int, j: int| 0 <= i < j < all.len() implies #[trigger] key_le(
            all[i],
            all[j],
        ) by {
            if j < kept.len() {
                assert(key_le(kept[i], kept[j]));
            } else {
                assert(all[j] == entries.last());
                assert(all[i] == kept[i]);
                assert(shorter.contains(kept[i]));
                let k = choose|k: int| 0 <= k < shorter.len() && shorter[k] == kept[i];
                assert(entries[k] == kept[i]);
                assert(key_le(entries[k], entries[entries.len() - 1]));
            }
        }
    }
}

/// A sorted sequence in which no two neighbours have one name and path
/// holds no name and path twice.
proof fn lemma_sorted_without_repeats_is_strict(entries: Seq<EntryView>)
    requires
        sorted_by_key(entries),
        forall|i: int|
            0 <= i < entries.len() - 1 ==> !same_key(#[trigger] entries[i], entries[i + 1]),
    ensures
        strictly_sorted_by_key(entries),
{
    assert forall|i: int, j: int| 0 <= i < j < entries.len() implies #[trigger] key_lt(
        entries[i],
        entries[j],
    ) by {
        assert(key_le(entries[i], entries[j]));
        if same_key(entries[i], entries[j]) {
            if i + 1 < j {
                assert(key_le(entries[i + 1], entries[j]));
            } else {
                lemma_text_le_reflexive(entries[i].path);
            }
            assert(key_le(entries[i + 1], entries[i]));
            assert(key_le(entries[i], entries[i + 1]));
            lemma_key_le_antisymmetric(entries[i], entries[i + 1]);
        }
    }
}

/// Every entry has its name and path among what is left after collapsing.
proof fn lemma_coalesced_covers_keys(entries: Seq<EntryView>)
    ensures
        keys_within(entries, coalesced(entries, same_entry_key())),
    decreases entries.len(),
{
    if entries.len() > 0 {
        let shorter = entries.drop_last();
        lemma_coalesced_covers_keys(shorter);
        let kept = coalesced(shorter, same_entry_key());
        let all = coalesced(entries, same_entry_key());
        assert forall|i: int| 0 <= i < entries.len() implies #[trigger] holds_key(all, entries[i]) by {
            if i < shorter.len() {
                assert(shorter[i] == entries[i]);
                assert(holds_key(kept, shorter[i]));
                let k = choose|k: int| 0 <= k < kept.len() && same_key(kept[k], shorter[i]);
                assert(all[k] == kept[k]);
            } else {
                let k = all.len() - 1;
                assert(same_key(all[k], entries[i]));
            }
        }
    }
}

/// The listing of `entries`: sorted by name and then by path, both in the
/// order of texts, and of the
/// entries that have one name and one path a single one.
pub fn aggregate(entries: &Vec<Entry>) -> (listing: Vec<Entry>)
    ensures
        is_aggregate_of(entry_views(listing@), entry_views(entries@)),
{
    let sorted = sort_by_name_and_path(entries);
    let ghost found = entry_views(entries@);
    let ghost ordered = entry_views(sorted@);
    let listing = dedup_by_name_and_path(sorted);
    proof {
        let listed = entry_views(listing@);
        lemma_coalesced_stays_sorted(ordered);
        lemma_coalesced_shape(ordered, same_entry_key());
        lemma_sorted_without_repeats_is_strict(listed);
        lemma_coalesced_keeps_only_items(ordered, same_entry_key());
        lemma_coalesced_covers_keys(ordered);
        broadcast use vstd::seq_lib::to_multiset_contains;

        assert forall|i: int| 0 <= i < listed.len() implies found.contains(
            #[trigger] listed[i],
        ) by {
            assert(ordered.contains(listed[i]));
            assert(ordered.to_multiset().count(listed[i]) > 0);
        }
        assert forall|j: int| 0 <= j < found.len() implies #[trigger] holds_key(listed, found[j]) by {
            assert(found.contains(found[j]));
            assert(found.to_multiset().count(found[j]) > 0);
            assert(ordered.contains(found[j]));
            let i = choose|i: int| 0 <= i < ordered.len() && ordered[i] == found[j];
            assert(holds_key(listed, ordered[i]));
            let k = choose|k: int| 0 <= k < listed.len() && same_key(listed[k], ordered[i]);
            assert(same_key(listed[k], found[j]));
        }
    }
    listing
}

/// Two listings that hold each name and path at most once, in order, and
/// hold the same names and paths, agree in name and path position by
/// position, as far as the first one reaches.
proof fn lemma_same_keys_at(a: Seq<EntryView>, b: Seq<EntryView>, i: int)
    requires
        strictly_sorted_by_key(a),
        strictly_sorted_by_key(b),
        keys_within(a, b),
        keys_within(b, a),
        0 <= i < a.len(),
    ensures
        i < b.len(),
        same_key(a[i], b[i]),
    decreases i,
{
    assert(holds_key(b, a[i]));
    let j = choose|j: int| 0 <= j < b.len() && same_key(b[j], a[i]);
    if j < i {
        lemma_same_keys_at(a, b, j);
        assert(key_lt(a[j], a[i]));
        assert(false);
    }
    assert(holds_key(a, b[i]));
    let k = choose|k: int| 0 <= k < a.len() && same_key(a[k], b[i]);
    if k < i {
        lemma_same_keys_at(a, b, k);
        assert(key_lt(b[k], b[i]));
        assert(false);
    }
    if j > i {
        assert(key_lt(b[i], b[j]));
        if k > i {
            assert(key_lt(a[i], a[k]));
            lemma_key_le_antisymmetric(a[i], b[i]);
        }
        assert(false);
    }
}

/// There is only one listing of given names and paths: two listings that
/// are sorted, hold no name and path twice, hold the same names and paths
/// and agree on the entry wherever they agree on name and path, are equal.
proof fn lemma_listing_unique(a: Seq<EntryView>, b: Seq<EntryView>)
    requires
        strictly_sorted_by_key(a),
        strictly_sorted_by_key(b),
        keys_within(a, b),
        keys_within(b, a),
        forall|i: int, j: int|
            0 <= i < a.len() && 0 <= j < b.len() && #[trigger] same_key(a[i], b[j]) ==> a[i]
                == b[j],
    ensures
        a == b,
{
    if a.len() > 0 {
        lemma_same_keys_at(a, b, a.len() - 1);
    }
    if b.len() > 0 {
        lemma_same_keys_at(b, a, b.len() - 1);
    }
    assert forall|i: int| 0 <= i < a.len() implies a[i] == b[i] by {
        lemma_same_keys_at(a, b, i);
    }
    assert(a =~= b);
}

/// Aggregating is idempotent: the aggregate of an aggregate is that
/// aggregate itself.
pub proof fn lemma_aggregate_idempotent(
    found: Seq<EntryView>,
    listing: Seq<EntryView>,
    again: Seq<EntryView>,
)
    requires
        is_aggregate_of(listing, found),
        is_aggregate_of(again, listing),
    ensures
        again == listing,
{
    assert forall|i: int| 0 <= i < again.len() implies #[trigger] holds_key(listing, again[i]) by {
        assert(listing.contains(again[i]));
        let k = choose|k: int| 0 <= k < listing.len() && listing[k] == again[i];
        assert(same_key(listing[k], again[i]));
    }
    assert forall|i: int, j: int|
        0 <= i < again.len() && 0 <= j < listing.len() && #[trigger] same_key(
            again[i],
            listing[j],
        ) implies again[i] == listing[j] by {
        assert(listing.contains(again[i]));
        let k = choose|k: int| 0 <= k < listing.len() && listing[k] == again[i];
        if k < j {
            assert(key_lt(listing[k], listing[j]));
        } else if j < k {
            assert(key_lt(listing[j], listing[k]));
        }
    }
    lemma_listing_unique(again, listing);
}

/// Aggregating does not depend on the order of what was found: where name
/// and path decide the entry, rearranging the entries before they are
/// aggregated never changes the listing.
pub proof fn lemma_aggregate_order_independent(
    found: Seq<EntryView>,
    rearranged: Seq<EntryView>,
    listing: Seq<EntryView>,
    other: Seq<EntryView>,
)
    requires
        found.to_multiset() == rearranged.to_multiset(),
        key_decides_entry(found),
        is_aggregate_of(listing, found),
        is_aggregate_of(other, rearranged),
    ensures
        listing == other,
{
    assert forall|e: EntryView| #[trigger] found.contains(e) == rearranged.contains(e) by {
        vstd::seq_lib::to_multiset_contains(found, e);
        vstd::seq_lib::to_multiset_contains(rearranged, e);
    }
    assert forall|i: int| 0 <= i < listing.len() implies #[trigger] holds_key(other, listing[i]) by {
        assert(found.contains(listing[i]));
        assert(rearranged.contains(listing[i]));
        let j = choose|j: int| 0 <= j < rearranged.len() && rearranged[j] == listing[i];
        assert(holds_key(other, rearranged[j]));
        let k = choose|k: int| 0 <= k < other.len() && same_key(other[k], rearranged[j]);
        assert(same_key(other[k], listing[i]));
    }
    assert forall|i: int| 0 <= i < other.len() implies #[trigger] holds_key(listing, other[i]) by {
        assert(rearranged.contains(other[i]));
        assert(found.contains(other[i]));
        let j = choose|j: int| 0 <= j < found.len() && found[j] == other[i];
        assert(holds_key(listing, found[j]));
        let k = choose|k: int| 0 <= k < listing.len() && same_key(listing[k], found[j]);
        assert(same_key(listing[k], other[i]));
    }
    assert forall|i: int, j: int|
        0 <= i < listing.len() && 0 <= j < other.len() && #[trigger] same_key(
            listing[i],
            other[j],
        ) implies listing[i] == other[j] by {
        assert(found.contains(listing[i]));
        assert(rearranged.contains(other[j]));
        assert(found.contains(other[j]));
        let p = choose|p: int| 0 <= p < found.len() && found[p] == listing[i];
        let q = choose|q: int| 0 <= q < found.len() && found[q] == other[j];
        assert(same_key(found[p], found[q]));
    }
    lemma_listing_unique(listing, other);
}

/// Only entries with one name and one path are merged: of two entries that
/// were found with one name at different paths, both are listed, each at a
/// place of its own.
pub proof fn lemma_same_name_at_other_path_is_kept(
    found: Seq<EntryView>,
    listing: Seq<EntryView>,
    one: EntryView,
    other: EntryView,
)
    requires
        is_aggregate_of(listing, found),
        found.contains(one),
        found.contains(other),
        one.name == other.name,
        one.path != other.path,
    ensures
        exists|i: int, j: int|
            0 <= i < listing.len() && 0 <= j < listing.len() && i != j && #[trigger] same_key(
                listing[i],
                one,
            ) && #[trigger] same_key(listing[j], other),
{
    let p = choose|p: int| 0 <= p < found.len() && found[p] == one;
    let q = choose|q: int| 0 <= q < found.len() && found[q] == other;
    assert(holds_key(listing, found[p]));
    let i = choose|i: int| 0 <= i < listing.len() && same_key(listing[i], found[p]);
    assert(holds_key(listing, found[q]));
    let j = choose|j: int| 0 <= j < listing.len() && same_key(listing[j], found[q]);
    assert(same_key(listing[i], one) && same_key(listing[j], other));
}

/// Whether two sequences hold the same entries, in whatever order and
/// however often.
pub open spec fn same_members(a: Seq<EntryView>, b: Seq<EntryView>) -> bool {
    forall|e: EntryView| #[trigger] a.contains(e) == b.contains(e)
}

/// The names and paths of a listing, in its order.
pub open spec fn keys_of(listing: Seq<EntryView>) -> Seq<(Seq<char>, Seq<char>)> {
    listing.map_values(|e: EntryView| (e.name, e.path))
}

/// What was found decides the names and paths of the listing and their
/// order, whatever the order in which it was found and however often: two
/// aggregates of the same entries list the same names and paths in the
/// same places. The build types agree too where name and path decide them.
pub proof fn lemma_listing_keys_agree(
    found: Seq<EntryView>,
    other_found: Seq<EntryView>,
    listing: Seq<EntryView>,
    other: Seq<EntryView>,
)
    requires
        same_members(found, other_found),
        is_aggregate_of(listing, found),
        is_aggregate_of(other, other_found),
    ensures
        keys_of(listing) == keys_of(other),
{
    assert forall|i: int| 0 <= i < listing.len() implies #[trigger] holds_key(
        other,
        listing[i],
    ) by {
        assert(found.contains(listing[i]));
        assert(other_found.contains(listing[i]));
        let j = choose|j: int| 0 <= j < other_found.len() && other_found[j] == listing[i];
        assert(holds_key(other, other_found[j]));
    }
    assert forall|i: int| 0 <= i < other.len() implies #[trigger] holds_key(listing, other[i]) by {
        assert(other_found.contains(other[i]));
        assert(found.contains(other[i]));
        let j = choose|j: int| 0 <= j < found.len() && found[j] == other[i];
        assert(holds_key(listing, found[j]));
    }
    if listing.len() > 0 {
        lemma_same_keys_at(listing, other, listing.len() - 1);
    }
    if other.len() > 0 {
        lemma_same_keys_at(other, listing, other.len() - 1);
    }
    assert forall|i: int| 0 <= i < listing.len() implies keys_of(listing)[i] == keys_of(
        other,
    )[i] by {
        lemma_same_keys_at(listing, other, i);
    }
    assert(keys_of(listing) =~= keys_of(other));
}

} // verus!
