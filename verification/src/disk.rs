//! The disk as the discovery sees it, and what the discovery comes to on
//! one state of it.
//!
//! The library never looks at a disk. Its functions take what a caller
//! found out, one answer at a time. This module says what follows when all
//! the answers come from one state of the disk: that normalizing is
//! idempotent, and that the listing does not depend on the order in which
//! paths were named.

use crate::aggregate::{is_aggregate_of, keys_of, lemma_listing_keys_agree};
use crate::collect::{beginning, current_directory, outcome_of, planned_roots, roots_at, RootView};
use crate::dedup::{lemma_coalesced_idempotent, lemma_coalesced_keeps_only_items};
use crate::normalize::{normalized, resolved_path, resolved_paths, same_text, without_repeats};
use crate::package::EntryView;
use crate::search::{collected, fits_roots, lemma_collection_finds_the_roots, search_all, RootTree};
use crate::tree::{scan_root, DirTree};
use vstd::prelude::*;

verus! {

/// One state of the disk, as far as the discovery asks about it.
pub struct Disk {
    /// The canonical form of each path, for the paths that have one.
    pub canonical_form: spec_fn(Seq<char>) -> Option<Seq<char>>,
    /// What lies at each path and below it.
    pub tree_at: spec_fn(Seq<char>) -> DirTree,
}

impl Disk {
    /// The path that stands for `path` once the disk was asked: its
    /// canonical form, or `path` itself where it has none.
    pub open spec fn resolve(self, path: Seq<char>) -> Seq<char> {
        resolved_path(path, (self.canonical_form)(path))
    }

    /// Whether this is a state that a disk can be in: a canonical form is
    /// canonical, so resolving a path that was resolved gives it back.
    /// Every state of a real disk is such a state, as the canonical form
    /// of a path is absolute and free of links, and so stands for itself.
    /// Without it a path could resolve to a second one and that to a
    /// third, and no normal form would be final.
    pub open spec fn wf(self) -> bool {
        forall|path: Seq<char>|
            {
                let once = resolved_path(path, #[trigger] (self.canonical_form)(path));
                resolved_path(once, (self.canonical_form)(once)) == once
            }
    }

    /// The answers that the disk gives for `paths`.
    pub open spec fn answers_for(self, paths: Seq<Seq<char>>) -> Seq<Option<Seq<char>>> {
        paths.map_values(self.canonical_form)
    }

    /// The normal form of `raw` on this disk.
    pub open spec fn normalized(self, raw: Seq<Seq<char>>) -> Seq<Seq<char>> {
        normalized(raw, self.answers_for(without_repeats(raw)))
    }
}

/// Normalizing is idempotent: on one state of the disk, the normal form of
/// a normal form is that form itself.
pub proof fn lemma_normalize_idempotent(disk: Disk, raw: Seq<Seq<char>>)
    requires
        disk.wf(),
    ensures
        disk.normalized(disk.normalized(raw)) == disk.normalized(raw),
{
    let firsts = without_repeats(raw);
    let resolved = resolved_paths(firsts, disk.answers_for(firsts));
    let normal = without_repeats(resolved);
    assert(normal == disk.normalized(raw));
    lemma_coalesced_idempotent(resolved, same_text());
    assert(without_repeats(normal) == normal);
    let again = resolved_paths(normal, disk.answers_for(normal));
    lemma_coalesced_keeps_only_items(resolved, same_text());
    assert forall|i: int| 0 <= i < normal.len() implies again[i] == normal[i] by {
        assert(resolved.contains(normal[i]));
        let j = choose|j: int| 0 <= j < resolved.len() && resolved[j] == normal[i];
        assert(resolved[j] == resolved_path(firsts[j], (disk.canonical_form)(firsts[j])));
    }
    assert(again =~= normal);
}

impl Disk {
    /// The roots that follow from what was named, with the answers of this
    /// disk.
    pub open spec fn roots_for(self, raw_paths: Seq<Seq<char>>, raw_bases: Seq<Seq<char>>) -> Seq<
        RootView,
    > {
        planned_roots(
            raw_paths,
            self.answers_for(without_repeats(raw_paths)),
            raw_bases,
            self.answers_for(without_repeats(raw_bases)),
            (self.canonical_form)("."@),
        )
    }

    /// The trees that the disk holds at `roots`, each with the depth of
    /// its search.
    pub open spec fn trees_at(self, roots: Seq<RootView>) -> Seq<RootTree> {
        roots.map_values(
            |root: RootView| RootTree { tree: (self.tree_at)(root.path), recurse: root.recurse },
        )
    }

    /// What the discovery finds on this disk for what was named: the
    /// entries in the order of discovery, or the first root that cannot be
    /// read.
    pub open spec fn found(self, raw_paths: Seq<Seq<char>>, raw_bases: Seq<Seq<char>>) -> Result<
        Seq<EntryView>,
        Seq<char>,
    > {
        search_all(self.trees_at(self.roots_for(raw_paths, raw_bases)))
    }
}

/// A collection that is told of this disk from its beginning comes to what
/// the discovery finds on it.
pub proof fn lemma_collection_on_disk(
    disk: Disk,
    raw_paths: Seq<Seq<char>>,
    raw_bases: Seq<Seq<char>>,
)
    ensures
        outcome_of(
            collected(
                beginning(disk.roots_for(raw_paths, raw_bases)),
                None,
                Seq::empty(),
                disk.trees_at(disk.roots_for(raw_paths, raw_bases)),
            ),
        ) == disk.found(raw_paths, raw_bases),
{
    let roots = disk.roots_for(raw_paths, raw_bases);
    assert(fits_roots(roots, disk.trees_at(roots)));
    lemma_collection_finds_the_roots(roots, disk.trees_at(roots));
}

/// Whether two sequences hold the same texts, in whatever order and
/// however often.
pub open spec fn same_texts(a: Seq<Seq<char>>, b: Seq<Seq<char>>) -> bool {
    forall|text: Seq<char>| #[trigger] a.contains(text) == b.contains(text)
}

/// Whether one of `paths` resolves to `form` on `disk`.
pub open spec fn resolves_into(disk: Disk, paths: Seq<Seq<char>>, form: Seq<char>) -> bool {
    exists|i: int| 0 <= i < paths.len() && #[trigger] disk.resolve(paths[i]) == form
}

/// Dropping repeated neighbours drops no text altogether.
proof fn lemma_without_repeats_keeps_every_text(paths: Seq<Seq<char>>)
    ensures
        forall|i: int| 0 <= i < paths.len() ==> without_repeats(paths).contains(#[trigger] paths[i]),
    decreases paths.len(),
{
    if paths.len() > 0 {
        let shorter = paths.drop_last();
        lemma_without_repeats_keeps_every_text(shorter);
        let kept = without_repeats(shorter);
        let all = without_repeats(paths);
        assert forall|i: int| 0 <= i < paths.len() implies all.contains(#[trigger] paths[i]) by {
            if i < shorter.len() {
                assert(shorter[i] == paths[i]);
                assert(kept.contains(shorter[i]));
                let k = choose|k: int| 0 <= k < kept.len() && kept[k] == shorter[i];
                assert(all[k] == paths[i]);
            } else {
                let k = all.len() - 1;
                assert(all[k] == paths[i]);
            }
        }
    }
}

/// The normal form holds exactly the forms that the named paths resolve
/// to.
proof fn lemma_normal_form_members(disk: Disk, raw: Seq<Seq<char>>)
    ensures
        forall|form: Seq<char>| #[trigger]
            disk.normalized(raw).contains(form) == resolves_into(disk, raw, form),
{
    let firsts = without_repeats(raw);
    let resolved = resolved_paths(firsts, disk.answers_for(firsts));
    let normal = without_repeats(resolved);
    lemma_coalesced_keeps_only_items(raw, same_text());
    lemma_coalesced_keeps_only_items(resolved, same_text());
    lemma_without_repeats_keeps_every_text(raw);
    lemma_without_repeats_keeps_every_text(resolved);
    assert forall|form: Seq<char>| #[trigger]
        normal.contains(form) == resolves_into(disk, raw, form) by {
        if normal.contains(form) {
            let k = choose|k: int| 0 <= k < normal.len() && normal[k] == form;
            assert(resolved.contains(normal[k]));
            let j = choose|j: int| 0 <= j < resolved.len() && resolved[j] == form;
            assert(resolved[j] == disk.resolve(firsts[j]));
            assert(raw.contains(firsts[j]));
            let i = choose|i: int| 0 <= i < raw.len() && raw[i] == firsts[j];
            assert(disk.resolve(raw[i]) == form);
        }
        if resolves_into(disk, raw, form) {
            let i = choose|i: int| 0 <= i < raw.len() && disk.resolve(raw[i]) == form;
            assert(firsts.contains(raw[i]));
            let j = choose|j: int| 0 <= j < firsts.len() && firsts[j] == raw[i];
            assert(resolved[j] == disk.resolve(firsts[j]));
            assert(normal.contains(resolved[j]));
        }
    }
}

/// Naming the same paths in another order leaves the same paths in the
/// normal form.
proof fn lemma_normal_form_of_rearranged(disk: Disk, raw: Seq<Seq<char>>, rearranged: Seq<Seq<char>>)
    requires
        same_texts(raw, rearranged),
    ensures
        same_texts(disk.normalized(raw), disk.normalized(rearranged)),
{
    lemma_normal_form_members(disk, raw);
    lemma_normal_form_members(disk, rearranged);
    assert forall|form: Seq<char>| #[trigger]
        disk.normalized(raw).contains(form) == disk.normalized(rearranged).contains(form) by {
        if resolves_into(disk, raw, form) {
            let i = choose|i: int| 0 <= i < raw.len() && disk.resolve(raw[i]) == form;
            assert(raw.contains(raw[i]));
            assert(rearranged.contains(raw[i]));
            let j = choose|j: int| 0 <= j < rearranged.len() && rearranged[j] == raw[i];
            assert(disk.resolve(rearranged[j]) == form);
        }
        if resolves_into(disk, rearranged, form) {
            let i = choose|i: int|
                0 <= i < rearranged.len() && disk.resolve(rearranged[i]) == form;
            assert(rearranged.contains(rearranged[i]));
            assert(raw.contains(rearranged[i]));
            let j = choose|j: int| 0 <= j < raw.len() && raw[j] == rearranged[i];
            assert(disk.resolve(raw[j]) == form);
        }
    }
}

/// Whether two sequences hold the same roots, in whatever order and
/// however often.
pub open spec fn same_roots(a: Seq<RootView>, b: Seq<RootView>) -> bool {
    forall|root: RootView| #[trigger] a.contains(root) == b.contains(root)
}

/// The roots at `paths` are those with one of these paths and this depth.
proof fn lemma_roots_at_members(paths: Seq<Seq<char>>, recurse: bool)
    ensures
        forall|root: RootView| #[trigger]
            roots_at(paths, recurse).contains(root) == (root.recurse == recurse
                && paths.contains(root.path)),
{
    let roots = roots_at(paths, recurse);
    assert forall|root: RootView| #[trigger]
        roots.contains(root) == (root.recurse == recurse && paths.contains(root.path)) by {
        if roots.contains(root) {
            let i = choose|i: int| 0 <= i < roots.len() && roots[i] == root;
            assert(paths[i] == root.path);
        }
        if root.recurse == recurse && paths.contains(root.path) {
            let i = choose|i: int| 0 <= i < paths.len() && paths[i] == root.path;
            assert(roots[i] == root);
        }
    }
}

/// What is in two sequences, one behind the other, is in one of them.
proof fn lemma_concat_members(front: Seq<RootView>, back: Seq<RootView>)
    ensures
        forall|root: RootView| #[trigger]
            (front + back).contains(root) == (front.contains(root) || back.contains(root)),
{
    let both = front + back;
    assert forall|root: RootView| #[trigger]
        both.contains(root) == (front.contains(root) || back.contains(root)) by {
        if both.contains(root) {
            let i = choose|i: int| 0 <= i < both.len() && both[i] == root;
            if i < front.len() {
                assert(front[i] == root);
            } else {
                assert(back[i - front.len()] == root);
            }
        }
        if front.contains(root) {
            let i = choose|i: int| 0 <= i < front.len() && front[i] == root;
            assert(both[i] == root);
        }
        if back.contains(root) {
            let i = choose|i: int| 0 <= i < back.len() && back[i] == root;
            assert(both[front.len() + i] == root);
        }
    }
}

/// Two sequences that hold the same texts are both empty or both not.
proof fn lemma_same_texts_both_empty(a: Seq<Seq<char>>, b: Seq<Seq<char>>)
    requires
        same_texts(a, b),
    ensures
        a.len() == 0 <==> b.len() == 0,
{
    if a.len() > 0 {
        assert(a.contains(a[0]));
        assert(b.contains(a[0]));
    }
    if b.len() > 0 {
        assert(b.contains(b[0]));
        assert(a.contains(b[0]));
    }
}

/// Naming the same paths in another order, or more often, gives the same
/// roots.
pub proof fn lemma_roots_of_rearranged(
    disk: Disk,
    raw_paths: Seq<Seq<char>>,
    raw_bases: Seq<Seq<char>>,
    rearranged_paths: Seq<Seq<char>>,
    rearranged_bases: Seq<Seq<char>>,
)
    requires
        same_texts(raw_paths, rearranged_paths),
        same_texts(raw_bases, rearranged_bases),
    ensures
        same_roots(
            disk.roots_for(raw_paths, raw_bases),
            disk.roots_for(rearranged_paths, rearranged_bases),
        ),
{
    let paths = disk.normalized(raw_paths);
    let bases = disk.normalized(raw_bases);
    let other_paths = disk.normalized(rearranged_paths);
    let other_bases = disk.normalized(rearranged_bases);
    lemma_normal_form_of_rearranged(disk, raw_paths, rearranged_paths);
    lemma_normal_form_of_rearranged(disk, raw_bases, rearranged_bases);
    lemma_same_texts_both_empty(paths, other_paths);
    lemma_same_texts_both_empty(raw_bases, rearranged_bases);
    lemma_roots_at_members(paths, false);
    lemma_roots_at_members(other_paths, false);
    lemma_roots_at_members(bases, true);
    lemma_roots_at_members(other_bases, true);
    let here = seq![current_directory((disk.canonical_form)("."@))];
    let tail = if paths.len() == 0 && raw_bases.len() == 0 {
        here
    } else {
        roots_at(bases, true)
    };
    let other_tail = if other_paths.len() == 0 && rearranged_bases.len() == 0 {
        here
    } else {
        roots_at(other_bases, true)
    };
    lemma_concat_members(roots_at(paths, false), tail);
    lemma_concat_members(roots_at(other_paths, false), other_tail);
    assert forall|root: RootView| #[trigger]
        disk.roots_for(raw_paths, raw_bases).contains(root) == disk.roots_for(
            rearranged_paths,
            rearranged_bases,
        ).contains(root) by {
        assert(paths.contains(root.path) == other_paths.contains(root.path));
        assert(bases.contains(root.path) == other_bases.contains(root.path));
        assert(tail.contains(root) == other_tail.contains(root));
    }
}

/// What the search of the root at place `i` comes to.
pub open spec fn root_result(trees: Seq<RootTree>, i: int) -> Result<Seq<EntryView>, Seq<char>> {
    scan_root(trees[i].tree, trees[i].recurse)
}

/// Whether the search of one of the roots finds `entry`.
pub open spec fn found_at_a_root(trees: Seq<RootTree>, entry: EntryView) -> bool {
    exists|i: int|
        0 <= i < trees.len() && (#[trigger] root_result(trees, i)) is Ok && root_result(
            trees,
            i,
        )->Ok_0.contains(entry)
}

/// Where the search of all roots does not fail, the search of no root
/// fails, and what is found is what is found at one root or another.
pub proof fn lemma_search_all_members(trees: Seq<RootTree>)
    requires
        search_all(trees) is Ok,
    ensures
        forall|i: int| 0 <= i < trees.len() ==> (#[trigger] root_result(trees, i)) is Ok,
        forall|entry: EntryView| #[trigger]
            search_all(trees)->Ok_0.contains(entry) == found_at_a_root(trees, entry),
    decreases trees.len(),
{
    let all = search_all(trees)->Ok_0;
    if trees.len() == 0 {
        assert forall|entry: EntryView| #[trigger]
            all.contains(entry) == found_at_a_root(trees, entry) by {}
    } else {
        let others = trees.drop_first();
        lemma_search_all_members(others);
        let here = root_result(trees, 0)->Ok_0;
        let there = search_all(others)->Ok_0;
        assert(all == here + there);
        assert forall|i: int| 0 <= i < trees.len() implies (#[trigger] root_result(
            trees,
            i,
        )) is Ok by {
            if i > 0 {
                assert(root_result(others, i - 1) == root_result(trees, i));
            }
        }
        assert forall|entry: EntryView| #[trigger]
            all.contains(entry) == found_at_a_root(trees, entry) by {
            if all.contains(entry) {
                let k = choose|k: int| 0 <= k < all.len() && all[k] == entry;
                if k < here.len() {
                    assert(here[k] == entry);
                    assert(root_result(trees, 0)->Ok_0.contains(entry));
                } else {
                    assert(there[k - here.len()] == entry);
                    assert(there.contains(entry));
                    assert(found_at_a_root(others, entry));
                    let i = choose|i: int|
                        0 <= i < others.len() && (#[trigger] root_result(others, i)) is Ok
                            && root_result(others, i)->Ok_0.contains(entry);
                    assert(root_result(trees, i + 1) == root_result(others, i));
                }
            }
            if found_at_a_root(trees, entry) {
                let i = choose|i: int|
                    0 <= i < trees.len() && (#[trigger] root_result(trees, i)) is Ok
                        && root_result(trees, i)->Ok_0.contains(entry);
                if i == 0 {
                    let k = choose|k: int| 0 <= k < here.len() && here[k] == entry;
                    assert(all[k] == entry);
                } else {
                    assert(root_result(others, i - 1) == root_result(trees, i));
                    assert(found_at_a_root(others, entry));
                    assert(there.contains(entry));
                    let k = choose|k: int| 0 <= k < there.len() && there[k] == entry;
                    assert(all[here.len() + k] == entry);
                }
            }
        }
    }
}

/// Every entry that the search of the roots in `trees` finds is found by
/// the search of the roots in `others`, if each of the first roots is
/// among the second.
proof fn lemma_found_among_the_same_roots(
    disk: Disk,
    roots: Seq<RootView>,
    others: Seq<RootView>,
    entry: EntryView,
)
    requires
        same_roots(roots, others),
        search_all(disk.trees_at(roots)) is Ok,
        search_all(disk.trees_at(others)) is Ok,
        search_all(disk.trees_at(roots))->Ok_0.contains(entry),
    ensures
        search_all(disk.trees_at(others))->Ok_0.contains(entry),
{
    let trees = disk.trees_at(roots);
    let other_trees = disk.trees_at(others);
    lemma_search_all_members(trees);
    lemma_search_all_members(other_trees);
    assert(found_at_a_root(trees, entry));
    let i = choose|i: int|
        0 <= i < trees.len() && (#[trigger] root_result(trees, i)) is Ok && root_result(
            trees,
            i,
        )->Ok_0.contains(entry);
    assert(roots.contains(roots[i]));
    assert(others.contains(roots[i]));
    let j = choose|j: int| 0 <= j < others.len() && others[j] == roots[i];
    assert(other_trees[j] == trees[i]);
    assert(root_result(other_trees, j) == root_result(trees, i));
    assert(found_at_a_root(other_trees, entry));
}

/// A rearrangement of paths names the same paths.
pub proof fn lemma_rearranged_names_the_same(a: Seq<Seq<char>>, b: Seq<Seq<char>>)
    requires
        a.to_multiset() == b.to_multiset(),
    ensures
        same_texts(a, b),
{
    assert forall|text: Seq<char>| #[trigger] a.contains(text) == b.contains(text) by {
        vstd::seq_lib::to_multiset_contains(a, text);
        vstd::seq_lib::to_multiset_contains(b, text);
    }
}

/// The listing does not depend on the order in which paths were named: on
/// one state of the disk, naming the package paths and the base paths in
/// another order leaves the names and paths of the aggregated listing as
/// they were, place by place.
pub proof fn lemma_listing_does_not_depend_on_naming_order(
    disk: Disk,
    raw_paths: Seq<Seq<char>>,
    raw_bases: Seq<Seq<char>>,
    rearranged_paths: Seq<Seq<char>>,
    rearranged_bases: Seq<Seq<char>>,
    listing: Seq<EntryView>,
    other: Seq<EntryView>,
)
    requires
        raw_paths.to_multiset() == rearranged_paths.to_multiset(),
        raw_bases.to_multiset() == rearranged_bases.to_multiset(),
        disk.found(raw_paths, raw_bases) is Ok,
        disk.found(rearranged_paths, rearranged_bases) is Ok,
        is_aggregate_of(listing, disk.found(raw_paths, raw_bases)->Ok_0),
        is_aggregate_of(other, disk.found(rearranged_paths, rearranged_bases)->Ok_0),
    ensures
        keys_of(listing) == keys_of(other),
{
    lemma_rearranged_names_the_same(raw_paths, rearranged_paths);
    lemma_rearranged_names_the_same(raw_bases, rearranged_bases);
    lemma_roots_of_rearranged(disk, raw_paths, raw_bases, rearranged_paths, rearranged_bases);
    let roots = disk.roots_for(raw_paths, raw_bases);
    let other_roots = disk.roots_for(rearranged_paths, rearranged_bases);
    let found = disk.found(raw_paths, raw_bases)->Ok_0;
    let other_found = disk.found(rearranged_paths, rearranged_bases)->Ok_0;
    assert forall|entry: EntryView| #[trigger]
        found.contains(entry) == other_found.contains(entry) by {
        if found.contains(entry) {
            lemma_found_among_the_same_roots(disk, roots, other_roots, entry);
        }
        if other_found.contains(entry) {
            lemma_found_among_the_same_roots(disk, other_roots, roots, entry);
        }
    }
    lemma_listing_keys_agree(found, other_found, listing, other);
}

} // verus!
