//! What a collection comes to, said of the roots as the disk holds them.
//!
//! A collection is defined reply by reply. This module says what the
//! replies add up to: told of the trees at its roots, the collection ends
//! with the packages of every root, root after root, or fails at the first
//! root that cannot be read.

use crate::collect::{
    awaited, beginning, inspected, listed, outcome_of, request_of, CollectorView, RootView,
};
use crate::package::EntryView;
use crate::tree::{
    children_of, facts_of, first_stop, fits, lemma_forest_size_concat, lemma_next_stop_shrinks,
    lemma_visit_follows_the_trees, next_stop, reported, scan_below_pending, scan_forest,
    scan_root, work_left, DirTree,
};
use crate::walk::found_entries;
use vstd::prelude::*;

verus! {

/// A root as the disk holds it, and how it is to be searched.
pub struct RootTree {
    pub tree: DirTree,
    pub recurse: bool,
}

/// The packages that a search of all roots finds, root after root. The
/// search fails at the first root that cannot be read.
pub open spec fn search_all(roots: Seq<RootTree>) -> Result<Seq<EntryView>, Seq<char>>
    decreases roots.len(),
{
    if roots.len() == 0 {
        Ok(Seq::empty())
    } else {
        match scan_root(roots.first().tree, roots.first().recurse) {
            Err(path) => Err(path),
            Ok(found) => match search_all(roots.drop_first()) {
                Err(path) => Err(path),
                Ok(others) => Ok(found + others),
            },
        }
    }
}

/// Whether the walk in progress searches to any depth.
pub open spec fn walk_recurses(collector: CollectorView) -> bool {
    match collector.walk {
        Some(walk) => walk.recurse,
        None => false,
    }
}

/// The collector when it asks for nothing more, if every look at the disk
/// that it asks for is answered as the trees hold it. `pending` is the
/// tree whose top the walk in progress waits for, `waiting` are the trees
/// whose tops that walk has been told of and has not classified, and
/// `roots` are the trees of the roots that have not been begun.
pub open spec fn collected(
    collector: CollectorView,
    pending: Option<DirTree>,
    waiting: Seq<DirTree>,
    roots: Seq<RootTree>,
) -> CollectorView
    decreases roots.len(), work_left(pending, waiting),
    via collected_decreases
{
    if collector.failure is Some {
        collector
    } else {
        match pending {
            Some(tree) => {
                let (pending_after, waiting_after) = next_stop(
                    children_of(tree) + waiting,
                    walk_recurses(collector),
                );
                collected(
                    listed(collector, reported(tree)),
                    pending_after,
                    waiting_after,
                    roots,
                )
            },
            None => if roots.len() == 0 {
                collector
            } else {
                collected(
                    inspected(collector, roots.first().tree.facts),
                    first_stop(roots.first().tree),
                    Seq::empty(),
                    roots.drop_first(),
                )
            },
        }
    }
}

#[via_fn]
proof fn collected_decreases(
    collector: CollectorView,
    pending: Option<DirTree>,
    waiting: Seq<DirTree>,
    roots: Seq<RootTree>,
) {
    if let Some(tree) = pending {
        lemma_forest_size_concat(children_of(tree), waiting);
        lemma_next_stop_shrinks(children_of(tree) + waiting, walk_recurses(collector));
    }
}

/// Whether the state of a collector fits the trees: it has not failed, the
/// roots it has not begun are as many as `roots` and are searched as
/// deeply, and its walk waits for the top of `pending` and has been told
/// of the tops of `waiting`.
pub open spec fn collector_fits(
    collector: CollectorView,
    pending: Option<DirTree>,
    waiting: Seq<DirTree>,
    roots: Seq<RootTree>,
) -> bool {
    &&& collector.failure is None
    &&& collector.waiting.len() == roots.len()
    &&& forall|i: int|
        0 <= i < roots.len() ==> (#[trigger] collector.waiting[i]).recurse == roots[i].recurse
    &&& match pending {
        Some(tree) => collector.walk is Some && fits(collector.walk->0, pending, waiting),
        None => awaited(collector.walk) is None && waiting.len() == 0,
    }
}

/// What is still to come of a collection that fits the trees: the failure
/// of the root that is waited for and cannot be read, or else what was
/// found, what the walk in progress will find, and what the search of the
/// other roots comes to.
pub open spec fn expected(
    collector: CollectorView,
    pending: Option<DirTree>,
    waiting: Seq<DirTree>,
    roots: Seq<RootTree>,
) -> Result<Seq<EntryView>, Seq<char>> {
    if pending is Some && collector.walk->0.at_root && pending->0.listing is None {
        Err(pending->0.facts.path)
    } else {
        match search_all(roots) {
            Err(path) => Err(path),
            Ok(others) => Ok(
                collector.results + scan_below_pending(pending, walk_recurses(collector))
                    + scan_forest(waiting, walk_recurses(collector)) + others,
            ),
        }
    }
}

/// A collection that is told of trees comes to what is expected of it.
pub proof fn lemma_collection_follows_the_trees(
    collector: CollectorView,
    pending: Option<DirTree>,
    waiting: Seq<DirTree>,
    roots: Seq<RootTree>,
)
    requires
        collector_fits(collector, pending, waiting, roots),
    ensures
        outcome_of(collected(collector, pending, waiting, roots)) == expected(
            collector,
            pending,
            waiting,
            roots,
        ),
    decreases roots.len(), work_left(pending, waiting),
{
    let empty = Seq::<EntryView>::empty();
    match pending {
        Some(tree) => {
            let walk = collector.walk->0;
            let recurse = walk.recurse;
            let after = listed(collector, reported(tree));
            let (pending_after, waiting_after) = next_stop(children_of(tree) + waiting, recurse);
            assert(request_of(collector) is List);
            if walk.at_root && tree.listing is None {
                assert(after.failure == Some(tree.facts.path));
            } else {
                lemma_visit_follows_the_trees(walk, collector.results, tree, waiting);
                assert(collector_fits(after, pending_after, waiting_after, roots));
                lemma_collection_follows_the_trees(after, pending_after, waiting_after, roots);
                match search_all(roots) {
                    Err(_) => {},
                    Ok(others) => {
                        assert(after.results + scan_below_pending(pending_after, recurse)
                            + scan_forest(waiting_after, recurse) + others
                            == collector.results + scan_below_pending(pending, recurse)
                            + scan_forest(waiting, recurse) + others);
                    },
                }
            }
        },
        None => {
            if roots.len() == 0 {
                assert(collector.results + empty + scan_forest(waiting, walk_recurses(collector))
                    + empty =~= collector.results);
            } else {
                let root = roots.first();
                let others = roots.drop_first();
                let after = inspected(collector, root.tree.facts);
                assert(collector.waiting[0].recurse == root.recurse);
                assert(after.walk->0.queue =~= facts_of(Seq::<DirTree>::empty()));
                assert forall|i: int| 0 <= i < others.len() implies (
                #[trigger] after.waiting[i]).recurse == others[i].recurse by {
                    assert(collector.waiting[i + 1].recurse == roots[i + 1].recurse);
                }
                assert(collector_fits(after, first_stop(root.tree), Seq::empty(), others));
                lemma_collection_follows_the_trees(
                    after,
                    first_stop(root.tree),
                    Seq::empty(),
                    others,
                );
                let found_here = found_entries(root.tree.facts);
                assert(scan_forest(Seq::<DirTree>::empty(), root.recurse) =~= empty);
                assert(scan_forest(waiting, walk_recurses(collector)) =~= empty);
                match scan_root(root.tree, root.recurse) {
                    Err(_) => {},
                    Ok(found) => match search_all(others) {
                        Err(_) => {},
                        Ok(rest) => {
                            assert(collector.results + found_here + scan_below_pending(
                                first_stop(root.tree),
                                root.recurse,
                            ) + empty + rest =~= collector.results + empty + empty + (found
                                + rest));
                        },
                    },
                }
            }
        },
    }
}

/// The roots of a collection, each as a tree with the depth of its search.
pub open spec fn fits_roots(waiting: Seq<RootView>, roots: Seq<RootTree>) -> bool {
    &&& waiting.len() == roots.len()
    &&& forall|i: int| 0 <= i < roots.len() ==> (#[trigger] waiting[i]).recurse == roots[i].recurse
}

/// A collection finds what a search of its roots finds: told of the trees
/// at its roots from its beginning, it ends with the packages of every
/// root in the order of the roots, each root's packages in depth-first
/// order, or with the first root that cannot be read.
pub proof fn lemma_collection_finds_the_roots(waiting: Seq<RootView>, roots: Seq<RootTree>)
    requires
        fits_roots(waiting, roots),
    ensures
        outcome_of(
            collected(beginning(waiting), None, Seq::empty(), roots),
        ) == search_all(roots),
{
    let collector = beginning(waiting);
    lemma_collection_follows_the_trees(collector, None, Seq::empty(), roots);
    let empty = Seq::<EntryView>::empty();
    assert(scan_forest(Seq::<DirTree>::empty(), false) =~= empty);
    match search_all(roots) {
        Err(_) => {},
        Ok(others) => {
            assert(empty + empty + empty + others =~= others);
        },
    }
}

} // verus!
