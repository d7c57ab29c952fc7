//! What a walk comes to, said of the directory tree as a whole.
//!
//! A walk is defined step by step, from one listing to the next. This
//! module says what the steps add up to: told of a tree, the walk finds the
//! packages of that tree, each once and in depth-first order.

use crate::package::EntryView;
use crate::scan::{classify, FactsView};
use crate::walk::{
    begun, descends, found_entries, proceed, visit_result, visited, WalkView,
};
use vstd::prelude::*;

verus! {

/// A directory tree as the disk holds it: what is to be found out about a
/// path and, for a directory that can be read, the trees of its children
/// in the order in which it lists them.
pub struct DirTree {
    pub facts: FactsView,
    pub listing: Option<Seq<DirTree>>,
}

/// The facts at the top of each tree, in the same order.
pub open spec fn facts_of(trees: Seq<DirTree>) -> Seq<FactsView> {
    trees.map_values(|tree: DirTree| tree.facts)
}

/// What a caller reports when it is asked to list the top of `tree`.
pub open spec fn reported(tree: DirTree) -> Option<Seq<FactsView>> {
    match tree.listing {
        Some(children) => Some(facts_of(children)),
        None => None,
    }
}

/// The trees of the children, none where the directory cannot be read.
pub open spec fn children_of(tree: DirTree) -> Seq<DirTree> {
    match tree.listing {
        Some(children) => children,
        None => Seq::empty(),
    }
}

/// The packages in a tree that is met as a child: the tree's top if it is a
/// package directory, what lies below it if it is searched further, and
/// nothing if it is ignored, no directory, or not readable.
pub open spec fn scan_tree(tree: DirTree, recurse: bool) -> Seq<EntryView>
    decreases tree,
{
    if descends(tree.facts, recurse) {
        match tree.listing {
            Some(children) => scan_forest(children, recurse),
            None => Seq::empty(),
        }
    } else {
        found_entries(tree.facts)
    }
}

/// The packages in a row of trees, tree after tree.
pub open spec fn scan_forest(trees: Seq<DirTree>, recurse: bool) -> Seq<EntryView>
    decreases trees,
{
    if trees.len() == 0 {
        Seq::empty()
    } else {
        scan_tree(trees.first(), recurse) + scan_forest(trees.drop_first(), recurse)
    }
}

/// The packages below the top of a tree, whatever the top itself is.
pub open spec fn scan_below(tree: DirTree, recurse: bool) -> Seq<EntryView> {
    scan_forest(children_of(tree), recurse)
}

/// The packages that a search from the root `root` finds: the root itself
/// if it is a package directory, and then what lies below it. The search
/// fails when the root is a directory that cannot be read.
pub open spec fn scan_root(root: DirTree, recurse: bool) -> Result<Seq<EntryView>, Seq<char>> {
    if root.facts.is_dir && root.listing is None {
        Err(root.facts.path)
    } else if root.facts.is_dir {
        Ok(found_entries(root.facts) + scan_below(root, recurse))
    } else {
        Ok(found_entries(root.facts))
    }
}

/// The number of paths in a tree.
pub open spec fn tree_size(tree: DirTree) -> nat
    decreases tree,
{
    1 + match tree.listing {
        Some(children) => forest_size(children),
        None => 0,
    }
}

/// The number of paths in a row of trees.
pub open spec fn forest_size(trees: Seq<DirTree>) -> nat
    decreases trees,
{
    if trees.len() == 0 {
        0
    } else {
        tree_size(trees.first()) + forest_size(trees.drop_first())
    }
}

/// The path at the top of a tree, if there is a tree.
pub open spec fn top_path(tree: Option<DirTree>) -> Option<Seq<char>> {
    match tree {
        Some(tree) => Some(tree.facts.path),
        None => None,
    }
}

/// The packages below the top of a tree, none where there is no tree.
pub open spec fn scan_below_pending(tree: Option<DirTree>, recurse: bool) -> Seq<EntryView> {
    match tree {
        Some(tree) => scan_below(tree, recurse),
        None => Seq::empty(),
    }
}

/// Of the trees that wait, the first one that is searched further, and the
/// trees that wait behind it. The tops before it are classified and done.
pub open spec fn next_stop(waiting: Seq<DirTree>, recurse: bool) -> (Option<DirTree>, Seq<DirTree>)
    decreases waiting.len(),
{
    if waiting.len() == 0 {
        (None, waiting)
    } else if descends(waiting.first().facts, recurse) {
        (Some(waiting.first()), waiting.drop_first())
    } else {
        next_stop(waiting.drop_first(), recurse)
    }
}

/// The paths that a walk has not dealt with: those in the tree whose top
/// it waits for, and those in the trees that wait.
pub open spec fn work_left(pending: Option<DirTree>, waiting: Seq<DirTree>) -> nat {
    forest_size(waiting) + match pending {
        Some(tree) => tree_size(tree),
        None => 0,
    }
}

/// What a walk has found when it is over, if every listing that it asks
/// for is reported as the tree holds it. `pending` is the tree whose top
/// the walk waits for and `waiting` are the trees whose tops it has been
/// told of and has not classified.
pub open spec fn driven(
    walk: WalkView,
    results: Seq<EntryView>,
    pending: Option<DirTree>,
    waiting: Seq<DirTree>,
) -> Seq<EntryView>
    decreases work_left(pending, waiting),
    via driven_decreases
{
    match pending {
        None => results,
        Some(tree) => {
            let (walk_after, results_after) = visited(walk, reported(tree), results);
            let (pending_after, waiting_after) = next_stop(
                children_of(tree) + waiting,
                walk.recurse,
            );
            driven(walk_after, results_after, pending_after, waiting_after)
        },
    }
}

#[via_fn]
proof fn driven_decreases(
    walk: WalkView,
    results: Seq<EntryView>,
    pending: Option<DirTree>,
    waiting: Seq<DirTree>,
) {
    if let Some(tree) = pending {
        lemma_forest_size_concat(children_of(tree), waiting);
        lemma_next_stop_shrinks(children_of(tree) + waiting, walk.recurse);
    }
}

/// The size of two rows of trees, one behind the other, is the sum of
/// their sizes.
pub proof fn lemma_forest_size_concat(front: Seq<DirTree>, back: Seq<DirTree>)
    ensures
        forest_size(front + back) == forest_size(front) + forest_size(back),
    decreases front.len(),
{
    if front.len() == 0 {
        assert(front + back =~= back);
    } else {
        assert((front + back).drop_first() =~= front.drop_first() + back);
        lemma_forest_size_concat(front.drop_first(), back);
    }
}

/// Going on to the next stop leaves no more work than there was, and
/// where there is no next stop no tree is left waiting.
pub proof fn lemma_next_stop_shrinks(waiting: Seq<DirTree>, recurse: bool)
    ensures
        work_left(next_stop(waiting, recurse).0, next_stop(waiting, recurse).1) <= forest_size(
            waiting,
        ),
        next_stop(waiting, recurse).0 is None ==> next_stop(waiting, recurse).1.len() == 0,
    decreases waiting.len(),
{
    if waiting.len() > 0 && !descends(waiting.first().facts, recurse) {
        lemma_next_stop_shrinks(waiting.drop_first(), recurse);
    }
}

/// The packages of two rows of trees, one behind the other, are those of
/// the first row followed by those of the second.
pub proof fn lemma_scan_forest_concat(front: Seq<DirTree>, back: Seq<DirTree>, recurse: bool)
    ensures
        scan_forest(front + back, recurse) == scan_forest(front, recurse) + scan_forest(
            back,
            recurse,
        ),
    decreases front.len(),
{
    if front.len() == 0 {
        assert(front + back =~= back);
        assert(scan_forest(front, recurse) + scan_forest(back, recurse) =~= scan_forest(
            back,
            recurse,
        ));
    } else {
        assert((front + back).drop_first() =~= front.drop_first() + back);
        lemma_scan_forest_concat(front.drop_first(), back, recurse);
        assert(scan_tree(front.first(), recurse) + (scan_forest(front.drop_first(), recurse)
            + scan_forest(back, recurse)) =~= (scan_tree(front.first(), recurse) + scan_forest(
            front.drop_first(),
            recurse,
        )) + scan_forest(back, recurse));
    }
}

/// Whether the state of a walk fits the trees: the walk waits for the top
/// of `pending` and has been told of the tops of `waiting`.
pub open spec fn fits(walk: WalkView, pending: Option<DirTree>, waiting: Seq<DirTree>) -> bool {
    walk.pending == top_path(pending) && walk.queue == facts_of(waiting)
}

/// Classifying what waits stops at the tree that `next_stop` names, and
/// what was found by then, what lies below that tree and what the trees
/// behind it hold are together what was found before and what all the
/// waiting trees hold.
pub proof fn lemma_proceed_follows_the_trees(
    walk: WalkView,
    results: Seq<EntryView>,
    waiting: Seq<DirTree>,
)
    requires
        fits(walk, None, waiting),
    ensures
        ({
            let (walk_after, results_after) = proceed(walk, results);
            let (pending_after, waiting_after) = next_stop(waiting, walk.recurse);
            &&& fits(walk_after, pending_after, waiting_after)
            &&& walk_after.recurse == walk.recurse
            &&& walk_after.at_root == walk.at_root
            &&& results_after + scan_below_pending(pending_after, walk.recurse) + scan_forest(
                waiting_after,
                walk.recurse,
            ) == results + scan_forest(waiting, walk.recurse)
        }),
    decreases waiting.len(),
{
    let recurse = walk.recurse;
    if waiting.len() == 0 {
        assert(results + Seq::<EntryView>::empty() + Seq::<EntryView>::empty() =~= results
            + Seq::<EntryView>::empty());
    } else {
        let first = waiting.first();
        let rest = waiting.drop_first();
        assert(facts_of(waiting).drop_first() =~= facts_of(rest));
        assert(walk.queue.first() == first.facts);
        if descends(first.facts, recurse) {
            assert(scan_tree(first, recurse) == scan_below(first, recurse));
            assert(results + scan_below(first, recurse) + scan_forest(rest, recurse) =~= results
                + (scan_tree(first, recurse) + scan_forest(rest, recurse)));
        } else {
            let shorter = WalkView { queue: walk.queue.drop_first(), ..walk };
            let found = results + found_entries(first.facts);
            lemma_proceed_follows_the_trees(shorter, found, rest);
            let (pending_after, waiting_after) = next_stop(rest, recurse);
            assert(found + scan_forest(rest, recurse) =~= results + (scan_tree(first, recurse)
                + scan_forest(rest, recurse)));
        }
    }
}

/// One step of a walk that is told of trees: after the listing of the tree
/// it waited for, the walk waits for the tree that `next_stop` names, and
/// nothing is lost: what was found by then, what lies below that tree and
/// what the trees behind it hold are together what was found before, what
/// lies below the tree that was listed and what the trees behind it held.
/// Less work is left than before. A root that cannot be read is left out
/// here: there the walk fails.
pub proof fn lemma_visit_follows_the_trees(
    walk: WalkView,
    results: Seq<EntryView>,
    tree: DirTree,
    waiting: Seq<DirTree>,
)
    requires
        fits(walk, Some(tree), waiting),
        walk.at_root ==> tree.listing is Some,
    ensures
        ({
            let (walk_after, results_after) = visited(walk, reported(tree), results);
            let (pending_after, waiting_after) = next_stop(
                children_of(tree) + waiting,
                walk.recurse,
            );
            &&& fits(walk_after, pending_after, waiting_after)
            &&& walk_after.recurse == walk.recurse
            &&& !walk_after.at_root
            &&& pending_after is None ==> waiting_after.len() == 0
            &&& work_left(pending_after, waiting_after) < work_left(Some(tree), waiting)
            &&& results_after + scan_below_pending(pending_after, walk.recurse) + scan_forest(
                waiting_after,
                walk.recurse,
            ) == results + scan_below(tree, walk.recurse) + scan_forest(waiting, walk.recurse)
        }),
{
    let recurse = walk.recurse;
    let children = children_of(tree);
    let resumed = WalkView { pending: None, at_root: false, ..walk };
    let told = WalkView { queue: facts_of(children) + walk.queue, ..resumed };
    assert(facts_of(children + waiting) =~= facts_of(children) + facts_of(waiting));
    if tree.listing is None {
        assert(facts_of(children) + walk.queue =~= walk.queue);
        assert(told == resumed);
    }
    assert(visited(walk, reported(tree), results) == proceed(told, results));
    lemma_proceed_follows_the_trees(told, results, children + waiting);
    lemma_forest_size_concat(children, waiting);
    lemma_next_stop_shrinks(children + waiting, recurse);
    lemma_scan_forest_concat(children, waiting, recurse);
    assert(results + scan_forest(children + waiting, recurse) =~= results + scan_below(
        tree,
        recurse,
    ) + scan_forest(waiting, recurse));
}

/// A walk that is told of trees finds what the trees hold: when it is
/// over it has found, behind what was found before, the packages below the
/// tree it waited for and then those of the trees that waited, in this
/// order. A walk that waits for nothing has nothing waiting. A root that
/// cannot be read is left out here: there the walk fails.
pub proof fn lemma_walk_follows_the_trees(
    walk: WalkView,
    results: Seq<EntryView>,
    pending: Option<DirTree>,
    waiting: Seq<DirTree>,
)
    requires
        fits(walk, pending, waiting),
        pending is None ==> waiting.len() == 0,
        pending is Some && walk.at_root ==> pending->0.listing is Some,
    ensures
        driven(walk, results, pending, waiting) == results + scan_below_pending(
            pending,
            walk.recurse,
        ) + scan_forest(waiting, walk.recurse),
    decreases work_left(pending, waiting),
{
    let recurse = walk.recurse;
    match pending {
        None => {
            assert(results + Seq::<EntryView>::empty() + scan_forest(waiting, recurse)
                =~= results);
        },
        Some(tree) => {
            lemma_visit_follows_the_trees(walk, results, tree, waiting);
            let (walk_after, results_after) = visited(walk, reported(tree), results);
            let (pending_after, waiting_after) = next_stop(
                children_of(tree) + waiting,
                recurse,
            );
            lemma_walk_follows_the_trees(walk_after, results_after, pending_after, waiting_after);
        },
    }
}

/// The tree that a walk from `root` waits for at its beginning: the root
/// itself if it is a directory.
pub open spec fn first_stop(root: DirTree) -> Option<DirTree> {
    if root.facts.is_dir {
        Some(root)
    } else {
        None
    }
}

/// A walk from a root finds what a search of the root's tree finds: where
/// that search does not fail, the walk that begins at the root and is told
/// of the tree ends with the packages of the search behind what was found
/// before, in the same order.
pub proof fn lemma_walk_finds_the_tree(root: DirTree, recurse: bool, before: Seq<EntryView>)
    requires
        scan_root(root, recurse) is Ok,
    ensures
        driven(
            begun(root.facts, recurse),
            before + found_entries(root.facts),
            first_stop(root),
            Seq::empty(),
        ) == before + scan_root(root, recurse)->Ok_0,
{
    let walk = begun(root.facts, recurse);
    let found = before + found_entries(root.facts);
    assert(walk.queue =~= facts_of(Seq::<DirTree>::empty()));
    lemma_walk_follows_the_trees(walk, found, first_stop(root), Seq::empty());
    assert(scan_forest(Seq::<DirTree>::empty(), recurse) =~= Seq::<EntryView>::empty());
    if root.facts.is_dir {
        assert(found + scan_below(root, recurse) + Seq::<EntryView>::empty() =~= before + (
        found_entries(root.facts) + scan_below(root, recurse)));
    } else {
        assert(found + Seq::<EntryView>::empty() + Seq::<EntryView>::empty() =~= found);
    }
}

/// Where the search of a tree fails, the walk fails at its first step,
/// naming the same root.
pub proof fn lemma_walk_fails_where_the_search_fails(root: DirTree, recurse: bool)
    requires
        scan_root(root, recurse) is Err,
    ensures
        first_stop(root) == Some(root),
        visit_result(begun(root.facts, recurse), reported(root)) == Err::<(), Seq<char>>(
            scan_root(root, recurse)->Err_0,
        ),
{
}

/// A package directory is a leaf: met as a child it gives its own entry
/// and nothing of what lies below it, manifests included.
pub proof fn lemma_package_directory_is_a_leaf(tree: DirTree, recurse: bool)
    requires
        classify(tree.facts) is Found,
    ensures
        scan_tree(tree, recurse) == seq![classify(tree.facts)->Found_0],
{
}

/// Nothing is found in or below an ignored directory that is met as a
/// child, whatever manifests it holds.
pub proof fn lemma_ignored_directory_hides_its_subtree(tree: DirTree, recurse: bool)
    requires
        classify(tree.facts) is Ignored,
    ensures
        scan_tree(tree, recurse) == Seq::<EntryView>::empty(),
{
}

/// A search that does not recurse looks at the children of the root and no
/// deeper: each child gives its own entry or nothing.
pub proof fn lemma_flat_search_stays_at_one_level(tree: DirTree)
    ensures
        scan_tree(tree, false) == found_entries(tree.facts),
{
}

} // verus!
