//! The depth-first walk below one directory.
//!
//! The walk never reads the disk. It names the directory whose children it
//! wants to hear of, the caller lists that directory and reports what it
//! found out about each child, and the walk classifies the children in
//! order until it meets the next directory that has to be listed.

use crate::package::{entry_views, Entry, EntryView};
use crate::scan::{check_path, classify, DirFacts, FactsView, OutcomeView, SearchOutcome};
use crate::text::optional_text_view;
use vstd::prelude::*;

verus! {

/// The state of a walk between two listings.
#[derive(Clone, Debug)]
pub struct Walk {
    /// Whether directories that hold no package are searched further.
    pub recurse: bool,
    /// Whether the directory that is waited for is the one the walk began
    /// at. Only for that one is a failed listing an error.
    pub at_root: bool,
    /// The directory whose listing is waited for. With none the walk is over.
    pub pending: Option<String>,
    /// The children that were reported and are not classified yet. The last
    /// one is the next.
    pub queue: Vec<DirFacts>,
}

/// The mathematical content of a [`Walk`].
pub struct WalkView {
    pub recurse: bool,
    pub at_root: bool,
    pub pending: Option<Seq<char>>,
    /// What waits to be classified, the next one first.
    pub queue: Seq<FactsView>,
}

/// The views of a sequence of facts, in the same order.
pub open spec fn facts_views(facts: Seq<DirFacts>) -> Seq<FactsView> {
    facts.map_values(|f: DirFacts| f@)
}

/// The view of a listing: of a directory that could not be read there is
/// none.
pub open spec fn listing_view(listing: Option<Vec<DirFacts>>) -> Option<Seq<FactsView>> {
    match listing {
        Some(children) => Some(facts_views(children@)),
        None => None,
    }
}

impl View for Walk {
    type V = WalkView;

    open spec fn view(&self) -> WalkView {
        WalkView {
            recurse: self.recurse,
            at_root: self.at_root,
            pending: optional_text_view(self.pending),
            queue: facts_views(self.queue@).reverse(),
        }
    }
}

/// The directory at which a walk began could not be listed.
#[derive(Clone, Debug)]
pub struct UnreadableRoot {
    pub path: String,
}

/// The view of what a step of the walk returns: nothing, or the path of the
/// root that could not be listed.
pub open spec fn step_result_view(result: Result<(), UnreadableRoot>) -> Result<(), Seq<char>> {
    match result {
        Ok(_) => Ok(()),
        Err(failure) => Err(failure.path@),
    }
}

/// The entry that a path stands for, if it is a package directory.
pub open spec fn found_entries(facts: FactsView) -> Seq<EntryView> {
    match classify(facts) {
        OutcomeView::Found(entry) => seq![entry],
        _ => Seq::empty(),
    }
}

/// Whether the walk has to hear of the children of this path.
pub open spec fn descends(facts: FactsView, recurse: bool) -> bool {
    recurse && classify(facts) is Recurse
}

/// The walk as it begins at `root`. The root is listed if it is a
/// directory, whatever its classification: also a package directory and an
/// ignored one have their children looked at when they are named as roots.
pub open spec fn begun(root: FactsView, recurse: bool) -> WalkView {
    WalkView {
        recurse,
        at_root: true,
        pending: if root.is_dir {
            Some(root.path)
        } else {
            None
        },
        queue: Seq::empty(),
    }
}

/// Classifies the reported children in order, up to the first one that has
/// to be listed. Each package directory adds its entry to `results`.
pub open spec fn proceed(walk: WalkView, results: Seq<EntryView>) -> (WalkView, Seq<EntryView>)
    decreases walk.queue.len(),
{
    if walk.queue.len() == 0 {
        (walk, results)
    } else {
        let next = walk.queue.first();
        let rest = WalkView { queue: walk.queue.drop_first(), ..walk };
        if descends(next, walk.recurse) {
            (WalkView { pending: Some(next.path), ..rest }, results)
        } else {
            proceed(rest, results + found_entries(next))
        }
    }
}

/// The walk after the caller reported the listing of the pending directory.
///
/// The children are taken up in the order of the listing, before whatever
/// was still waiting. A directory below the root that cannot be listed is
/// passed over; if the root itself cannot be listed the walk ends. Without
/// a pending directory the report changes nothing.
pub open spec fn visited(walk: WalkView, listing: Option<Seq<FactsView>>, results: Seq<EntryView>)
    -> (WalkView, Seq<EntryView>) {
    if walk.pending is None {
        (walk, results)
    } else {
        let resumed = WalkView { pending: None, at_root: false, ..walk };
        match listing {
            Some(children) => proceed(
                WalkView { queue: children + walk.queue, ..resumed },
                results,
            ),
            None => if walk.at_root {
                (resumed, results)
            } else {
                proceed(resumed, results)
            },
        }
    }
}

/// What reporting a listing returns: an error exactly when a root was
/// waited for and could not be listed.
pub open spec fn visit_result(walk: WalkView, listing: Option<Seq<FactsView>>) -> Result<
    (),
    Seq<char>,
> {
    if walk.pending is Some && walk.at_root && listing is None {
        Err(walk.pending->0)
    } else {
        Ok(())
    }
}

/// Taking the last one off a stack takes the first one off what waits.
proof fn lemma_facts_views_pop(facts: Seq<DirFacts>)
    requires
        facts.len() > 0,
    ensures
        facts_views(facts.drop_last()).reverse() == facts_views(facts).reverse().drop_first(),
        facts_views(facts).reverse().first() == facts.last()@,
{
    assert(facts_views(facts.drop_last()).reverse() =~= facts_views(
        facts,
    ).reverse().drop_first());
}

/// Putting one on a stack puts it before what waits.
proof fn lemma_facts_views_push(facts: Seq<DirFacts>, one: DirFacts)
    ensures
        facts_views(facts.push(one)).reverse() == seq![one@] + facts_views(facts).reverse(),
{
    assert(facts_views(facts.push(one)).reverse() =~= seq![one@] + facts_views(
        facts,
    ).reverse());
}

/// The views of a sequence with one more entry are the views of the
/// sequence followed by the view of that entry.
proof fn lemma_entry_views_push(entries: Seq<Entry>, one: Entry)
    ensures
        entry_views(entries.push(one)) == entry_views(entries) + seq![one@],
{
    assert(entry_views(entries.push(one)) =~= entry_views(entries) + seq![one@]);
}

/// Begins a walk at `dir`. If `dir` is itself a package directory its entry
/// is added to `results` at once. The walk that is returned waits for the
/// listing of `dir`, or is over already where `dir` is no directory.
pub fn find_wrapper(dir: &DirFacts, results: &mut Vec<Entry>, recurse: bool) -> (walk: Walk)
    ensures
        walk@ == begun(dir@, recurse),
        entry_views(final(results)@) == entry_views(old(results)@) + found_entries(dir@),
{
    if let SearchOutcome::Found(entry) = check_path(dir) {
        proof {
            lemma_entry_views_push(results@, entry);
        }
        results.push(entry);
    }
    let pending = if dir.is_dir {
        Some(dir.path.clone())
    } else {
        None
    };
    let walk = Walk { recurse, at_root: true, pending, queue: Vec::new() };
    assert(walk@.queue =~= Seq::empty());
    walk
}

/// Reports the listing of the directory that the walk waits for: what was
/// found out about each of its children, in the order of the listing, or
/// nothing if the directory could not be read. The walk classifies what it
/// can, adds the packages to `results` and names the next directory.
pub fn find_packages(walk: &mut Walk, listing: Option<Vec<DirFacts>>, results: &mut Vec<Entry>) -> (done:
    Result<(), UnreadableRoot>)
    ensures
        (final(walk)@, entry_views(final(results)@)) == visited(
            old(walk)@,
            listing_view(listing),
            entry_views(old(results)@),
        ),
        step_result_view(done) == visit_result(old(walk)@, listing_view(listing)),
{
    let dir = match walk.pending.take() {
        Some(dir) => dir,
        None => {
            return Ok(());
        },
    };
    let was_root = walk.at_root;
    walk.at_root = false;
    match listing {
        Some(children) => {
            take_up(walk, children);
        },
        None => {
            if was_root {
                return Err(UnreadableRoot { path: dir });
            }
        },
    }
    proceed_walk(walk, results);
    Ok(())
}

/// Puts the children of a listing on top of what is waiting, the first
/// child uppermost.
fn take_up(walk: &mut Walk, children: Vec<DirFacts>)
    ensures
        final(walk)@ == (WalkView {
            queue: facts_views(children@) + old(walk)@.queue,
            ..old(walk)@
        }),
{
    let mut children = children;
    let ghost all = facts_views(children@);
    assert(all.skip(all.len() as int) + walk@.queue =~= walk@.queue);
    while children.len() > 0
        invariant
            facts_views(children@) == all.take(children@.len() as int),
            children@.len() <= all.len(),
            walk@ == (WalkView {
                queue: all.skip(children@.len() as int) + old(walk)@.queue,
                ..old(walk)@
            }),
        decreases children.len(),
    {
        let ghost before = children@;
        let ghost waiting = walk.queue@;
        let child = children.pop().unwrap();
        proof {
            lemma_facts_views_push(waiting, child);
            let n = children@.len() as int;
            assert(facts_views(children@) =~= all.take(n));
            assert(facts_views(before)[n] == child@);
            assert(all.take(n + 1)[n] == all[n]);
            assert(seq![all[n]] + (all.skip(n + 1) + old(walk)@.queue) =~= all.skip(n) + old(
                walk,
            )@.queue);
        }
        walk.queue.push(child);
    }
    proof {
        assert(all.skip(0) =~= all);
    }
}

/// Classifies what is waiting, up to the first directory to be listed.
fn proceed_walk(walk: &mut Walk, results: &mut Vec<Entry>)
    requires
        old(walk).pending is None,
    ensures
        (final(walk)@, entry_views(final(results)@)) == proceed(
            old(walk)@,
            entry_views(old(results)@),
        ),
{
    while walk.queue.len() > 0
        invariant
            walk.pending is None,
            proceed(walk@, entry_views(results@)) == proceed(
                old(walk)@,
                entry_views(old(results)@),
            ),
        decreases walk.queue.len(),
    {
        let ghost waiting = walk.queue@;
        let ghost so_far = results@;
        let next = walk.queue.pop().unwrap();
        proof {
            lemma_facts_views_pop(waiting);
        }
        match check_path(&next) {
            SearchOutcome::Found(entry) => {
                proof {
                    lemma_entry_views_push(so_far, entry);
                }
                results.push(entry);
            },
            SearchOutcome::Recurse => {
                if walk.recurse {
                    walk.pending = Some(next.path);
                    return ;
                }
                assert(entry_views(so_far) + found_entries(next@) =~= entry_views(so_far));
            },
            _ => {
                assert(entry_views(so_far) + found_entries(next@) =~= entry_views(so_far));
            },
        }
    }
}

impl Walk {
    /// The directory whose listing the walk waits for; none when the walk
    /// is over.
    pub fn pending_dir(&self) -> (dir: Option<String>)
        ensures
            optional_text_view(dir) == self@.pending,
    {
        self.pending.clone()
    }
}

} // verus!
