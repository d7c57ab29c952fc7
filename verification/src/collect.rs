//! Collecting the packages below everything that a user named.
//!
//! Paths that were named as packages are looked at themselves and one level
//! down; base paths are searched to any depth. Where nothing at all was
//! named, the working directory is searched to any depth, under its
//! canonical path. The collector
//! takes the roots one after another and asks the caller for each look at
//! the disk that the walk below the current root needs.

use crate::normalize::{normalized, preprocess_paths, resolved_path, NamedPaths};
use crate::package::{entry_views, Entry, EntryView};
use crate::scan::{DirFacts, FactsView};
use crate::text::{optional_text_view, optional_text_views, text_views};
use crate::walk::{
    begun, find_packages, find_wrapper, found_entries, listing_view, visit_result, visited,
    UnreadableRoot, Walk, WalkView,
};
use vstd::prelude::*;
use vstd::string::*;

verus! {

/// A directory at which a walk is to begin.
#[derive(Clone, Debug)]
pub struct ScanRoot {
    pub path: String,
    /// Whether the walk goes on below directories that hold no package.
    pub recurse: bool,
}

/// The mathematical content of a [`ScanRoot`].
pub struct RootView {
    pub path: Seq<char>,
    pub recurse: bool,
}

impl View for ScanRoot {
    type V = RootView;

    open spec fn view(&self) -> RootView {
        RootView { path: self.path@, recurse: self.recurse }
    }
}

/// The views of a sequence of roots, in the same order.
pub open spec fn root_views(roots: Seq<ScanRoot>) -> Seq<RootView> {
    roots.map_values(|r: ScanRoot| r@)
}

/// One root for each of `paths`, in the same order.
pub open spec fn roots_at(paths: Seq<Seq<char>>, recurse: bool) -> Seq<RootView> {
    paths.map_values(|path: Seq<char>| RootView { path, recurse })
}

/// The root that is searched where nothing was named: the working
/// directory, searched to any depth. Its path is the canonical form of
/// `.`, so that what is found below it has absolute paths as what is found
/// below a named path has; where the disk gave no canonical form the path
/// is `.` itself.
pub open spec fn current_directory(working_dir: Option<Seq<char>>) -> RootView {
    RootView { path: resolved_path("."@, working_dir), recurse: true }
}

/// The roots that follow from what was named: first the normal form of the
/// package paths, each searched one level deep; then the normal form of the
/// base paths, each searched to any depth, or the working directory where
/// neither a package path nor a base path was named.
pub open spec fn planned_roots(
    raw_paths: Seq<Seq<char>>,
    canonical_paths: Seq<Option<Seq<char>>>,
    raw_bases: Seq<Seq<char>>,
    canonical_bases: Seq<Option<Seq<char>>>,
    working_dir: Option<Seq<char>>,
) -> Seq<RootView> {
    let paths = normalized(raw_paths, canonical_paths);
    roots_at(paths, false) + if paths.len() == 0 && raw_bases.len() == 0 {
        seq![current_directory(working_dir)]
    } else {
        roots_at(normalized(raw_bases, canonical_bases), true)
    }
}

/// Where nothing was named, the one root is the working directory under
/// its canonical path, searched to any depth.
pub proof fn lemma_nothing_named_searches_the_working_directory(
    canonical_paths: Seq<Option<Seq<char>>>,
    canonical_bases: Seq<Option<Seq<char>>>,
    working_dir: Seq<char>,
)
    ensures
        planned_roots(
            Seq::empty(),
            canonical_paths,
            Seq::empty(),
            canonical_bases,
            Some(working_dir),
        ) == seq![RootView { path: working_dir, recurse: true }],
{
    let paths = normalized(Seq::empty(), canonical_paths);
    assert(paths =~= Seq::<Seq<char>>::empty());
    assert(roots_at(paths, false) + seq![current_directory(Some(working_dir))] =~= seq![
        RootView { path: working_dir, recurse: true },
    ]);
}

/// The state of a collection between two looks at the disk.
#[derive(Clone, Debug)]
pub struct Collector {
    /// The roots, in the order in which they are searched.
    pub roots: Vec<ScanRoot>,
    /// How many of the roots have been begun.
    pub started: usize,
    /// The walk below the root that was begun last.
    pub walk: Option<Walk>,
    /// What was found so far, in the order of discovery.
    pub results: Vec<Entry>,
    /// The root that could not be listed, once there is one.
    pub failure: Option<UnreadableRoot>,
}

/// The mathematical content of a [`Collector`].
pub struct CollectorView {
    /// The roots that have not been begun.
    pub waiting: Seq<RootView>,
    pub walk: Option<WalkView>,
    pub results: Seq<EntryView>,
    pub failure: Option<Seq<char>>,
}

impl View for Collector {
    type V = CollectorView;

    open spec fn view(&self) -> CollectorView {
        CollectorView {
            waiting: if self.started <= self.roots@.len() {
                root_views(self.roots@).skip(self.started as int)
            } else {
                Seq::empty()
            },
            walk: match self.walk {
                Some(walk) => Some(walk@),
                None => None,
            },
            results: entry_views(self.results@),
            failure: match self.failure {
                Some(failure) => Some(failure.path@),
                None => None,
            },
        }
    }
}

/// What the caller is asked to look at next.
#[derive(Clone, Debug)]
pub enum ScanRequest {
    /// Find out the facts about this path.
    Inspect(String),
    /// List this directory and find out the facts about each child.
    List(String),
    /// Nothing: the collection is over.
    Done,
}

/// The mathematical content of a [`ScanRequest`].
pub enum ScanRequestView {
    Inspect(Seq<char>),
    List(Seq<char>),
    Done,
}

impl View for ScanRequest {
    type V = ScanRequestView;

    open spec fn view(&self) -> ScanRequestView {
        match self {
            ScanRequest::Inspect(path) => ScanRequestView::Inspect(path@),
            ScanRequest::List(path) => ScanRequestView::List(path@),
            ScanRequest::Done => ScanRequestView::Done,
        }
    }
}

/// The directory that the current walk waits for, if there is one.
pub open spec fn awaited(walk: Option<WalkView>) -> Option<Seq<char>> {
    match walk {
        Some(walk) => walk.pending,
        None => None,
    }
}

/// What a collector asks for. After a failure it asks for nothing more;
/// while a walk waits for a listing it asks for that; otherwise it asks
/// for the facts about the next root, until none is left.
pub open spec fn request_of(collector: CollectorView) -> ScanRequestView {
    if collector.failure is Some {
        ScanRequestView::Done
    } else if awaited(collector.walk) is Some {
        ScanRequestView::List(awaited(collector.walk)->0)
    } else if collector.waiting.len() > 0 {
        ScanRequestView::Inspect(collector.waiting[0].path)
    } else {
        ScanRequestView::Done
    }
}

/// The collector as it begins: every root waits, nothing was found.
pub open spec fn beginning(roots: Seq<RootView>) -> CollectorView {
    CollectorView { waiting: roots, walk: None, results: Seq::empty(), failure: None }
}

/// The collector after the caller reported the facts about the next root.
/// Where no root was asked about, the report changes nothing.
pub open spec fn inspected(collector: CollectorView, facts: FactsView) -> CollectorView {
    if request_of(collector) is Inspect {
        CollectorView {
            waiting: collector.waiting.drop_first(),
            walk: Some(begun(facts, collector.waiting[0].recurse)),
            results: collector.results + found_entries(facts),
            failure: None,
        }
    } else {
        collector
    }
}

/// The collector after the caller reported a listing. A root that cannot
/// be listed is the failure of the whole collection. Where no listing was
/// asked for, the report changes nothing.
pub open spec fn listed(collector: CollectorView, listing: Option<Seq<FactsView>>)
    -> CollectorView {
    if request_of(collector) is List {
        let walk = collector.walk->0;
        let (walk_after, results) = visited(walk, listing, collector.results);
        CollectorView {
            waiting: collector.waiting,
            walk: Some(walk_after),
            results,
            failure: match visit_result(walk, listing) {
                Ok(_) => None,
                Err(path) => Some(path),
            },
        }
    } else {
        collector
    }
}

/// What a collection comes to: the entries in the order of discovery, or
/// the root that could not be listed.
pub open spec fn outcome_of(collector: CollectorView) -> Result<Seq<EntryView>, Seq<char>> {
    match collector.failure {
        Some(path) => Err(path),
        None => Ok(collector.results),
    }
}

/// The view of what a collection returns.
pub open spec fn outcome_view(outcome: Result<Vec<Entry>, UnreadableRoot>) -> Result<
    Seq<EntryView>,
    Seq<char>,
> {
    match outcome {
        Ok(entries) => Ok(entry_views(entries@)),
        Err(failure) => Err(failure.path@),
    }
}

/// Adds one root for each of `paths`.
fn add_roots(roots: &mut Vec<ScanRoot>, paths: &Vec<String>, recurse: bool)
    ensures
        root_views(final(roots)@) == root_views(old(roots)@) + roots_at(
            text_views(paths@),
            recurse,
        ),
{
    let ghost wanted = roots_at(text_views(paths@), recurse);
    let mut i: usize = 0;
    assert(root_views(roots@) =~= root_views(old(roots)@) + wanted.take(0));
    while i < paths.len()
        invariant
            i <= paths.len(),
            wanted == roots_at(text_views(paths@), recurse),
            root_views(roots@) == root_views(old(roots)@) + wanted.take(i as int),
        decreases paths.len() - i,
    {
        let root = ScanRoot { path: paths[i].clone(), recurse };
        assert(root_views(roots@.push(root)) =~= root_views(old(roots)@) + wanted.take(
            i as int + 1,
        )) by {
            assert(root_views(roots@.push(root)) =~= root_views(roots@).push(root@));
            assert(wanted.take(i as int + 1) =~= wanted.take(i as int).push(wanted[i as int]));
        }
        roots.push(root);
        i += 1;
    }
    assert(wanted.take(i as int) =~= wanted);
}

/// Begins the collection for the package paths `raw_paths` and the base
/// paths `base_paths`. `working_dir` is the canonical form of `.`, or
/// nothing where the disk gave none: it is the root where no path at all
/// was named. Nothing else has been looked at yet.
pub fn collect_packages_from_args(
    raw_paths: &NamedPaths,
    base_paths: &NamedPaths,
    working_dir: &Option<String>,
) -> (collector: Collector)
    ensures
        collector@ == beginning(
            planned_roots(
                text_views(raw_paths.raw@),
                optional_text_views(raw_paths.canonical@),
                text_views(base_paths.raw@),
                optional_text_views(base_paths.canonical@),
                optional_text_view(*working_dir),
            ),
        ),
{
    let mut roots: Vec<ScanRoot> = Vec::new();
    assert(root_views(roots@) =~= Seq::empty());
    let unique_paths = preprocess_paths(raw_paths);
    add_roots(&mut roots, &unique_paths, false);
    if unique_paths.len() == 0 && base_paths.raw.len() == 0 {
        let path = match working_dir {
            Some(form) => form.clone(),
            None => String::from_str("."),
        };
        let here = ScanRoot { path, recurse: true };
        assert(root_views(roots@.push(here)) =~= root_views(roots@) + seq![
            current_directory(optional_text_view(*working_dir)),
        ]);
        roots.push(here);
    } else {
        let unique_bases = preprocess_paths(base_paths);
        add_roots(&mut roots, &unique_bases, true);
    }
    let collector = Collector {
        roots,
        started: 0,
        walk: None,
        results: Vec::new(),
        failure: None,
    };
    assert(collector@.waiting =~= root_views(roots@));
    assert(collector@.results =~= Seq::empty());
    collector
}

impl Collector {
    /// What the caller is to look at next.
    pub fn request(&self) -> (request: ScanRequest)
        ensures
            request@ == request_of(self@),
    {
        if self.failure.is_some() {
            return ScanRequest::Done;
        }
        if let Some(walk) = &self.walk {
            if let Some(dir) = &walk.pending {
                return ScanRequest::List(dir.clone());
            }
        }
        if self.started < self.roots.len() {
            ScanRequest::Inspect(self.roots[self.started].path.clone())
        } else {
            ScanRequest::Done
        }
    }

    /// Whether the current walk waits for a listing.
    fn awaits_listing(&self) -> (waits: bool)
        ensures
            waits == (awaited(self@.walk) is Some),
    {
        match &self.walk {
            Some(walk) => walk.pending.is_some(),
            None => false,
        }
    }

    /// Whether the collection asks for nothing more.
    pub fn is_done(&self) -> (done: bool)
        ensures
            done == (request_of(self@) is Done),
    {
        match self.request() {
            ScanRequest::Done => true,
            _ => false,
        }
    }

    /// Reports the facts about the root that the collector asked about.
    pub fn inspected(&mut self, facts: &DirFacts)
        ensures
            final(self)@ == inspected(old(self)@, facts@),
    {
        if self.failure.is_none() && !self.awaits_listing() && self.started < self.roots.len() {
            let recurse = self.roots[self.started].recurse;
            let walk = find_wrapper(facts, &mut self.results, recurse);
            assert(root_views(self.roots@).skip(self.started as int + 1) =~= root_views(
                self.roots@,
            ).skip(self.started as int).drop_first());
            self.walk = Some(walk);
            self.started = self.started + 1;
        }
    }

    /// Reports the listing that the collector asked for: the facts about
    /// each child in the order of the listing, or nothing if the directory
    /// could not be read.
    pub fn listed(&mut self, listing: Option<Vec<DirFacts>>)
        ensures
            final(self)@ == listed(old(self)@, listing_view(listing)),
    {
        if self.failure.is_none() && self.awaits_listing() {
            let mut walk = self.walk.take().unwrap();
            match find_packages(&mut walk, listing, &mut self.results) {
                Ok(_) => {},
                Err(failure) => {
                    self.failure = Some(failure);
                },
            }
            self.walk = Some(walk);
        }
    }

    /// Ends the collection and hands out what it came to.
    pub fn finish(self) -> (outcome: Result<Vec<Entry>, UnreadableRoot>)
        ensures
            outcome_view(outcome) == outcome_of(self@),
    {
        match self.failure {
            Some(failure) => Err(failure),
            None => Ok(self.results),
        }
    }
}

} // verus!
