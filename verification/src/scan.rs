//! Classifying one directory from what was found out about it.

use crate::ignore::{classify_directory_exclusion, has_ignore_marker, is_excluded, is_hidden};
use crate::manifest::{declared_build_type, ManifestProbe, ProbeView};
use crate::package::{default_build_type_text, Entry, EntryView, Package};
use crate::text::{optional_text_view, text_views};
use vstd::prelude::*;

verus! {

/// What the caller found out about one path. The library asks for nothing
/// else to classify it.
#[derive(Clone, Debug)]
pub struct DirFacts {
    /// The path itself, as it is to appear in the results.
    pub path: String,
    /// Whether the path is a directory. A symbolic link is none, wherever
    /// it points: links are not followed.
    pub is_dir: bool,
    /// The last component of the path, if it has one.
    pub base_name: Option<String>,
    /// The names of the ignore markers that exist as files in the directory.
    pub markers: Vec<String>,
    /// What became of the directory's manifest.
    pub manifest: ManifestProbe,
}

/// The mathematical content of [`DirFacts`].
pub struct FactsView {
    pub path: Seq<char>,
    pub is_dir: bool,
    pub base_name: Option<Seq<char>>,
    pub markers: Seq<Seq<char>>,
    pub manifest: ProbeView,
}

impl View for DirFacts {
    type V = FactsView;

    open spec fn view(&self) -> FactsView {
        FactsView {
            path: self.path@,
            is_dir: self.is_dir,
            base_name: optional_text_view(self.base_name),
            markers: text_views(self.markers@),
            manifest: self.manifest@,
        }
    }
}

/// What a path is to the discovery.
#[derive(Clone, Debug)]
pub enum SearchOutcome {
    /// A package directory: it is reported and not searched further.
    Found(Entry),
    /// A directory that is left out, with all that lies below it.
    Ignored,
    /// Not a directory.
    IsFile,
    /// A directory that holds no package itself and may hold some below.
    Recurse,
}

/// The mathematical content of a [`SearchOutcome`].
pub enum OutcomeView {
    Found(EntryView),
    Ignored,
    IsFile,
    Recurse,
}

impl View for SearchOutcome {
    type V = OutcomeView;

    open spec fn view(&self) -> OutcomeView {
        match self {
            SearchOutcome::Found(entry) => OutcomeView::Found(entry@),
            SearchOutcome::Ignored => OutcomeView::Ignored,
            SearchOutcome::IsFile => OutcomeView::IsFile,
            SearchOutcome::Recurse => OutcomeView::Recurse,
        }
    }
}

/// The classification of a path. The rules apply in this order: what is no
/// directory is a file; a hidden directory or one with an ignore marker is
/// ignored, whatever its manifest says; a directory whose manifest was read
/// is a package; any other directory is searched further. A manifest that
/// was rejected counts as none.
pub open spec fn classify(facts: FactsView) -> OutcomeView {
    if !facts.is_dir {
        OutcomeView::IsFile
    } else if is_excluded(facts.base_name, facts.markers) {
        OutcomeView::Ignored
    } else {
        match facts.manifest {
            ProbeView::Parsed(manifest) => OutcomeView::Found(
                EntryView {
                    name: manifest.name,
                    build_type: declared_build_type(manifest),
                    path: facts.path,
                },
            ),
            _ => OutcomeView::Recurse,
        }
    }
}

/// The reason for which a directory's manifest was passed over, where the
/// directory is searched further because its manifest was rejected.
pub open spec fn passed_over(facts: FactsView) -> Option<Seq<char>> {
    match facts.manifest {
        ProbeView::Rejected(reason) => if classify(facts) is Recurse {
            Some(reason)
        } else {
            None
        },
        _ => None,
    }
}

/// Classifies one path from what was found out about it.
pub fn check_path(dir: &DirFacts) -> (outcome: SearchOutcome)
    ensures
        outcome@ == classify(dir@),
{
    if !dir.is_dir {
        return SearchOutcome::IsFile;
    }
    if classify_directory_exclusion(&dir.base_name, &dir.markers) {
        return SearchOutcome::Ignored;
    }
    match &dir.manifest {
        ManifestProbe::Parsed(fields) => SearchOutcome::Found(
            Entry { pkg: Package::from_manifest(fields), path: dir.path.clone() },
        ),
        _ => SearchOutcome::Recurse,
    }
}

/// Tells why a directory's manifest was passed over, if that is why the
/// directory counts as holding no package. The classification itself never
/// reports this: a manifest that cannot be read is no error.
pub fn rejected_manifest(dir: &DirFacts) -> (reason: Option<String>)
    ensures
        optional_text_view(reason) == passed_over(dir@),
{
    if !dir.is_dir || classify_directory_exclusion(&dir.base_name, &dir.markers) {
        return None;
    }
    match &dir.manifest {
        ManifestProbe::Rejected(reason) => Some(reason.clone()),
        _ => None,
    }
}

/// A hidden directory is ignored, whatever else is known of it.
pub proof fn lemma_hidden_directory_is_ignored(facts: FactsView)
    requires
        facts.is_dir,
        is_hidden(facts.base_name),
    ensures
        classify(facts) == OutcomeView::Ignored,
{
}

/// A directory that holds an ignore marker is ignored, whatever else is
/// known of it.
pub proof fn lemma_marked_directory_is_ignored(facts: FactsView)
    requires
        facts.is_dir,
        has_ignore_marker(facts.markers),
    ensures
        classify(facts) == OutcomeView::Ignored,
{
}

/// A directory that is not left out and whose manifest gives only a name is
/// a package of that name with the default build type.
pub proof fn lemma_bare_manifest_gets_default_build_type(facts: FactsView)
    requires
        facts.is_dir,
        !is_excluded(facts.base_name, facts.markers),
        facts.manifest is Parsed,
        facts.manifest->Parsed_0.export is None,
    ensures
        classify(facts) == OutcomeView::Found(
            EntryView {
                name: facts.manifest->Parsed_0.name,
                build_type: default_build_type_text(),
                path: facts.path,
            },
        ),
{
}

/// A directory that is not left out and whose manifest gives a name and a
/// build type is a package of that name and of exactly that build type.
pub proof fn lemma_explicit_build_type_is_kept(facts: FactsView, build_type: Seq<char>)
    requires
        facts.is_dir,
        !is_excluded(facts.base_name, facts.markers),
        facts.manifest is Parsed,
        facts.manifest->Parsed_0.export is Some,
        facts.manifest->Parsed_0.export->0.build_type == Some(build_type),
    ensures
        classify(facts) == OutcomeView::Found(
            EntryView { name: facts.manifest->Parsed_0.name, build_type, path: facts.path },
        ),
{
}

} // verus!
