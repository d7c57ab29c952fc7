//! Bringing the paths that a user named into one form.
//!
//! Repeated neighbours are dropped, each path that is left is replaced by
//! its canonical form where the disk gave one, and repeated neighbours are
//! dropped once more. Finding the canonical form is the caller's work: it
//! happens between the two passes, on the paths that the first pass left.
//!
//! A path is a text here. Two neighbours are a repeat only if they are
//! spelled alike: `x` and `x/` pass the first pass as two paths and become
//! one in the second, once both have their canonical form.

use crate::dedup::coalesced;
use crate::text::{lemma_text_views_push, optional_text_views, text_views};
use itertools::Itertools;
use vstd::prelude::*;

verus! {

/// The paths that a user named, and what the disk said of them.
#[derive(Clone, Debug)]
pub struct NamedPaths {
    /// The paths as they were named, in that order.
    pub raw: Vec<String>,
    /// For each path that [`unique_neighbours`] leaves of `raw`, and in
    /// that order, its canonical form, or nothing where the disk gave none.
    /// A path without an answer is taken as it was named.
    pub canonical: Vec<Option<String>>,
}

/// Two texts count as the same when they are equal, character for
/// character.
pub open spec fn same_text() -> spec_fn(Seq<char>, Seq<char>) -> bool {
    |a: Seq<char>, b: Seq<char>| a == b
}

/// `paths` without repeated neighbours.
pub open spec fn without_repeats(paths: Seq<Seq<char>>) -> Seq<Seq<char>> {
    coalesced(paths, same_text())
}

/// The path that stands for `path` after the disk was asked: its canonical
/// form, or `path` itself where there was none to be had.
pub open spec fn resolved_path(path: Seq<char>, canonical: Option<Seq<char>>) -> Seq<char> {
    match canonical {
        Some(form) => form,
        None => path,
    }
}

/// Each of `paths` resolved with the answer at the same position. A path
/// without an answer stands for itself; answers beyond the paths are not
/// looked at.
pub open spec fn resolved_paths(paths: Seq<Seq<char>>, canonical: Seq<Option<Seq<char>>>) -> Seq<
    Seq<char>,
> {
    Seq::new(
        paths.len(),
        |i: int|
            if i < canonical.len() {
                resolved_path(paths[i], canonical[i])
            } else {
                paths[i]
            },
    )
}

/// The normal form of `raw`, where `canonical` holds the answers for the
/// paths that are left of `raw` when repeated neighbours are dropped.
pub open spec fn normalized(raw: Seq<Seq<char>>, canonical: Seq<Option<Seq<char>>>) -> Seq<
    Seq<char>,
> {
    without_repeats(resolved_paths(without_repeats(raw), canonical))
}

/// Drops repeated neighbours with `Itertools::dedup`, which compares each
/// item with the one it kept last and keeps the first of every run. The
/// strings that come out are copies of those that stay.
#[verifier::external_body]
fn dedup_texts(texts: &Vec<String>) -> (kept: Vec<String>)
    ensures
        text_views(kept@) == coalesced(text_views(texts@), same_text()),
{
    texts.iter().dedup().cloned().collect()
}

/// The first pass: `raw` without repeated neighbours. These are the paths
/// whose canonical forms the caller is to find out.
pub fn unique_neighbours(raw: &Vec<String>) -> (paths: Vec<String>)
    ensures
        text_views(paths@) == without_repeats(text_views(raw@)),
{
    dedup_texts(raw)
}

/// The normal form of the paths that were named: without repeated
/// neighbours, each in its canonical form where it has one, and without
/// the repeated neighbours that this brought about.
pub fn preprocess_paths(raw: &NamedPaths) -> (paths: Vec<String>)
    ensures
        text_views(paths@) == normalized(
            text_views(raw.raw@),
            optional_text_views(raw.canonical@),
        ),
{
    let firsts = dedup_texts(&raw.raw);
    let canonical = &raw.canonical;
    let mut resolved: Vec<String> = Vec::new();
    let ghost wanted = resolved_paths(text_views(firsts@), optional_text_views(canonical@));
    let mut i: usize = 0;
    while i < firsts.len()
        invariant
            i <= firsts.len(),
            wanted == resolved_paths(text_views(firsts@), optional_text_views(canonical@)),
            text_views(resolved@) == wanted.take(i as int),
        decreases firsts.len() - i,
    {
        let path = if i < canonical.len() {
            match &canonical[i] {
                Some(form) => form.clone(),
                None => firsts[i].clone(),
            }
        } else {
            firsts[i].clone()
        };
        proof {
            lemma_text_views_push(resolved@, path);
            assert(path@ == wanted[i as int]);
            assert(wanted.take(i as int).push(wanted[i as int]) =~= wanted.take(i as int + 1));
        }
        resolved.push(path);
        i += 1;
    }
    assert(wanted.take(i as int) =~= wanted);
    dedup_texts(&resolved)
}

} // verus!
