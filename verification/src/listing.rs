//! The lines of the listing: one per entry, showing the name, the path, or
//! name, path and build type.

use crate::package::{entry_views, Entry, EntryView};
use crate::text::{lemma_text_views_push, text_views};
use vstd::prelude::*;
use vstd::string::*;

verus! {

/// What of an entry its line shows. `names_only` wins where both are set.
#[derive(Clone, Copy, Debug)]
pub struct ListOptions {
    pub names_only: bool,
    pub paths_only: bool,
}

/// The full line of an entry: name, path and, in brackets, build type,
/// with a tab between them.
pub open spec fn full_line(entry: EntryView) -> Seq<char> {
    entry.name + "\t"@ + entry.path + "\t("@ + entry.build_type + ")"@
}

/// The line of an entry under the given options.
pub open spec fn line_for(entry: EntryView, options: ListOptions) -> Seq<char> {
    if options.names_only {
        entry.name
    } else if options.paths_only {
        entry.path
    } else {
        full_line(entry)
    }
}

/// The lines of a listing, one per entry and in the same order.
pub open spec fn lines_for(entries: Seq<EntryView>, options: ListOptions) -> Seq<Seq<char>> {
    entries.map_values(|entry: EntryView| line_for(entry, options))
}

impl Entry {
    /// The full line of this entry.
    pub fn line(&self) -> (line: String)
        ensures
            line@ == full_line(self@),
    {
        let mut line = self.pkg.name.clone();
        line.append("\t");
        line.append(self.path.as_str());
        line.append("\t(");
        line.append(self.pkg.export.build_type.as_str());
        line.append(")");
        line
    }

    /// The line of this entry under the given options.
    pub fn line_from_opts(&self, options: &ListOptions) -> (line: String)
        ensures
            line@ == line_for(self@, *options),
    {
        if options.names_only {
            self.pkg.name.clone()
        } else if options.paths_only {
            self.path.clone()
        } else {
            self.line()
        }
    }
}

/// The lines of `entries` under the given options, in the same order.
pub fn list_lines(entries: &Vec<Entry>, options: &ListOptions) -> (lines: Vec<String>)
    ensures
        text_views(lines@) == lines_for(entry_views(entries@), *options),
{
    let ghost wanted = lines_for(entry_views(entries@), *options);
    let mut lines: Vec<String> = Vec::new();
    let mut i: usize = 0;
    assert(text_views(lines@) =~= wanted.take(0));
    while i < entries.len()
        invariant
            i <= entries.len(),
            wanted == lines_for(entry_views(entries@), *options),
            text_views(lines@) == wanted.take(i as int),
        decreases entries.len() - i,
    {
        let line = entries[i].line_from_opts(options);
        proof {
            lemma_text_views_push(lines@, line);
            assert(wanted.take(i as int).push(wanted[i as int]) =~= wanted.take(i as int + 1));
        }
        lines.push(line);
        i += 1;
    }
    assert(wanted.take(i as int) =~= wanted);
    lines
}

} // verus!
