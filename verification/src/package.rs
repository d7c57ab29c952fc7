//! Package descriptors, the defaults of their optional fields, and the
//! discovered entries that pair a descriptor with its directory.

use vstd::prelude::*;
use vstd::string::*;

verus! {

/// The build-type section of a package descriptor.
#[derive(Clone, Debug)]
pub struct Export {
    pub build_type: String,
}

/// What a manifest declares of its package, with every default applied.
#[derive(Clone, Debug)]
pub struct Package {
    pub name: String,
    pub export: Export,
}

/// A discovered package together with the directory that holds its manifest.
#[derive(Clone, Debug)]
pub struct Entry {
    pub pkg: Package,
    /// The directory, as the text under which the caller reported it.
    pub path: String,
}

/// The mathematical content of an [`Entry`].
pub struct EntryView {
    pub name: Seq<char>,
    pub build_type: Seq<char>,
    pub path: Seq<char>,
}

impl View for Entry {
    type V = EntryView;

    open spec fn view(&self) -> EntryView {
        EntryView {
            name: self.pkg.name@,
            build_type: self.pkg.export.build_type@,
            path: self.path@,
        }
    }
}

/// The views of a sequence of entries, in the same order.
pub open spec fn entry_views(entries: Seq<Entry>) -> Seq<EntryView> {
    entries.map_values(|e: Entry| e@)
}

/// The build type of a package whose manifest names none.
pub open spec fn default_build_type_text() -> Seq<char> {
    "ros.catkin"@
}

/// The build type assumed for a package whose manifest names none.
pub fn default_build_type() -> (build_type: String)
    ensures
        build_type@ == default_build_type_text(),
{
    String::from_str("ros.catkin")
}

/// The export section assumed for a manifest that has none.
pub fn default_export() -> (export: Export)
    ensures
        export.build_type@ == default_build_type_text(),
{
    Export { build_type: default_build_type() }
}

} // verus!
