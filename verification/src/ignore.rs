//! Which directories are left out of the discovery.
//!
//! A directory is left out when its own name begins with a dot, or when it
//! holds a file named as one of three ignore markers. The markers come from
//! three generations of build tools and mean the same thing.

use crate::text::{begins_with, optional_text_view, starts_with_char, text_views};
use vstd::prelude::*;
use vstd::string::*;

verus! {

/// Whether `name` is the name of an ignore marker.
pub open spec fn is_ignore_marker(name: Seq<char>) -> bool {
    name == "COLCON_IGNORE"@ || name == "CATKIN_IGNORE"@ || name == "AMENT_IGNORE"@
}

/// Whether a directory with this base name is hidden. A path without a
/// base name, such as `.` or `/`, is not.
pub open spec fn is_hidden(base_name: Option<Seq<char>>) -> bool {
    match base_name {
        Some(name) => begins_with(name, '.'),
        None => false,
    }
}

/// Whether one of the names found in a directory is an ignore marker.
pub open spec fn has_ignore_marker(found: Seq<Seq<char>>) -> bool {
    exists|i: int| 0 <= i < found.len() && is_ignore_marker(#[trigger] found[i])
}

/// Whether a directory with this base name and these marker files is left
/// out of the discovery.
pub open spec fn is_excluded(base_name: Option<Seq<char>>, found: Seq<Seq<char>>) -> bool {
    is_hidden(base_name) || has_ignore_marker(found)
}

/// The names of the ignore markers, for the caller to look for in a
/// directory.
pub fn ignore_markers() -> (markers: Vec<String>)
    ensures
        text_views(markers@) == seq!["COLCON_IGNORE"@, "CATKIN_IGNORE"@, "AMENT_IGNORE"@],
{
    let mut markers: Vec<String> = Vec::new();
    markers.push(String::from_str("COLCON_IGNORE"));
    markers.push(String::from_str("CATKIN_IGNORE"));
    markers.push(String::from_str("AMENT_IGNORE"));
    assert(text_views(markers@) =~= seq!["COLCON_IGNORE"@, "CATKIN_IGNORE"@, "AMENT_IGNORE"@]);
    markers
}

/// Whether `name` is the name of an ignore marker.
pub fn is_marker_name(name: &String) -> (marker: bool)
    ensures
        marker == is_ignore_marker(name@),
{
    *name == String::from_str("COLCON_IGNORE") || *name == String::from_str("CATKIN_IGNORE")
        || *name == String::from_str("AMENT_IGNORE")
}

/// Decides whether a directory is left out of the discovery, from its base
/// name and the marker files that were found in it.
pub fn classify_directory_exclusion(base_name: &Option<String>, found: &Vec<String>) -> (excluded:
    bool)
    ensures
        excluded == is_excluded(optional_text_view(*base_name), text_views(found@)),
{
    if let Some(name) = base_name {
        if starts_with_char(name.as_str(), '.') {
            return true;
        }
    }
    let mut i: usize = 0;
    while i < found.len()
        invariant
            i <= found.len(),
            forall|j: int| 0 <= j < i ==> !is_ignore_marker(#[trigger] text_views(found@)[j]),
        decreases found.len() - i,
    {
        if is_marker_name(&found[i]) {
            assert(is_ignore_marker(text_views(found@)[i as int]));
            return true;
        }
        i += 1;
    }
    false
}

} // verus!
