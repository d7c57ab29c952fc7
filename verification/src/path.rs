//! Paths as text: the library never touches the disk, so a path is the
//! string its caller uses for it, and joining is a rule on strings.
//!
//! Wherever the library compares or orders paths it does so on these
//! strings, character by character, and not on their components. With the
//! canonical forms that the caller hands in, one directory has one
//! spelling.

use crate::text::{begins_with, starts_with_char};
use vstd::prelude::*;
use vstd::string::*;

verus! {

/// Whether a path starts at the filesystem root.
pub open spec fn is_absolute(path: Seq<char>) -> bool {
    begins_with(path, '/')
}

/// Whether a separator has to be written between `base` and what is
/// appended to it: not after an empty base, and not after a separator.
pub open spec fn needs_separator(base: Seq<char>) -> bool {
    base.len() > 0 && base.last() != '/'
}

/// `child` appended to `base` as one more component. An absolute `child`
/// stands for itself and replaces `base`.
pub open spec fn joined(base: Seq<char>, child: Seq<char>) -> Seq<char> {
    if is_absolute(child) {
        child
    } else if needs_separator(base) {
        base + seq!['/'] + child
    } else {
        base + child
    }
}

/// Appends `child` to `base` as one more path component.
pub fn join(base: &str, child: &str) -> (path: String)
    ensures
        path@ == joined(base@, child@),
{
    if starts_with_char(child, '/') {
        return String::from_str(child);
    }
    let mut path = String::from_str(base);
    let len: usize = base.unicode_len();
    if len > 0 && base.get_char(len - 1) != '/' {
        proof {
            reveal_strlit("/");
        }
        path.append("/");
        assert(path@ == base@ + seq!['/']);
    }
    path.append(child);
    path
}

} // verus!
