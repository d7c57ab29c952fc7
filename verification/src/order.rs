//! The order in which entries are listed: by name, and by path among
//! entries of one name.
//!
//! Names and paths alike are ordered as texts: character by character from
//! the left, by code point, a proper prefix before what it begins. A path
//! is not taken apart into its components for this. So `a-b` is listed
//! before `a/b`, as `-` comes before `/`, and two spellings of one
//! directory, such as `x` and `x/`, are two paths.

use crate::package::EntryView;
use vstd::prelude::*;

verus! {

/// Whether `a` comes before `b` or is equal to it, as texts: the first
/// character in which they differ decides, by its code point, and a text
/// comes before every longer text that begins with it.
pub open spec fn text_le(a: Seq<char>, b: Seq<char>) -> bool
    decreases a.len(),
{
    if a.len() == 0 {
        true
    } else if b.len() == 0 {
        false
    } else if a[0] != b[0] {
        (a[0] as int) < (b[0] as int)
    } else {
        text_le(a.drop_first(), b.drop_first())
    }
}

/// Whether two entries are the same for the listing: one name, one path,
/// each the same text character for character.
pub open spec fn same_key(a: EntryView, b: EntryView) -> bool {
    a.name == b.name && a.path == b.path
}

/// Whether `a` is listed before `b`, or may stand in its place: by name,
/// and by path where the names are equal, both in the order of texts.
pub open spec fn key_le(a: EntryView, b: EntryView) -> bool {
    if a.name != b.name {
        text_le(a.name, b.name)
    } else {
        text_le(a.path, b.path)
    }
}

/// Whether `a` is listed before `b`.
pub open spec fn key_lt(a: EntryView, b: EntryView) -> bool {
    key_le(a, b) && !same_key(a, b)
}

/// Whether each entry is listed before or may stand for each later one.
pub open spec fn sorted_by_key(entries: Seq<EntryView>) -> bool {
    forall|i: int, j: int|
        0 <= i < j < entries.len() ==> #[trigger] key_le(entries[i], entries[j])
}

/// Whether each entry is listed before each later one: sorted, and no name
/// and path twice.
pub open spec fn strictly_sorted_by_key(entries: Seq<EntryView>) -> bool {
    forall|i: int, j: int|
        0 <= i < j < entries.len() ==> #[trigger] key_lt(entries[i], entries[j])
}

/// Every text may stand in its own place.
pub proof fn lemma_text_le_reflexive(a: Seq<char>)
    ensures
        text_le(a, a),
    decreases a.len(),
{
    if a.len() > 0 {
        lemma_text_le_reflexive(a.drop_first());
    }
}

/// Two texts of which each comes before or equals the other are equal.
pub proof fn lemma_text_le_antisymmetric(a: Seq<char>, b: Seq<char>)
    requires
        text_le(a, b),
        text_le(b, a),
    ensures
        a == b,
    decreases a.len(),
{
    if a.len() == 0 || b.len() == 0 {
        assert(a =~= b);
    } else {
        lemma_text_le_antisymmetric(a.drop_first(), b.drop_first());
        assert(a =~= seq![a[0]] + a.drop_first());
        assert(b =~= seq![b[0]] + b.drop_first());
    }
}

/// What comes before a text comes before everything behind that text.
pub proof fn lemma_text_le_transitive(a: Seq<char>, b: Seq<char>, c: Seq<char>)
    requires
        text_le(a, b),
        text_le(b, c),
    ensures
        text_le(a, c),
    decreases a.len(),
{
    if a.len() > 0 && b.len() > 0 && c.len() > 0 {
        if a[0] == b[0] && b[0] == c[0] {
            lemma_text_le_transitive(a.drop_first(), b.drop_first(), c.drop_first());
        }
    }
}

/// Of two texts one comes before the other, or they are equal.
pub proof fn lemma_text_le_total(a: Seq<char>, b: Seq<char>)
    ensures
        text_le(a, b) || text_le(b, a),
    decreases a.len(),
{
    if a.len() > 0 && b.len() > 0 && a[0] == b[0] {
        lemma_text_le_total(a.drop_first(), b.drop_first());
    }
}

/// Entries that may stand for each other both ways have one name and path.
pub proof fn lemma_key_le_antisymmetric(a: EntryView, b: EntryView)
    requires
        key_le(a, b),
        key_le(b, a),
    ensures
        same_key(a, b),
{
    if a.name != b.name {
        lemma_text_le_antisymmetric(a.name, b.name);
    } else {
        lemma_text_le_antisymmetric(a.path, b.path);
    }
}

/// What is listed before an entry is listed before everything behind it.
pub proof fn lemma_key_le_transitive(a: EntryView, b: EntryView, c: EntryView)
    requires
        key_le(a, b),
        key_le(b, c),
    ensures
        key_le(a, c),
{
    if a.name == b.name && b.name == c.name {
        lemma_text_le_transitive(a.path, b.path, c.path);
    } else if a.name == b.name {
    } else if b.name == c.name {
    } else {
        lemma_text_le_transitive(a.name, b.name, c.name);
        if a.name == c.name {
            lemma_text_le_antisymmetric(a.name, b.name);
        }
    }
    if a.name == c.name {
        lemma_text_le_reflexive(a.path);
        if a.name != b.name {
            lemma_text_le_antisymmetric(a.name, b.name);
        }
    }
}

} // verus!
