//! Strings as sequences of characters: the views that contracts speak of
//! and the questions about text that the discovery asks.

use vstd::prelude::*;
use vstd::string::*;

verus! {

/// The views of a sequence of strings, in the same order.
pub open spec fn text_views(texts: Seq<String>) -> Seq<Seq<char>> {
    texts.map_values(|t: String| t@)
}

/// The view of an optional string.
pub open spec fn optional_text_view(text: Option<String>) -> Option<Seq<char>> {
    match text {
        Some(t) => Some(t@),
        None => None,
    }
}

/// The views of a sequence of optional strings, in the same order.
pub open spec fn optional_text_views(texts: Seq<Option<String>>) -> Seq<Option<Seq<char>>> {
    texts.map_values(|t: Option<String>| optional_text_view(t))
}

/// The views of a sequence with one more string are the views of the
/// sequence with one more view.
pub proof fn lemma_text_views_push(texts: Seq<String>, one: String)
    ensures
        text_views(texts.push(one)) == text_views(texts).push(one@),
{
    assert(text_views(texts.push(one)) =~= text_views(texts).push(one@));
}

/// Whether `text` begins with the character `c`.
pub open spec fn begins_with(text: Seq<char>, c: char) -> bool {
    text.len() > 0 && text[0] == c
}

/// Whether `text` begins with the character `c`.
pub fn starts_with_char(text: &str, c: char) -> (found: bool)
    ensures
        found == begins_with(text@, c),
{
    !text.is_empty() && text.get_char(0) == c
}

} // verus!
