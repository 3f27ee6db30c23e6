//! Strings by their characters.
use vstd::prelude::*;

verus! {

/// `String::push` appends one character at the end and changes nothing before it.
pub assume_specification[ String::push ](text: &mut String, ch: char)
    ensures
        final(text)@ == old(text)@.push(ch),
;

/// The characters of each string of a list.
pub open spec fn texts(strings: Seq<String>) -> Seq<Seq<char>> {
    strings.map_values(|string: String| string@)
}

/// A list of strings and that of their characters go together one by one.
pub proof fn texts_go_one_by_one(strings: Seq<String>)
    ensures
        texts(strings).len() == strings.len(),
        forall|i: int| 0 <= i < strings.len() ==> #[trigger] texts(strings)[i] == strings[i]@,
{
}

/// The characters of a string that may be missing.
pub open spec fn text_of(string: Option<String>) -> Option<Seq<char>> {
    match string {
        Some(string) => Some(string@),
        None => None,
    }
}

/// Whether `string` is there and holds the characters `text`.
pub open spec fn holds_text(string: &Option<String>, text: Seq<char>) -> bool {
    text_of(*string) == Some(text)
}

/// Whether two strings hold the same characters.
pub fn same_text(a: &str, b: &str) -> (same: bool)
    ensures
        same == (a@ == b@),
{
    a.to_owned() == b.to_owned()
}

/// Whether `string` is there and holds the characters of `text`.
pub fn is_text(string: &Option<String>, text: &String) -> (same: bool)
    ensures
        same == holds_text(string, text@),
{
    match string {
        Some(string) => *string == *text,
        None => false,
    }
}

/// `head` followed by `tail`.
pub fn joined(head: &str, tail: &str) -> (whole: String)
    ensures
        whole@ == head@ + tail@,
{
    let mut whole = head.to_owned();
    whole.append(tail);
    whole
}

} // verus!
