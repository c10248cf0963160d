//! Strings as sequences of characters.

use vstd::prelude::*;

verus! {

/// `String::push`.
///
/// Trusted: it appends the character.
pub assume_specification[ std::string::String::push ](s: &mut std::string::String, c: char)
    ensures
        final(s)@ == old(s)@.push(c),
;

/// The characters of each string of a list.
pub open spec fn texts(strings: Seq<String>) -> Seq<Seq<char>> {
    strings.map_values(|s: String| s@)
}

/// The characters of each string of a list that may be missing.
pub open spec fn option_texts(strings: Option<Vec<String>>) -> Option<Seq<Seq<char>>> {
    match strings {
        Some(list) => Some(texts(list@)),
        None => None,
    }
}

/// The characters of a string that may be missing.
pub open spec fn option_text(string: Option<String>) -> Option<Seq<char>> {
    match string {
        Some(s) => Some(s@),
        None => None,
    }
}

/// Whether a list holds a string.
pub fn list_contains(list: &Vec<String>, text: &str) -> (found: bool)
    ensures
        found == texts(list@).contains(text@),
{
    for i in 0..list.len()
        invariant
            forall|k: int| 0 <= k < i ==> (#[trigger] list@[k])@ != text@,
    {
        if same_text(list[i].as_str(), text) {
            assert(texts(list@)[i as int] == text@);
            return true;
        }
    }
    assert(!texts(list@).contains(text@)) by {
        if texts(list@).contains(text@) {
            let k = choose|k: int| 0 <= k < list@.len() && texts(list@)[k] == text@;
            assert(list@[k]@ == text@);
        }
    }
    false
}

/// The texts one after the other.
pub fn concat3(a: &str, b: &str, c: &str) -> (text: String)
    ensures
        text@ == a@ + b@ + c@,
{
    a.to_owned().concat(b).concat(c)
}

/// Whether two strings have the same characters.
pub fn same_text(a: &str, b: &str) -> (same: bool)
    ensures
        same == (a@ == b@),
{
    a.to_owned() == b.to_owned()
}

/// The characters of the strings of a list are those of each string, in their order; of what is
/// missing there are none.
pub proof fn law_texts_are_those_of_the_strings(
    strings: Seq<String>,
    list: Option<Vec<String>>,
    string: Option<String>,
)
    ensures
        texts(strings).len() == strings.len(),
        forall|i: int| 0 <= i < strings.len() ==> (#[trigger] texts(strings)[i]) == strings[i]@,
        option_texts(list) is Some <==> list is Some,
        list matches Some(l) ==> option_texts(list) matches Some(t) && t.len() == l@.len() && (
        forall|i: int| 0 <= i < l@.len() ==> (#[trigger] t[i]) == l@[i]@),
        option_text(string) is Some <==> string is Some,
        string matches Some(s) ==> option_text(string) == Some(s@),
{
}

} // verus!
