//! What the library takes on trust: the contracts of the functions of the
//! standard library, of itertools and of unicode-width that it calls and that
//! are stated nowhere else. Nothing here is proved; everything else in the
//! library is proved from it.

use itertools::Itertools;
use std::string::FromUtf8Error;
use unicode_width::UnicodeWidthStr;
use vstd::prelude::*;
use vstd::utf8::{encode_utf8, valid_utf8};

verus! {

/// The error of `String::from_utf8`. Nothing is read from it.
#[verifier::external_type_specification]
#[verifier::external_body]
pub struct ExFromUtf8Error(FromUtf8Error);

/// `String::from_utf8` of the standard library: it succeeds on exactly the
/// byte vectors that are valid UTF-8, and the string it then returns is made
/// of the bytes it was given.
pub assume_specification[ String::from_utf8 ](vec: Vec<u8>) -> (result: Result<
    String,
    FromUtf8Error,
>)
    ensures
        result is Ok <==> valid_utf8(vec@),
        result matches Ok(text) ==> encode_utf8(text@) == vec@,
;

/// `String::push` of the standard library appends the character to the end
/// of the string.
pub assume_specification[ String::push ](text: &mut String, ch: char)
    ensures
        final(text)@ == old(text)@.push(ch),
;

/// `String::pop` of the standard library removes the last character of the
/// string and returns it, or returns nothing where the string is empty.
pub assume_specification[ String::pop ](text: &mut String) -> (last: Option<char>)
    ensures
        old(text)@.len() == 0 ==> last is None && final(text)@ == old(text)@,
        old(text)@.len() > 0 ==> last == Some(old(text)@.last()) && final(text)@ == old(
            text,
        )@.drop_last(),
;

/// The number of terminal columns that a text takes when it is displayed, as
/// `UnicodeWidthStr::width` of unicode-width counts them.
pub uninterp spec fn display_width(text: Seq<char>) -> usize;

/// `UnicodeWidthStr::width` of unicode-width: the displayed width of `text`
/// in columns, which depends on the characters of `text` alone.
#[verifier::external_body]
pub(crate) fn text_width(text: &str) -> (width: usize)
    ensures
        width == display_width(text@),
{
    UnicodeWidthStr::width(text)
}

/// Whether the numbers never fall from one to the next.
pub open spec fn ascending(ids: Seq<usize>) -> bool {
    forall|i: int, j: int| 0 <= i < j < ids.len() ==> ids[i] <= ids[j]
}

/// `Itertools::sorted` of itertools, on the numbers of a vector: it returns
/// the same numbers, each as often as it was given, in ascending order.
#[verifier::external_body]
pub(crate) fn sorted(ids: Vec<usize>) -> (sorted: Vec<usize>)
    ensures
        ascending(sorted@),
        sorted@.to_multiset() == ids@.to_multiset(),
{
    ids.into_iter().sorted().collect()
}

} // verus!
