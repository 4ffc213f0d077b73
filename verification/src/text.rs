//! Editing a line of text at a cursor that counts characters.

use vstd::prelude::*;
use vstd::string::{StrSliceExecFns, StringExecFns};

verus! {

/// The text with `c` put in at `at`, or at its end where `at` lies behind it.
pub open spec fn with_char(text: Seq<char>, at: int, c: char) -> Seq<char> {
    if at < text.len() {
        text.insert(at, c)
    } else {
        text.push(c)
    }
}

/// The text without the character at `at`; the text itself where there is none.
pub open spec fn without_char(text: Seq<char>, at: int) -> Seq<char> {
    if 0 <= at < text.len() {
        text.remove(at)
    } else {
        text
    }
}

/// A cursor brought back into a text of `len` characters.
pub open spec fn clamped(cursor: usize, len: nat) -> nat {
    if cursor <= len {
        cursor as nat
    } else {
        len
    }
}

/// Appends one character to a string. This is `String::push` of the standard
/// library, of which the contract states what its documentation says: the
/// character is appended to the end.
#[verifier::external_body]
fn push_char(text: &mut String, c: char)
    ensures
        final(text)@ == old(text)@.push(c),
{
    text.push(c);
}

/// The text with `c` put in at `at`.
pub fn insert_char(text: &str, at: usize, c: char) -> (edited: String)
    ensures
        edited@ == with_char(text@, at as int, c),
{
    let len = text.unicode_len();
    if at < len {
        let mut edited = String::from_str(text.substring_char(0, at));
        push_char(&mut edited, c);
        edited.append(text.substring_char(at, len));
        assert(edited@ =~= text@.insert(at as int, c));
        edited
    } else {
        let mut edited = String::from_str(text);
        push_char(&mut edited, c);
        edited
    }
}

/// The text without the character at `at`.
pub fn remove_char(text: &str, at: usize) -> (edited: String)
    ensures
        edited@ == without_char(text@, at as int),
{
    let len = text.unicode_len();
    if at < len {
        let mut edited = String::from_str(text.substring_char(0, at));
        edited.append(text.substring_char(at + 1, len));
        assert(edited@ =~= text@.remove(at as int));
        edited
    } else {
        String::from_str(text)
    }
}

/// The text without its last character; the empty text stays empty.
pub fn without_last(text: &str) -> (edited: String)
    ensures
        edited@ == if text@.len() > 0 {
            text@.drop_last()
        } else {
            text@
        },
{
    let len = text.unicode_len();
    if len > 0 {
        String::from_str(text.substring_char(0, len - 1))
    } else {
        String::from_str(text)
    }
}

/// The text with `c` at its end.
pub fn with_last(text: &str, c: char) -> (edited: String)
    ensures
        edited@ == text@.push(c),
{
    let mut edited = String::from_str(text);
    push_char(&mut edited, c);
    edited
}

} // verus!
