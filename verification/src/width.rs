//! The number of terminal columns that a character takes, as the
//! `unicode-width` crate measures it.

use vstd::prelude::*;

verus! {

/// The columns of one character as `UnicodeWidthChar::width` gives them:
/// `None` for a control character.
pub uninterp spec fn char_columns(c: char) -> Option<usize>;

/// Whether `c` is one of the printable characters U+0020 to U+007E.
pub open spec fn is_plain(c: char) -> bool {
    ' ' <= c && c <= '~'
}

/// The columns that `c` adds to a line: one for a character of `is_plain`,
/// else those of `char_columns`, and none for a character that has no width.
pub open spec fn columns_of(c: char) -> nat {
    if is_plain(c) {
        1
    } else {
        match char_columns(c) {
            Some(w) => w as nat,
            None => 0,
        }
    }
}

/// `UnicodeWidthChar::width`: the width is a function of the character
/// alone, and each of the characters U+0020 to U+007E takes one column.
#[verifier::external_body]
pub(crate) fn char_width(c: char) -> (w: Option<usize>)
    ensures
        w == char_columns(c),
        is_plain(c) ==> w == Some(1usize),
{
    unicode_width::UnicodeWidthChar::width(c)
}

} // verus!
