//! How many columns text takes on a terminal.

use vstd::prelude::*;

use unicode_width::{UnicodeWidthChar, UnicodeWidthStr};

verus! {

/// The columns that `UnicodeWidthChar::width` gives for a character, or
/// nothing for a control character.
pub uninterp spec fn char_columns(c: char) -> Option<usize>;

/// The columns that `UnicodeWidthStr::width` gives for a text.
pub uninterp spec fn text_columns(s: Seq<char>) -> usize;

/// `UnicodeWidthChar::width` looks the columns of a character up in fixed
/// tables. A control character has none.
#[verifier::external_body]
fn char_width(c: char) -> (r: Option<usize>)
    ensures
        r == char_columns(c),
{
    UnicodeWidthChar::width(c)
}

/// `UnicodeWidthStr::width` counts the columns of a text, by the same fixed
/// tables and by rules for characters that join.
#[verifier::external_body]
pub(crate) fn text_width(s: &str) -> (r: usize)
    ensures
        r == text_columns(s@),
{
    UnicodeWidthStr::width(s)
}

/// The columns that a character takes. A control character takes none.
pub open spec fn columns(c: char) -> nat {
    match char_columns(c) {
        Some(n) => n as nat,
        None => 0,
    }
}

/// The columns that a character takes.
pub fn columns_of(c: char) -> (r: usize)
    ensures
        r == columns(c),
{
    match char_width(c) {
        Some(n) => n,
        None => 0,
    }
}

/// The columns that the characters take, each by itself.
pub open spec fn total_columns(s: Seq<char>) -> nat
    decreases s.len(),
{
    if s.len() == 0 {
        0
    } else {
        total_columns(s.drop_last()) + columns(s.last())
    }
}

/// The columns that the characters take, each by itself.
pub fn total_columns_of(chars: &Vec<char>) -> (r: u128)
    ensures
        r == total_columns(chars@),
        r <= chars@.len() * usize::MAX,
{
    let mut total: u128 = 0;
    let mut i: usize = 0;
    assert(chars@.take(0).len() == 0);
    while i < chars.len()
        invariant
            i <= chars@.len(),
            total == total_columns(chars@.take(i as int)),
            total <= i * usize::MAX,
        decreases chars@.len() - i,
    {
        assert(chars@.take(i + 1).drop_last() =~= chars@.take(i as int));
        let n: usize = columns_of(chars[i]);
        assert(total + n <= (i + 1) * usize::MAX) by (nonlinear_arith)
            requires
                total <= i * usize::MAX,
                n <= usize::MAX,
        ;
        assert((i + 1) * usize::MAX <= usize::MAX * usize::MAX) by (nonlinear_arith)
            requires
                i + 1 <= usize::MAX,
        ;
        assert(usize::MAX * usize::MAX <= u128::MAX) by (nonlinear_arith)
            requires
                usize::MAX <= 0xffff_ffff_ffff_ffff,
        ;
        total = total + n as u128;
        i = i + 1;
    }
    assert(chars@.take(i as int) =~= chars@);
    total
}

} // verus!
