//! Characters and lines of text: which characters take up a cell, which ones
//! are trimmed from the end of a line, and how numbers are written.

use vstd::prelude::*;

verus! {

/// `String::push` appends one character.
pub assume_specification[ String::push ](text: &mut String, ch: char)
    ensures
        final(text)@ == old(text)@.push(ch),
;

/// Whether `c` is a control character: one of the 65 code points of the
/// general category Cc, U+0000 to U+001F and U+007F to U+009F. Unicode's
/// stability policy rules out that this category ever gains or loses a code
/// point.
pub open spec fn is_control_char(c: char) -> bool {
    c as u32 <= 0x1F || 0x7F <= c as u32 <= 0x9F
}

/// `char::is_control` tells whether the character has the general category
/// Cc.
pub assume_specification[ char::is_control ](c: char) -> (control: bool)
    ensures
        control == is_control_char(c),
;

/// Whether `char::is_whitespace` holds of `c`: whether `c` has the property
/// White_Space in the version of Unicode that the standard library follows.
pub uninterp spec fn is_white_space(c: char) -> bool;

/// `char::is_whitespace` tells whether the character has the property
/// White_Space.
pub assume_specification[ char::is_whitespace ](c: char) -> (white: bool)
    ensures
        white == is_white_space(c),
;

/// `line` without the whitespace at its end.
pub open spec fn trimmed(line: Seq<char>) -> Seq<char>
    decreases line.len(),
{
    if line.len() > 0 && is_white_space(line.last()) {
        trimmed(line.drop_last())
    } else {
        line
    }
}

/// The character for a single decimal digit: `'0'` is code point 48.
pub open spec fn digit(d: int) -> char {
    ((48 + d) as u8) as char
}

/// `n` written in decimal, without leading zeros.
pub open spec fn decimal(n: nat) -> Seq<char>
    decreases n,
{
    if n < 10 {
        seq![digit(n as int)]
    } else {
        decimal(n / 10).push(digit((n % 10) as int))
    }
}

/// The number of characters that remain of `line` once the whitespace at its
/// end is dropped.
pub fn trimmed_len(line: &Vec<char>) -> (len: usize)
    ensures
        len <= line@.len(),
        line@.subrange(0, len as int) == trimmed(line@),
{
    let mut len = line.len();
    assert(line@.subrange(0, len as int) =~= line@);
    while len > 0 && line[len - 1].is_whitespace()
        invariant
            len <= line@.len(),
            trimmed(line@.subrange(0, len as int)) == trimmed(line@),
        decreases len,
    {
        assert(line@.subrange(0, len as int).drop_last() =~= line@.subrange(0, len - 1));
        len = len - 1;
    }
    len
}

/// Appends `n`, written in decimal, to `out`.
pub fn push_decimal(out: &mut String, n: usize)
    ensures
        final(out)@ == old(out)@ + decimal(n as nat),
    decreases n,
{
    if n >= 10 {
        push_decimal(out, n / 10);
    }
    let d: u8 = (n % 10) as u8;
    out.push((48u8 + d) as char);
    assert(final(out)@ =~= old(out)@ + decimal(n as nat));
}

} // verus!
