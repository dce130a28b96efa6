//! Characters and strings: what the rest of the library needs of them.

use vstd::prelude::*;

verus! {

/// Whether a character has the Unicode property `White_Space`: the
/// controls from the tabulator to the carriage return, the space, the next
/// line control, the no-break space, the Ogham space mark, the spaces from
/// the en quad to the hair space, the line and the paragraph separator, the
/// narrow no-break space, the medium mathematical space and the ideographic
/// space.
pub open spec fn is_white_space(c: char) -> bool {
    let code = c as u32;
    0x0009 <= code <= 0x000D || code == 0x0020 || code == 0x0085 || code == 0x00A0 || code
        == 0x1680 || 0x2000 <= code <= 0x200A || code == 0x2028 || code == 0x2029 || code
        == 0x202F || code == 0x205F || code == 0x3000
}

/// White space that does not end a line.
pub open spec fn is_blank(c: char) -> bool {
    is_white_space(c) && c != '\n'
}

/// Whether a character has the Unicode property `White_Space`.
pub fn char_is_whitespace(c: char) -> (white: bool)
    ensures
        white == is_white_space(c),
{
    let code = c as u32;
    (0x0009 <= code && code <= 0x000D) || code == 0x0020 || code == 0x0085 || code == 0x00A0
        || code == 0x1680 || (0x2000 <= code && code <= 0x200A) || code == 0x2028 || code
        == 0x2029 || code == 0x202F || code == 0x205F || code == 0x3000
}

/// `String::push` of std: appends one character.
#[verifier::external_body]
pub(crate) fn push_char(text: &mut String, c: char)
    ensures
        final(text)@ == old(text)@.push(c),
{
    text.push(c)
}

/// Whether a character is white space that does not end a line.
pub fn char_is_blank(c: char) -> (blank: bool)
    ensures
        blank == is_blank(c),
{
    c != '\n' && char_is_whitespace(c)
}

/// The character of a decimal digit.
pub open spec fn digit_char(digit: nat) -> char {
    if digit == 0 {
        '0'
    } else if digit == 1 {
        '1'
    } else if digit == 2 {
        '2'
    } else if digit == 3 {
        '3'
    } else if digit == 4 {
        '4'
    } else if digit == 5 {
        '5'
    } else if digit == 6 {
        '6'
    } else if digit == 7 {
        '7'
    } else if digit == 8 {
        '8'
    } else {
        '9'
    }
}

/// A number written in decimal, without leading zeros.
pub open spec fn decimal_digits(n: nat) -> Seq<char>
    decreases n,
{
    if n < 10 {
        seq![digit_char(n)]
    } else {
        decimal_digits(n / 10).push(digit_char(n % 10))
    }
}

/// The character of a decimal digit.
fn digit(d: usize) -> (c: char)
    requires
        d < 10,
    ensures
        c == digit_char(d as nat),
{
    if d == 0 {
        '0'
    } else if d == 1 {
        '1'
    } else if d == 2 {
        '2'
    } else if d == 3 {
        '3'
    } else if d == 4 {
        '4'
    } else if d == 5 {
        '5'
    } else if d == 6 {
        '6'
    } else if d == 7 {
        '7'
    } else if d == 8 {
        '8'
    } else {
        '9'
    }
}

/// Appends a number in decimal.
pub fn push_decimal(text: &mut String, n: usize)
    ensures
        final(text)@ == old(text)@ + decimal_digits(n as nat),
    decreases n,
{
    if n >= 10 {
        push_decimal(text, n / 10);
    }
    push_char(text, digit(n % 10));
    assert(text@ =~= old(text)@ + decimal_digits(n as nat));
}

/// A number written in decimal.
pub fn decimal(n: usize) -> (text: String)
    ensures
        text@ == decimal_digits(n as nat),
{
    let mut text = String::new();
    push_decimal(&mut text, n);
    assert(text@ =~= decimal_digits(n as nat));
    text
}

/// Appends `count` copies of a character.
pub fn push_repeated(text: &mut String, c: char, count: usize)
    ensures
        final(text)@ == old(text)@ + Seq::new(count as nat, |i: int| c),
{
    let mut i: usize = 0;
    assert(text@ =~= old(text)@ + Seq::new(0, |i: int| c));
    while i < count
        invariant
            i <= count,
            text@ == old(text)@ + Seq::new(i as nat, |j: int| c),
        decreases count - i,
    {
        push_char(text, c);
        i += 1;
        assert(text@ =~= old(text)@ + Seq::new(i as nat, |j: int| c));
    }
}

/// The items of `parts` with `separator` between each two.
pub open spec fn joined(parts: Seq<Seq<char>>, separator: Seq<char>) -> Seq<char>
    decreases parts.len(),
{
    if parts.len() == 0 {
        Seq::empty()
    } else if parts.len() == 1 {
        parts[0]
    } else {
        joined(parts.drop_last(), separator) + separator + parts.last()
    }
}

} // verus!
