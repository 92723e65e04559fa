//! Character-level helpers shared by rendering and the persistence codec:
//! decimal and hexadecimal digit tables, fixed-width number images, and the
//! few string primitives the rest of the library builds on.

use vstd::prelude::*;
use vstd::string::StrSliceExecFns;

verus! {

/// The decimal digit character for a value below ten.
pub open spec fn dec_digit(n: int) -> char {
    if n == 0 {
        '0'
    } else if n == 1 {
        '1'
    } else if n == 2 {
        '2'
    } else if n == 3 {
        '3'
    } else if n == 4 {
        '4'
    } else if n == 5 {
        '5'
    } else if n == 6 {
        '6'
    } else if n == 7 {
        '7'
    } else if n == 8 {
        '8'
    } else {
        '9'
    }
}

/// The value of a decimal digit character, or `None` for any other character.
pub open spec fn dec_val(c: char) -> Option<int> {
    if c == '0' {
        Some(0int)
    } else if c == '1' {
        Some(1int)
    } else if c == '2' {
        Some(2int)
    } else if c == '3' {
        Some(3int)
    } else if c == '4' {
        Some(4int)
    } else if c == '5' {
        Some(5int)
    } else if c == '6' {
        Some(6int)
    } else if c == '7' {
        Some(7int)
    } else if c == '8' {
        Some(8int)
    } else if c == '9' {
        Some(9int)
    } else {
        None
    }
}

/// The lower-case hexadecimal digit character for a value below sixteen.
pub open spec fn hex_digit(n: int) -> char {
    if n < 10 {
        dec_digit(n)
    } else if n == 10 {
        'a'
    } else if n == 11 {
        'b'
    } else if n == 12 {
        'c'
    } else if n == 13 {
        'd'
    } else if n == 14 {
        'e'
    } else {
        'f'
    }
}

/// The value of a hexadecimal digit character (either case), or `None`.
pub open spec fn hex_val(c: char) -> Option<int> {
    if dec_val(c) is Some {
        dec_val(c)
    } else if c == 'a' || c == 'A' {
        Some(10int)
    } else if c == 'b' || c == 'B' {
        Some(11int)
    } else if c == 'c' || c == 'C' {
        Some(12int)
    } else if c == 'd' || c == 'D' {
        Some(13int)
    } else if c == 'e' || c == 'E' {
        Some(14int)
    } else if c == 'f' || c == 'F' {
        Some(15int)
    } else {
        None
    }
}

/// Digit tables invert each other: reading back an emitted decimal digit
/// yields the value it was made from.
pub proof fn lemma_dec_digit_val(n: int)
    requires
        0 <= n < 10,
    ensures
        dec_val(dec_digit(n)) == Some(n),
{
}

/// Reading back an emitted hexadecimal digit yields the value it was made
/// from.
pub proof fn lemma_hex_digit_val(n: int)
    requires
        0 <= n < 16,
    ensures
        hex_val(hex_digit(n)) == Some(n),
{
}

/// The two-character, zero-padded decimal image of a value below one hundred.
pub open spec fn two_digits(n: int) -> Seq<char> {
    seq![dec_digit(n / 10), dec_digit(n % 10)]
}

/// The four-character, zero-padded decimal image of a value below ten
/// thousand.
pub open spec fn four_digits(n: int) -> Seq<char> {
    seq![dec_digit(n / 1000), dec_digit((n / 100) % 10), dec_digit((n / 10) % 10), dec_digit(n % 10)]
}

/// Relies on `String::push`: appends exactly the given character at the end.
#[verifier::external_body]
pub fn push_char(s: &mut String, c: char)
    ensures
        final(s)@ == old(s)@.push(c),
{
    s.push(c);
}

/// Relies on `str`'s `PartialEq`: two string slices compare equal exactly
/// when their character sequences are equal.
#[verifier::external_body]
pub fn str_eq(a: &str, b: &str) -> (r: bool)
    ensures
        r == (a@ == b@),
{
    a == b
}

/// The decimal digit character of a value below ten.
pub fn dec_digit_char(n: u32) -> (r: char)
    requires
        n < 10,
    ensures
        r == dec_digit(n as int),
{
    match n {
        0 => '0',
        1 => '1',
        2 => '2',
        3 => '3',
        4 => '4',
        5 => '5',
        6 => '6',
        7 => '7',
        8 => '8',
        _ => '9',
    }
}

/// The lower-case hexadecimal digit character of a value below sixteen.
pub fn hex_digit_char(n: u32) -> (r: char)
    requires
        n < 16,
    ensures
        r == hex_digit(n as int),
{
    if n < 10 {
        dec_digit_char(n)
    } else {
        match n {
            10 => 'a',
            11 => 'b',
            12 => 'c',
            13 => 'd',
            14 => 'e',
            _ => 'f',
        }
    }
}

/// The value of a decimal digit character, or `None`.
pub fn dec_val_of(c: char) -> (r: Option<u32>)
    ensures
        match r {
            Some(v) => dec_val(c) == Some(v as int) && v < 10,
            None => dec_val(c) is None,
        },
{
    match c {
        '0' => Some(0),
        '1' => Some(1),
        '2' => Some(2),
        '3' => Some(3),
        '4' => Some(4),
        '5' => Some(5),
        '6' => Some(6),
        '7' => Some(7),
        '8' => Some(8),
        '9' => Some(9),
        _ => None,
    }
}

/// The value of a hexadecimal digit character, or `None`.
pub fn hex_val_of(c: char) -> (r: Option<u32>)
    ensures
        match r {
            Some(v) => hex_val(c) == Some(v as int) && v < 16,
            None => hex_val(c) is None,
        },
{
    match c {
        '0' => Some(0),
        '1' => Some(1),
        '2' => Some(2),
        '3' => Some(3),
        '4' => Some(4),
        '5' => Some(5),
        '6' => Some(6),
        '7' => Some(7),
        '8' => Some(8),
        '9' => Some(9),
        'a' | 'A' => Some(10),
        'b' | 'B' => Some(11),
        'c' | 'C' => Some(12),
        'd' | 'D' => Some(13),
        'e' | 'E' => Some(14),
        'f' | 'F' => Some(15),
        _ => None,
    }
}

/// Appends the two-digit decimal image of `n`.
pub fn push_two_digits(out: &mut String, n: u32)
    requires
        n < 100,
    ensures
        final(out)@ == old(out)@ + two_digits(n as int),
{
    push_char(out, dec_digit_char(n / 10));
    push_char(out, dec_digit_char(n % 10));
    assert(out@ =~= old(out)@ + two_digits(n as int));
}

/// Appends the four-digit decimal image of `n`.
pub fn push_four_digits(out: &mut String, n: u32)
    requires
        n < 10000,
    ensures
        final(out)@ == old(out)@ + four_digits(n as int),
{
    push_char(out, dec_digit_char(n / 1000));
    push_char(out, dec_digit_char((n / 100) % 10));
    push_char(out, dec_digit_char((n / 10) % 10));
    push_char(out, dec_digit_char(n % 10));
    assert(out@ =~= old(out)@ + four_digits(n as int));
}

/// The characters of a string slice as a vector, for index-based parsing.
pub fn to_chars(s: &str) -> (r: Vec<char>)
    ensures
        r@ == s@,
{
    let n: usize = s.unicode_len();
    let mut v: Vec<char> = Vec::new();
    let mut i: usize = 0;
    while i < n
        invariant
            i <= n,
            n == s@.len(),
            v@ == s@.subrange(0, i as int),
        decreases n - i,
    {
        let c: char = s.get_char(i);
        v.push(c);
        assert(v@ =~= s@.subrange(0, i as int + 1));
        i = i + 1;
    }
    assert(v@ =~= s@);
    v
}

} // verus!
