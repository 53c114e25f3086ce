//! The alphabet and the per-byte shift that the cipher applies.
use vstd::prelude::*;

verus! {

/// Number of letters in the alphabet: the modulus of every shift.
pub const ALPHABET_LEN: u8 = 26;

/// Direction of the shift.
#[derive(Clone, Copy, Debug, PartialEq, Eq, Structural)]
pub enum Mode {
    Encrypt,
    Decrypt,
}

/// An upper-case letter, `A` through `Z`.
pub open spec fn is_upper(b: u8) -> bool {
    65 <= b <= 90
}

/// A lower-case letter, `a` through `z`.
pub open spec fn is_lower(b: u8) -> bool {
    97 <= b <= 122
}

/// A byte that names a letter of the alphabet, in either case.
pub open spec fn is_alpha(b: u8) -> bool {
    is_upper(b) || is_lower(b)
}

/// ASCII upper-casing: lower-case letters move to upper case, all else stays.
pub open spec fn to_upper(b: u8) -> u8 {
    if is_lower(b) {
        (b - 32) as u8
    } else {
        b
    }
}

/// Position of a letter in the alphabet, 0 for `A` through 25 for `Z`.
pub open spec fn letter_index(c: u8) -> int {
    to_upper(c) - 65
}

/// Shift that a key byte stands for: its upper-cased code taken from `A`,
/// reduced modulo 26 (for a letter, its position in the alphabet).
pub open spec fn key_shift(k: u8) -> int {
    (to_upper(k) - 65) % 26
}

/// Alphabet position of the letter that `c` becomes under key byte `k`.
pub open spec fn shifted_index(mode: Mode, c: u8, k: u8) -> int {
    match mode {
        Mode::Encrypt => (letter_index(c) + key_shift(k)) % 26,
        Mode::Decrypt => (letter_index(c) - key_shift(k)) % 26,
    }
}

/// What the cipher makes of text byte `c` under key byte `k`: a letter is
/// shifted and keeps its case, any other byte passes through unchanged.
pub open spec fn cipher_byte(mode: Mode, c: u8, k: u8) -> u8 {
    if is_upper(c) {
        (65 + shifted_index(mode, c, k)) as u8
    } else if is_lower(c) {
        (97 + shifted_index(mode, c, k)) as u8
    } else {
        c
    }
}

/// Whether `b` is a letter of the alphabet, in either case.
pub fn is_alphabetic(b: u8) -> (r: bool)
    ensures
        r == is_alpha(b),
{
    (65 <= b && b <= 90) || (97 <= b && b <= 122)
}

fn upper(b: u8) -> (r: u8)
    ensures
        r == to_upper(b),
{
    if 97 <= b && b <= 122 {
        b - 32
    } else {
        b
    }
}

/// Applies the cipher to one text byte with one key byte.
pub fn transform_byte(mode: Mode, c: u8, k: u8) -> (r: u8)
    ensures
        r == cipher_byte(mode, c, k),
{
    if !is_alphabetic(c) {
        return c;
    }
    let i: u8 = upper(c) - 65;
    let s: u8 = ((upper(k) as u16 + 13) % 26) as u8;
    assert(s == key_shift(k));
    let idx: u8 = match mode {
        Mode::Encrypt => (i + s) % ALPHABET_LEN,
        Mode::Decrypt => (i + ALPHABET_LEN - s) % ALPHABET_LEN,
    };
    assert(idx == shifted_index(mode, c, k));
    if 65 <= c && c <= 90 {
        65 + idx
    } else {
        97 + idx
    }
}

/// The character whose code is `b`.
pub fn byte_to_char(b: u8) -> (r: char)
    ensures
        r == b as char,
{
    b as char
}

} // verus!
