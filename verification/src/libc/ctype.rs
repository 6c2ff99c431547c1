//! Classes of ASCII characters. All but `isdigit` look at the low byte of their
//! argument.
use vstd::prelude::*;

verus! {

/// A truth value as C writes it.
pub open spec fn truth(b: bool) -> i32 {
    if b {
        1
    } else {
        0
    }
}

/// A truth value as C writes it.
fn flag(b: bool) -> (v: i32)
    ensures
        v == truth(b),
{
    if b {
        1
    } else {
        0
    }
}

/// Blank, tab, line feed, carriage return, vertical tab or form feed.
pub open spec fn space(c: u8) -> bool {
    c == 0x20 || 0x09 <= c <= 0x0D
}

/// A decimal digit.
pub open spec fn digit(c: u8) -> bool {
    0x30 <= c <= 0x39
}

/// A capital letter.
pub open spec fn upper(c: u8) -> bool {
    0x41 <= c <= 0x5A
}

/// A small letter.
pub open spec fn lower(c: u8) -> bool {
    0x61 <= c <= 0x7A
}

/// Whether a byte is a space.
pub fn is_space_b(c: u8) -> (b: bool)
    ensures
        b == space(c),
{
    c == 0x20 || (0x09 <= c && c <= 0x0D)
}

/// Whether a byte is a digit.
pub fn is_digit_b(c: u8) -> (b: bool)
    ensures
        b == digit(c),
{
    0x30 <= c && c <= 0x39
}

pub fn isspace(c: i32) -> (v: i32)
    ensures
        v == truth(space(c as u8)),
{
    flag(is_space_b(c as u8))
}

pub fn isdigit(c: i32) -> (v: i32)
    ensures
        v == truth(0x30 <= c <= 0x39),
{
    flag(0x30 <= c && c <= 0x39)
}

pub fn isupper(c: i32) -> (v: i32)
    ensures
        v == truth(upper(c as u8)),
{
    let b: u8 = c as u8;
    flag(0x41 <= b && b <= 0x5A)
}

pub fn islower(c: i32) -> (v: i32)
    ensures
        v == truth(lower(c as u8)),
{
    let b: u8 = c as u8;
    flag(0x61 <= b && b <= 0x7A)
}

pub fn isalpha(c: i32) -> (v: i32)
    ensures
        v == truth(upper(c as u8) || lower(c as u8)),
{
    let b: u8 = c as u8;
    flag((0x41 <= b && b <= 0x5A) || (0x61 <= b && b <= 0x7A))
}

pub fn isalnum(c: i32) -> (v: i32)
    ensures
        v == truth(upper(c as u8) || lower(c as u8) || digit(c as u8)),
{
    let b: u8 = c as u8;
    flag((0x41 <= b && b <= 0x5A) || (0x61 <= b && b <= 0x7A) || (0x30 <= b && b <= 0x39))
}

pub fn iscntrl(c: i32) -> (v: i32)
    ensures
        v == truth((c as u8) < 0x20 || c as u8 == 0x7F),
{
    let b: u8 = c as u8;
    flag(b < 0x20 || b == 0x7F)
}

pub fn isgraph(c: i32) -> (v: i32)
    ensures
        v == truth(0x21 <= c as u8 <= 0x7E),
{
    let b: u8 = c as u8;
    flag(0x21 <= b && b <= 0x7E)
}

/// A visible character that is neither letter nor digit.
pub fn ispunct(c: i32) -> (v: i32)
    ensures
        ({
            let b = c as u8;
            v == truth(0x21 <= b <= 0x7E && !upper(b) && !lower(b) && !digit(b))
        }),
{
    let b: u8 = c as u8;
    let word: bool = (0x41 <= b && b <= 0x5A) || (0x61 <= b && b <= 0x7A) || (0x30 <= b && b
        <= 0x39);
    flag(0x21 <= b && b <= 0x7E && !word)
}

pub fn isxdigit(c: i32) -> (v: i32)
    ensures
        ({
            let b = c as u8;
            v == truth(digit(b) || 0x41 <= b <= 0x46 || 0x61 <= b <= 0x66)
        }),
{
    let b: u8 = c as u8;
    flag((0x30 <= b && b <= 0x39) || (0x41 <= b && b <= 0x46) || (0x61 <= b && b <= 0x66))
}

/// The capital of a small letter; any other byte as it is.
pub open spec fn raised(c: u8) -> u8 {
    if lower(c) {
        (c - 0x20) as u8
    } else {
        c
    }
}

/// The small letter of a capital; any other byte as it is.
pub open spec fn lowered(c: u8) -> u8 {
    if upper(c) {
        (c + 0x20) as u8
    } else {
        c
    }
}

pub fn toupper(c: i32) -> (v: i32)
    ensures
        v == raised(c as u8),
{
    let b: u8 = c as u8;
    if 0x61 <= b && b <= 0x7A {
        (b - 0x20) as i32
    } else {
        b as i32
    }
}

pub fn tolower(c: i32) -> (v: i32)
    ensures
        v == lowered(c as u8),
{
    let b: u8 = c as u8;
    if 0x41 <= b && b <= 0x5A {
        (b + 0x20) as i32
    } else {
        b as i32
    }
}

/// Raising a capital's small letter gives the capital back, and the other way
/// round.
pub proof fn law_case_round_trip(c: u8)
    ensures
        upper(c) ==> raised(lowered(c)) == c,
        lower(c) ==> lowered(raised(c)) == c,
        !upper(lowered(c)),
        !lower(raised(c)),
{
}

} // verus!
