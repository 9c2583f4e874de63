//! The size of a file as people read it: in bytes, or in units of 1024 or
//! 1024 * 1024 bytes with two decimal places.
//!
//! The number of units is the size, held as a binary number of 53 significant
//! bits, divided by the unit and rounded to hundredths. Both roundings go to
//! the nearest value and, half way between two, to the even one.

use crate::number::{decimal, push_decimal, push_decimal_padded, zero_padded};
use vstd::prelude::*;

verus! {

/// The number of bytes in a KB.
pub const KILOBYTE: u64 = 1024;

/// The number of bytes in a MB.
pub const MEGABYTE: u64 = 1048576;

/// `numerator / denominator` rounded to the nearest whole number; a quotient
/// half way between two whole numbers goes to the even one.
pub open spec fn round_half_even(numerator: nat, denominator: nat) -> nat
    recommends
        denominator > 0,
{
    let quotient = numerator / denominator;
    let rest = numerator % denominator;
    if 2 * rest > denominator || (2 * rest == denominator && quotient % 2 == 1) {
        quotient + 1
    } else {
        quotient
    }
}

/// The distance between two neighbouring numbers of 53 significant bits around
/// `n`, for `n` below 2 to the 64.
pub open spec fn spacing_at(n: nat) -> nat {
    if n < 0x20_0000_0000_0000 {
        1
    } else if n < 0x40_0000_0000_0000 {
        2
    } else if n < 0x80_0000_0000_0000 {
        4
    } else if n < 0x100_0000_0000_0000 {
        8
    } else if n < 0x200_0000_0000_0000 {
        16
    } else if n < 0x400_0000_0000_0000 {
        32
    } else if n < 0x800_0000_0000_0000 {
        64
    } else if n < 0x1000_0000_0000_0000 {
        128
    } else if n < 0x2000_0000_0000_0000 {
        256
    } else if n < 0x4000_0000_0000_0000 {
        512
    } else if n < 0x8000_0000_0000_0000 {
        1024
    } else {
        2048
    }
}

/// The number of 53 significant bits that is nearest to `n`.
pub open spec fn nearest_of_53_bits(n: nat) -> nat {
    round_half_even(n, spacing_at(n)) * spacing_at(n)
}

/// The size `bytes` in hundredths of `unit`.
pub open spec fn hundredths(bytes: nat, unit: nat) -> nat {
    round_half_even(nearest_of_53_bits(bytes) * 100, unit)
}

/// A number of hundredths written with two decimal places.
pub open spec fn two_places(hundredths: nat) -> Seq<char> {
    decimal(hundredths / 100) + seq!['.'] + zero_padded(hundredths % 100, 2)
}

/// The text for a size of `bytes` bytes.
pub open spec fn size_text(bytes: nat) -> Seq<char> {
    if bytes < KILOBYTE {
        decimal(bytes) + " bytes"@
    } else if bytes < MEGABYTE {
        two_places(hundredths(bytes, KILOBYTE as nat)) + " KB"@
    } else {
        two_places(hundredths(bytes, MEGABYTE as nat)) + " MB"@
    }
}

/// A size below 2 to the 53 is held as it is.
pub proof fn lemma_small_sizes_are_exact(n: nat)
    requires
        n < 0x20_0000_0000_0000,
    ensures
        nearest_of_53_bits(n) == n,
{
}

/// Decides [`round_half_even`].
fn rounded_quotient(numerator: u128, denominator: u64) -> (rounded: u128)
    requires
        denominator > 0,
        numerator < 0x8000_0000_0000_0000_0000,
    ensures
        rounded == round_half_even(numerator as nat, denominator as nat),
        rounded <= numerator / (denominator as u128) + 1,
{
    let quotient = numerator / denominator as u128;
    let rest = numerator % denominator as u128;
    if 2 * rest > denominator as u128 || (2 * rest == denominator as u128 && quotient % 2 == 1) {
        quotient + 1
    } else {
        quotient
    }
}

/// Decides [`spacing_at`].
fn spacing(n: u64) -> (step: u64)
    ensures
        step == spacing_at(n as nat),
        1 <= step <= 2048,
{
    if n < 0x20_0000_0000_0000 {
        1
    } else if n < 0x40_0000_0000_0000 {
        2
    } else if n < 0x80_0000_0000_0000 {
        4
    } else if n < 0x100_0000_0000_0000 {
        8
    } else if n < 0x200_0000_0000_0000 {
        16
    } else if n < 0x400_0000_0000_0000 {
        32
    } else if n < 0x800_0000_0000_0000 {
        64
    } else if n < 0x1000_0000_0000_0000 {
        128
    } else if n < 0x2000_0000_0000_0000 {
        256
    } else if n < 0x4000_0000_0000_0000 {
        512
    } else if n < 0x8000_0000_0000_0000 {
        1024
    } else {
        2048
    }
}

/// Appends `bytes` in hundredths of `unit`, with two decimal places.
fn push_in_units(out: &mut String, bytes: u64, unit: u64)
    requires
        unit == KILOBYTE || unit == MEGABYTE,
    ensures
        final(out)@ == old(out)@ + two_places(hundredths(bytes as nat, unit as nat)),
{
    let step = spacing(bytes);
    let held = rounded_quotient(bytes as u128, step) * step as u128;
    assert(held == nearest_of_53_bits(bytes as nat));
    let parts = rounded_quotient(held * 100, unit);
    let whole = (parts / 100) as u64;
    let fraction = (parts % 100) as u64;
    let ghost before = out@;
    push_decimal(out, whole);
    out.push('.');
    push_decimal_padded(out, fraction, 2);
    assert(out@ =~= before + two_places(parts as nat));
}

/// The text for a size of `bytes` bytes: the number of bytes below 1024, the
/// number of KB with two decimal places below 1024 * 1024, and the number of MB
/// with two decimal places from there on.
pub fn format_size(bytes: u64) -> (text: String)
    ensures
        text@ == size_text(bytes as nat),
{
    let mut text = String::new();
    if bytes < KILOBYTE {
        push_decimal(&mut text, bytes);
        text.append(" bytes");
    } else if bytes < MEGABYTE {
        push_in_units(&mut text, bytes, KILOBYTE);
        text.append(" KB");
    } else {
        push_in_units(&mut text, bytes, MEGABYTE);
        text.append(" MB");
    }
    assert(text@ =~= size_text(bytes as nat));
    text
}

} // verus!
