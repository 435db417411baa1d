//! Human-readable rendering of a byte count: the count is divided by 1024
//! until it falls under 1024 or the largest unit is reached, and the scaled
//! value is printed in decimal followed by the unit letter.

use vstd::prelude::*;
use vstd::string::StringExecFns;

verus! {

/// The unit letter for scale step `i`: bytes, kibi, mebi, gibi, tebi.
pub open spec fn unit_label(i: nat) -> Seq<char> {
    if i == 0 {
        "B"@
    } else if i == 1 {
        "K"@
    } else if i == 2 {
        "M"@
    } else if i == 3 {
        "G"@
    } else {
        "T"@
    }
}

/// The scale step reached from value `b` at step `i`: divide by 1024 while
/// the value is at least 1024 and a larger unit remains.
pub open spec fn scale_index(b: nat, i: nat) -> nat
    decreases 4 - i,
{
    if b >= 1024 && i < 4 {
        scale_index(b / 1024, i + 1)
    } else {
        i
    }
}

/// The value left when scaling stops, starting from value `b` at step `i`.
pub open spec fn scaled_value(b: nat, i: nat) -> nat
    decreases 4 - i,
{
    if b >= 1024 && i < 4 {
        scaled_value(b / 1024, i + 1)
    } else {
        b
    }
}

/// The characters of digit `d`, for `d < 10`.
pub open spec fn digit_seq(d: nat) -> Seq<char> {
    if d == 0 {
        "0"@
    } else if d == 1 {
        "1"@
    } else if d == 2 {
        "2"@
    } else if d == 3 {
        "3"@
    } else if d == 4 {
        "4"@
    } else if d == 5 {
        "5"@
    } else if d == 6 {
        "6"@
    } else if d == 7 {
        "7"@
    } else if d == 8 {
        "8"@
    } else {
        "9"@
    }
}

/// The decimal rendering of `n`: its digits, most significant first, with no
/// leading zero except for `n == 0` itself.
pub open spec fn dec_digits(n: nat) -> Seq<char>
    decreases n,
{
    if n < 10 {
        digit_seq(n)
    } else {
        dec_digits(n / 10) + digit_seq(n % 10)
    }
}

fn digit_str(d: u64) -> (r: &'static str)
    requires
        d < 10,
    ensures
        r@ == digit_seq(d as nat),
{
    if d == 0 {
        "0"
    } else if d == 1 {
        "1"
    } else if d == 2 {
        "2"
    } else if d == 3 {
        "3"
    } else if d == 4 {
        "4"
    } else if d == 5 {
        "5"
    } else if d == 6 {
        "6"
    } else if d == 7 {
        "7"
    } else if d == 8 {
        "8"
    } else {
        "9"
    }
}

/// Render `n` in decimal.
pub fn u64_to_decimal(n: u64) -> (r: String)
    ensures
        r@ == dec_digits(n as nat),
    decreases n,
{
    if n < 10 {
        digit_str(n).to_owned()
    } else {
        let mut s = u64_to_decimal(n / 10);
        s.append(digit_str(n % 10));
        s
    }
}

fn unit_str(i: usize) -> (r: &'static str)
    ensures
        r@ == unit_label(i as nat),
{
    if i == 0 {
        "B"
    } else if i == 1 {
        "K"
    } else if i == 2 {
        "M"
    } else if i == 3 {
        "G"
    } else {
        "T"
    }
}

/// Convert a byte count to a human readable form: the count scaled down by
/// 1024 at a time until it is under 1024 or the largest unit is reached,
/// rendered in decimal, followed by the unit letter.
///
/// i.e.: 100 000 bytes = "97K"
pub fn bytes_to_human_readable(bytes: u64) -> (r: String)
    ensures
        r@ == dec_digits(scaled_value(bytes as nat, 0)) + unit_label(scale_index(bytes as nat, 0)),
{
    let mut b = bytes;
    let mut i: usize = 0;

    while b >= 1024 && i < 4
        invariant
            i <= 4,
            scale_index(bytes as nat, 0) == scale_index(b as nat, i as nat),
            scaled_value(bytes as nat, 0) == scaled_value(b as nat, i as nat),
        decreases 4 - i,
    {
        b = b / 1024;
        i = i + 1;
    }

    let mut s = u64_to_decimal(b);
    s.append(unit_str(i));
    s
}

} // verus!
