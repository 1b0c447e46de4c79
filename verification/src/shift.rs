//! The signed shift operation used throughout the assembler: a negative
//! shift amount is a logical right shift, a non-negative one a left shift,
//! both at 64-bit width.

use vstd::prelude::*;

verus! {

/// Wrapping 64-bit addition, the modular arithmetic all emitted words use.
pub open spec fn wadd(a: u64, b: u64) -> u64 {
    vstd::wrapping::u64_specs::wrapping_add(a, b)
}

/// An arbitrary integer reduced to a 64-bit word (two's complement).
pub open spec fn to_word(x: int) -> u64 {
    x as u64
}

/// `shift(x, s)`: left shift by `s` when `s >= 0`, logical right shift by
/// `-s` when `s < 0`, at 64-bit unsigned width.
pub open spec fn spec_shift(x: u64, s: i32) -> u64 {
    if s < 0 {
        x >> ((-(s as int)) as u64)
    } else {
        x << (s as u64)
    }
}

/// A 64-bit value shifted by 64 or more bits in either direction is zero.
proof fn lemma_shift_saturates(x: u64, k: u64)
    requires
        k >= 64,
    ensures
        x >> k == 0,
        x << k == 0,
{
    assert(x >> k == 0) by (bit_vector)
        requires
            k >= 64,
    ;
    assert(x << k == 0) by (bit_vector)
        requires
            k >= 64,
    ;
}

pub fn shift_left_or_right(a: u64, shift: i32) -> (r: u64)
    ensures
        r == spec_shift(a, shift),
{
    if shift < 0 {
        if shift <= -64 {
            proof {
                lemma_shift_saturates(a, (-(shift as int)) as u64);
            }
            0
        } else {
            let k: u32 = (-shift) as u32;
            let r = a >> k;
            proof {
                assert(a >> (k as u64) == a >> ((-(shift as int)) as u64));
            }
            r
        }
    } else {
        if shift >= 64 {
            proof {
                lemma_shift_saturates(a, shift as u64);
            }
            0
        } else {
            let k: u32 = shift as u32;
            let r = a << k;
            proof {
                assert(a << (k as u64) == a << (shift as u64));
            }
            r
        }
    }
}

/// The shift law: `spec_shift` is exactly `<<` for non-negative amounts and
/// logical `>>` for negative ones, at 64-bit unsigned width.
pub proof fn lemma_shift_law(x: u64, s: i32)
    ensures
        s >= 0 ==> spec_shift(x, s) == x << (s as u64),
        s < 0 ==> spec_shift(x, s) == x >> ((-(s as int)) as u64),
{
}

/// The arithmetic meaning of the shift: a negative amount divides by a
/// power of two, a non-negative amount that does not overflow multiplies
/// by one, and an amount of 64 or more in either direction yields zero.
pub proof fn lemma_shift_arithmetic(x: u64, s: i32)
    ensures
        -64 < s < 0 ==> spec_shift(x, s) == x as nat / vstd::arithmetic::power2::pow2(
            (-s) as nat,
        ),
        0 <= s < 64 && x * vstd::arithmetic::power2::pow2(s as nat) <= u64::MAX ==> spec_shift(
            x,
            s,
        ) == x * vstd::arithmetic::power2::pow2(s as nat),
        s >= 64 || s <= -64 ==> spec_shift(x, s) == 0,
{
    if -64 < s < 0 {
        vstd::bits::lemma_u64_shr_is_div(x, (-s) as u64);
    }
    if 0 <= s < 64 && x * vstd::arithmetic::power2::pow2(s as nat) <= u64::MAX {
        vstd::bits::lemma_u64_shl_is_mul(x, s as u64);
    }
    if s >= 64 {
        lemma_shift_saturates(x, s as u64);
    }
    if s <= -64 {
        lemma_shift_saturates(x, (-(s as int)) as u64);
    }
}

} // verus!
