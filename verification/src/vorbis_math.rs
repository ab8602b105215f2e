//! The small functions of the Vorbis format: the width of a number in
//! bits, the size of an implicit lookup table, and the parts of a packed
//! float.

use num_traits::PrimInt;
use vstd::arithmetic::power::{lemma1_pow, lemma_pow1, lemma_pow_increases, lemma_pow_positive, pow};
use vstd::arithmetic::power2::pow2;
use vstd::prelude::*;

verus! {

/// The number of bits needed to write a number: zero for zero, and for
/// any other number one more than for its half.
pub open spec fn bit_width(value: nat) -> nat
    decreases value,
{
    if value == 0 {
        0
    } else {
        1 + bit_width(value / 2)
    }
}

/// A number below two to the power of `bits` is at most `bits` bits wide.
pub proof fn lemma_bit_width_bound(value: nat, bits: nat)
    requires
        value < pow2(bits),
    ensures
        bit_width(value) <= bits,
    decreases bits,
{
    if value > 0 {
        if bits == 0 {
            vstd::arithmetic::power2::lemma2_to64();
        } else {
            vstd::arithmetic::power2::lemma_pow2_unfold(bits);
            lemma_bit_width_bound(value / 2, (bits - 1) as nat);
        }
    }
}

/// `PrimInt::leading_zeros` of num-traits on a `u32`: the number of zero
/// bits in front of the highest set bit, which is 32 less the number of
/// bits that the value is wide.
#[verifier::external_body]
fn leading_zeros(value: u32) -> (zeros: u32)
    ensures
        zeros <= 32,
        zeros == 32 - bit_width(value as nat),
{
    PrimInt::leading_zeros(value)
}

/// The number of bits needed to write `x`: zero for zero, and otherwise
/// one more than the position of its highest set bit.
pub fn ilog(x: u32) -> (bits: u32)
    ensures
        bits == bit_width(x as nat),
        bits <= 32,
{
    32 - leading_zeros(x)
}

/// `size` is the largest number whose power `dimensions` is at most
/// `entries`.
pub open spec fn is_lookup1(entries: nat, dimensions: nat, size: nat) -> bool {
    pow(size as int, dimensions) <= entries < pow(size + 1 as int, dimensions)
}

/// The size of an implicit lookup table: the largest number whose power
/// `dimensions` is at most `entries`; `entries` where `dimensions` is
/// zero; 1 where `entries` is zero.
pub open spec fn lookup1_size(entries: nat, dimensions: nat) -> nat {
    if entries == 0 {
        1
    } else if dimensions == 0 {
        entries
    } else {
        choose|size: nat| is_lookup1(entries, dimensions, size)
    }
}

/// A larger base has a power that is no smaller.
pub proof fn lemma_pow_base_increases(small: nat, large: nat, exponent: nat)
    requires
        small <= large,
    ensures
        pow(small as int, exponent) <= pow(large as int, exponent),
        0 <= pow(small as int, exponent),
    decreases exponent,
{
    reveal(pow);
    if exponent > 0 {
        lemma_pow_base_increases(small, large, (exponent - 1) as nat);
        let a = pow(small as int, (exponent - 1) as nat);
        let b = pow(large as int, (exponent - 1) as nat);
        assert(small * a <= large * b && 0 <= small * a) by (nonlinear_arith)
            requires
                0 <= small <= large,
                0 <= a <= b,
        ;
    }
}

/// Only one number is the largest whose power is at most `entries`.
pub proof fn lemma_lookup1_unique(entries: nat, dimensions: nat, size: nat)
    requires
        entries >= 1,
        dimensions >= 1,
        is_lookup1(entries, dimensions, size),
    ensures
        lookup1_size(entries, dimensions) == size,
{
    let other = lookup1_size(entries, dimensions);
    assert(is_lookup1(entries, dimensions, other));
    if other < size {
        lemma_pow_base_increases(other + 1, size, dimensions);
    }
    if size < other {
        lemma_pow_base_increases(size + 1, other, dimensions);
    }
}

/// Whether `base` to the power of `exponent` is at most `limit`.
fn power_fits(base: u32, exponent: u32, limit: u32) -> (fits: bool)
    requires
        base >= 1,
    ensures
        fits == (pow(base as int, exponent as nat) <= limit),
{
    if base == 1 {
        proof {
            lemma1_pow(exponent as nat);
        }
        return 1 <= limit;
    }
    if limit == 0 {
        proof {
            lemma_pow_positive(base as int, exponent as nat);
        }
        return false;
    }
    let mut power: u64 = 1;
    let mut i: u32 = 0;
    proof {
        vstd::arithmetic::power::lemma_pow0(base as int);
    }
    while i < exponent
        invariant
            i <= exponent,
            base >= 2,
            power == pow(base as int, i as nat),
            1 <= power <= limit,
        decreases exponent - i,
    {
        proof {
            assert(pow(base as int, (i + 1) as nat) == base * pow(base as int, i as nat)) by {
                reveal(pow);
            }
            assert(1 <= power * base <= 0xffff_ffff * 0xffff_ffff) by (nonlinear_arith)
                requires
                    1 <= power <= 0xffff_ffff,
                    1 <= base <= 0xffff_ffff,
            ;
        }
        power = power * (base as u64);
        i += 1;
        if power > limit as u64 {
            proof {
                lemma_pow_increases(base as nat, i as nat, exponent as nat);
            }
            return false;
        }
    }
    true
}

/// The size of an implicit lookup table: the largest number whose power
/// `dimensions` is at most `entries`. Where there is no largest such number
/// from 1 on, because `dimensions` is zero, it is `entries`; where there is
/// none at all, because `entries` is zero, it is 1.
pub fn lookup1_values(entries: u32, dimensions: u32) -> (values: u32)
    ensures
        values == lookup1_size(entries as nat, dimensions as nat),
        1 <= values,
        entries >= 1 ==> values <= entries,
        entries >= 1 && dimensions >= 1 ==> pow(values as int, dimensions as nat) <= entries < pow(
            values + 1,
            dimensions as nat,
        ),
        entries >= 1 && dimensions == 0 ==> values == entries,
        entries <= 1 ==> values == 1,
{
    if entries == 0 {
        return 1;
    }
    let mut low: u32 = 1;
    let mut high: u32 = entries;
    proof {
        lemma1_pow(dimensions as nat);
        if dimensions >= 1 {
            lemma_pow1(entries + 1);
            lemma_pow_increases((entries + 1) as nat, 1, dimensions as nat);
        }
    }
    while low < high
        invariant
            1 <= low <= high <= entries,
            pow(low as int, dimensions as nat) <= entries,
            dimensions >= 1 ==> entries < pow(high + 1, dimensions as nat),
            dimensions == 0 ==> high == entries,
        decreases high - low,
    {
        let mid: u32 = (((low as u64) + (high as u64) + 1) / 2) as u32;
        if power_fits(mid, dimensions, entries) {
            low = mid;
        } else {
            proof {
                if dimensions == 0 {
                    vstd::arithmetic::power::lemma_pow0(mid as int);
                }
            }
            high = mid - 1;
        }
    }
    proof {
        if dimensions >= 1 {
            lemma_lookup1_unique(entries as nat, dimensions as nat, low as nat);
        }
    }
    low
}

/// A number in the packed float format of Vorbis, in its parts: it stands
/// for `mantissa` times two to the power of `exponent`.
#[derive(Debug, Clone, Copy, PartialEq, Eq, Structural)]
pub struct VorbisFloat {
    pub mantissa: i32,
    pub exponent: i32,
}

/// The parts of a packed float: the mantissa in the low 21 bits, with the
/// sign in the highest bit, and the exponent in the ten bits between them,
/// which counts from 788.
pub open spec fn unpacked(x: u32) -> VorbisFloat {
    let mantissa = (x & 0x1f_ffff) as i32;
    VorbisFloat {
        mantissa: if x & 0x8000_0000 != 0 {
            (0 - mantissa) as i32
        } else {
            mantissa
        },
        exponent: (((x & 0x7fe0_0000) >> 21) as i32 - 788) as i32,
    }
}

/// Takes a packed float apart.
pub fn float32_unpack(x: u32) -> (parts: VorbisFloat)
    ensures
        parts == unpacked(x),
        -0x1f_ffff <= parts.mantissa <= 0x1f_ffff,
        -788 <= parts.exponent <= 235,
{
    let mantissa_bits: u32 = x & 0x1f_ffff;
    let sign: u32 = x & 0x8000_0000;
    let exponent_bits: u32 = (x & 0x7fe0_0000) >> 21;
    proof {
        assert(x & 0x1f_ffff <= 0x1f_ffff) by (bit_vector);
        assert((x & 0x7fe0_0000) >> 21 <= 0x3ff) by (bit_vector);
    }
    let mantissa: i32 = mantissa_bits as i32;
    let signed_mantissa: i32 = if sign != 0 {
        -mantissa
    } else {
        mantissa
    };
    VorbisFloat { mantissa: signed_mantissa, exponent: exponent_bits as i32 - 788 }
}

} // verus!
