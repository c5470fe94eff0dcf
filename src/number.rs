//! Reading numbers out of the IEEE-754 bit patterns the engine stores.
use vstd::arithmetic::power2::{lemma2_to64, lemma_pow2_strictly_increases, lemma_pow2_unfold, pow2};
use vstd::bits::{lemma_u64_shl_is_mul, lemma_u64_shr_is_div};
use vstd::prelude::*;

verus! {

/// The biased exponent field of a double.
pub open spec fn exponent_of(bits: u64) -> u64 {
    (bits >> 52u64) & 0x7ffu64
}

/// The fraction field of a double.
pub open spec fn fraction_of(bits: u64) -> u64 {
    bits & 0xf_ffff_ffff_ffffu64
}

/// Whether the sign bit is set.
pub open spec fn sign_of(bits: u64) -> bool {
    (bits >> 63u64) == 1
}

/// Whether the bits encode a NaN.
pub open spec fn is_nan(bits: u64) -> bool {
    exponent_of(bits) == 0x7ff && fraction_of(bits) != 0
}

/// The double rounded toward zero and saturated to the range of `u64`, with NaN giving zero:
/// the result of a saturating float-to-integer cast. A finite positive double is its
/// mantissa (the fraction with the hidden bit) times two to the power of its exponent less
/// 1075; that product is rounded down.
pub open spec fn truncated(bits: u64) -> u64 {
    let e = exponent_of(bits) as int;
    let m: nat = (fraction_of(bits) + 0x10_0000_0000_0000) as nat;
    if is_nan(bits) || sign_of(bits) || e < 1023 {
        0
    } else if e >= 1087 {
        u64::MAX
    } else if e >= 1075 {
        (m * pow2((e - 1075) as nat)) as u64
    } else {
        (m / pow2((1075 - e) as nat)) as u64
    }
}

/// Whether the bits encode NaN.
pub fn bits_are_nan(bits: u64) -> (r: bool)
    ensures
        r == is_nan(bits),
{
    ((bits >> 52u64) & 0x7ffu64) == 0x7ff && (bits & 0xf_ffff_ffff_ffffu64) != 0
}

/// Truncates a double toward zero into a `u64`, as [`truncated`] describes.
pub fn truncate_bits(bits: u64) -> (r: u64)
    ensures
        r == truncated(bits),
{
    let e = (bits >> 52u64) & 0x7ffu64;
    let f = bits & 0xf_ffff_ffff_ffffu64;
    let m = f | 0x10_0000_0000_0000u64;
    proof {
        assert(f < 0x10_0000_0000_0000u64) by (bit_vector)
            requires
                f == bits & 0xf_ffff_ffff_ffffu64,
        ;
        assert(m == f + 0x10_0000_0000_0000u64) by (bit_vector)
            requires
                f < 0x10_0000_0000_0000u64,
                m == f | 0x10_0000_0000_0000u64,
        ;
        assert(e <= 0x7ff) by (bit_vector)
            requires
                e == (bits >> 52u64) & 0x7ffu64,
        ;
    }
    if bits_are_nan(bits) || (bits >> 63u64) == 1 || e < 1023 {
        0
    } else if e >= 1087 {
        u64::MAX
    } else if e >= 1075 {
        let sh = e - 1075;
        proof {
            lemma2_to64();
            if sh < 11 {
                lemma_pow2_strictly_increases(sh as nat, 11);
            }
            assert(m * pow2(sh as nat) <= u64::MAX) by (nonlinear_arith)
                requires
                    m < 0x20_0000_0000_0000,
                    pow2(sh as nat) <= 2048,
            ;
            lemma_u64_shl_is_mul(m, sh);
        }
        m << sh
    } else {
        let sh = 1075 - e;
        proof {
            lemma_u64_shr_is_div(m, sh);
        }
        m >> sh
    }
}

/// A double truncated toward zero and saturated to `min..=max`, NaN giving zero: the result
/// of a saturating cast to a signed integer type with that range.
pub open spec fn truncated_signed(bits: u64, min: int, max: int) -> int {
    let magnitude = truncated(bits & 0x7fff_ffff_ffff_ffffu64) as int;
    if is_nan(bits) {
        0
    } else if sign_of(bits) {
        if -magnitude < min {
            min
        } else {
            -magnitude
        }
    } else if magnitude > max {
        max
    } else {
        magnitude
    }
}

/// Truncates a double into `min..=max`, as [`truncated_signed`] describes.
pub fn truncate_signed(bits: u64, min: i64, max: i64) -> (r: i64)
    requires
        min <= 0 <= max,
    ensures
        r as int == truncated_signed(bits, min as int, max as int),
{
    let magnitude = truncate_bits(bits & 0x7fff_ffff_ffff_ffffu64);
    if bits_are_nan(bits) {
        0
    } else if (bits >> 63u64) == 1 {
        if magnitude > (-(min as i128)) as u64 {
            min
        } else {
            -(magnitude as i128) as i64
        }
    } else if magnitude > max as u64 {
        max
    } else {
        magnitude as i64
    }
}

/// Truncates a double into `0..=max`: the result of a saturating cast to an unsigned integer
/// type with that range.
pub fn truncate_unsigned(bits: u64, max: u64) -> (r: u64)
    ensures
        r == if truncated(bits) > max {
            max
        } else {
            truncated(bits)
        },
{
    let t = truncate_bits(bits);
    if t > max {
        max
    } else {
        t
    }
}

/// Truncates a double toward zero into a `usize`, saturating at `usize::MAX`.
pub fn truncate_to_usize(bits: u64) -> (r: usize)
    ensures
        r as int == if truncated(bits) > usize::MAX { usize::MAX as int } else { truncated(bits) as int },
{
    let t = truncate_bits(bits);
    if t > usize::MAX as u64 {
        usize::MAX
    } else {
        t as usize
    }
}


/// The position of the highest set bit of `n` (zero for zero and one).
pub open spec fn high_bit(n: u64) -> nat
    decreases n,
{
    if n <= 1 {
        0
    } else {
        1 + high_bit(n / 2)
    }
}

/// The bits of the double whose value is `n`, for `n` below 2^53: the exponent is that of the
/// highest set bit, and the fraction is the bits below it moved to the top of the field.
pub open spec fn double_of(n: u64) -> u64 {
    if n == 0 {
        0
    } else {
        (((1023 + high_bit(n)) as u64) << 52u64) | ((n << ((52 - high_bit(n)) as u64))
            & 0xf_ffff_ffff_ffffu64)
    }
}

proof fn lemma_high_bit_bound(n: u64, k: nat)
    requires
        k >= 1,
        n < pow2(k),
    ensures
        high_bit(n) < k,
    decreases k,
{
    if n > 1 {
        lemma_pow2_unfold(k);
        if k == 1 {
            vstd::arithmetic::power2::lemma2_to64();
        } else {
            lemma_high_bit_bound(n / 2, (k - 1) as nat);
        }
    }
}

/// The bits of the double whose value is `n`, as [`double_of`] describes.
pub fn double_bits(n: u64) -> (r: u64)
    requires
        n < 0x20_0000_0000_0000,
    ensures
        r == double_of(n),
{
    if n == 0 {
        return 0;
    }
    let mut e: u64 = 0;
    let mut t: u64 = n;
    proof {
        vstd::arithmetic::power2::lemma2_to64_rest();
        lemma_high_bit_bound(n, 53);
    }
    while t > 1
        invariant
            t >= 1,
            high_bit(n) == e + high_bit(t),
            high_bit(n) <= 52,
        decreases t,
    {
        t = t / 2;
        e = e + 1;
    }
    ((1023 + e) << 52u64) | ((n << (52 - e)) & 0xf_ffff_ffff_ffffu64)
}

} // verus!
