use vstd::arithmetic::power2::{lemma2_to64, lemma2_to64_rest, lemma_pow2_adds, lemma_pow2_pos, lemma_pow2_strictly_increases, lemma_pow2_unfold, pow2};
use vstd::prelude::*;

verus! {

/// Why a number of seconds cannot be a duration.
#[derive(Clone, Copy, Debug, PartialEq, Eq, Structural)]
pub enum DurationError {
    /// Below zero.
    Negative,
    /// Infinite or not a number.
    NotFinite,
    /// `2^64` seconds or more.
    Overflow,
}

pub const NANOS_PER_SEC: u64 = 1_000_000_000;

/// The biased exponent field of an IEEE single given by its bits.
pub open spec fn f32_exponent(bits: u32) -> int {
    (bits as int / 0x80_0000) % 0x100
}

/// The stored fraction field.
pub open spec fn f32_fraction(bits: u32) -> int {
    bits as int % 0x80_0000
}

/// The significand, with the hidden bit of a normal number.
pub open spec fn f32_significand(bits: u32) -> nat {
    if f32_exponent(bits) == 0 {
        f32_fraction(bits) as nat
    } else {
        (f32_fraction(bits) + 0x80_0000) as nat
    }
}

/// The power of two the significand is scaled by: the value is `significand * 2^shift`.
pub open spec fn f32_shift(bits: u32) -> int {
    if f32_exponent(bits) == 0 {
        -149
    } else {
        f32_exponent(bits) - 150
    }
}

/// The sign bit is set and the value is not zero.
pub open spec fn f32_below_zero(bits: u32) -> bool {
    bits >= 0x8000_0000 && (f32_exponent(bits) != 0 || f32_fraction(bits) != 0)
}

/// The magnitude is `2^64` or more.
pub open spec fn f32_too_large(bits: u32) -> bool {
    f32_shift(bits) >= 0 && f32_significand(bits) * pow2(f32_shift(bits) as nat) >= pow2(64)
}

/// `n / p` rounded to the nearest integer, ties to the even one.
pub open spec fn round_div(n: nat, p: nat) -> nat
    recommends
        p > 0,
{
    let q = n / p;
    let r = n % p;
    if 2 * r > p || (2 * r == p && q % 2 == 1) {
        q + 1
    } else {
        q
    }
}

/// The magnitude in nanoseconds, rounded to the nearest one (ties to even).
pub open spec fn f32_nanos(bits: u32) -> nat {
    let n = f32_significand(bits) * (NANOS_PER_SEC as nat);
    let e = f32_shift(bits);
    if e >= 0 {
        n * pow2(e as nat)
    } else {
        round_div(n, pow2((-e) as nat))
    }
}

fn pow2_exec(k: u32) -> (r: u128)
    requires
        k < 128,
    ensures
        r == pow2(k as nat),
{
    let mut p: u128 = 1;
    let mut i: u32 = 0;
    proof {
        lemma2_to64();
    }
    while i < k
        invariant
            i <= k < 128,
            p == pow2(i as nat),
        decreases k - i,
    {
        proof {
            lemma_pow2_unfold((i + 1) as nat);
            lemma_pow2_strictly_increases((i + 1) as nat, 128);
            lemma2_to64_rest();
            assert(pow2(128) == 0x100000000000000000000000000000000) by {
                lemma_pow2_adds(64, 64);
            }
        }
        p = p * 2;
        i = i + 1;
    }
    p
}

/// Reads a number of seconds, given as the bits of an IEEE single, as a duration: whole
/// seconds and the nanoseconds after them, the value rounded to the nearest nanosecond.
/// Negative values (other than negative zero), infinities, NaNs, and values of `2^64`
/// seconds or more are refused.
pub fn deserialize_duration_from_f32(seconds_bits: u32) -> (r: Result<(u64, u32), DurationError>)
    ensures
        r == Err::<(u64, u32), DurationError>(DurationError::NotFinite) <==> f32_exponent(seconds_bits) == 255,
        r == Err::<(u64, u32), DurationError>(DurationError::Negative) <==> f32_exponent(seconds_bits) != 255
            && f32_below_zero(seconds_bits),
        r == Err::<(u64, u32), DurationError>(DurationError::Overflow) <==> f32_exponent(seconds_bits) != 255
            && !f32_below_zero(seconds_bits) && f32_too_large(seconds_bits),
        r matches Ok((secs, nanos)) ==> nanos < NANOS_PER_SEC && secs * NANOS_PER_SEC + nanos == f32_nanos(seconds_bits),
{
    let exp: u32 = (seconds_bits / 0x80_0000) % 0x100;
    let frac: u32 = seconds_bits % 0x80_0000;
    if exp == 255 {
        return Err(DurationError::NotFinite);
    }
    if seconds_bits >= 0x8000_0000 && (exp != 0 || frac != 0) {
        return Err(DurationError::Negative);
    }
    let m: u64 = if exp == 0 { frac as u64 } else { frac as u64 + 0x80_0000 };
    assert(m == f32_significand(seconds_bits));
    assert(m < 0x100_0000);
    proof {
        lemma2_to64();
        lemma2_to64_rest();
    }
    if exp >= 191 {
        proof {
            let k = (exp - 150) as nat;
            lemma_pow2_adds(41, (k - 41) as nat);
            lemma_pow2_pos((k - 41) as nat);
            lemma_pow2_adds(23, 41);
            assert(pow2(41) * pow2((k - 41) as nat) >= pow2(41)) by (nonlinear_arith)
                requires pow2((k - 41) as nat) >= 1, pow2(41) > 0;
            assert(m * pow2(k) >= pow2(23) * pow2(41)) by (nonlinear_arith)
                requires m >= pow2(23), pow2(k) >= pow2(41), pow2(23) > 0;
        }
        return Err(DurationError::Overflow);
    }
    let n: u64 = m * NANOS_PER_SEC;
    let total: u128;
    if exp >= 150 {
        let k: u32 = exp - 150;
        let p = pow2_exec(k);
        proof {
            if k < 40 {
                lemma_pow2_strictly_increases(k as nat, 40);
            }
            lemma_pow2_adds(24, 40);
            assert(m * p < pow2(24) * pow2(40)) by (nonlinear_arith)
                requires m < pow2(24), p <= pow2(40), p > 0;
            assert(n * p == (m * p) * NANOS_PER_SEC) by (nonlinear_arith)
                requires n == m * NANOS_PER_SEC;
            assert(n * p < 0x1_0000_0000_0000_0000_0000_0000) by (nonlinear_arith)
                requires n * p == (m * p) * NANOS_PER_SEC, m * p < 0x1_0000_0000_0000_0000;
        }
        total = n as u128 * p;
        proof {
            assert(total / (NANOS_PER_SEC as u128) == m * p) by (nonlinear_arith)
                requires total == (m * p) * NANOS_PER_SEC;
        }
    } else {
        let k: u32 = if exp == 0 { 149 } else { 150 - exp };
        if k >= 64 {
            proof {
                if k > 64 {
                    lemma_pow2_strictly_increases(64, k as nat);
                }
                let pk = pow2(k as nat);
                assert(n < 0x40_0000_0000_0000);
                let nn = n as nat;
                assert(nn / pk == 0 && nn % pk == nn) by (nonlinear_arith)
                    requires nn < pk, pk > 0;
            }
            total = 0;
        } else {
            let p = pow2_exec(k) as u64;
            proof {
                lemma_pow2_pos(k as nat);
                if k < 63 {
                    lemma_pow2_strictly_increases(k as nat, 64);
                }
            }
            let q = n / p;
            let rem = n % p;
            if 2 * (rem as u128) > p as u128 || (2 * (rem as u128) == p as u128 && q % 2 == 1) {
                total = q as u128 + 1;
            } else {
                total = q as u128;
            }
            proof {
                assert(q <= n) by (nonlinear_arith)
                    requires q == n / p, p > 0;
            }
        }
    }
    assert(total == f32_nanos(seconds_bits));
    let secs: u64 = (total / NANOS_PER_SEC as u128) as u64;
    let nanos: u32 = (total % NANOS_PER_SEC as u128) as u32;
    Ok((secs, nanos))
}

} // verus!
