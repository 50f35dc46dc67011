//! Truncation toward zero of a binary64 floating-point number, given by its
//! IEEE 754 bits, to a 64-bit integer: the fractional part is dropped, values
//! beyond the `i64` range saturate at its bounds, and NaN gives 0 (as the
//! `as i64` conversion of an `f64` does).
use vstd::prelude::*;
use vstd::arithmetic::power2::{
    lemma2_to64, lemma2_to64_rest, lemma_pow2_adds, lemma_pow2_strictly_increases, pow2,
};

verus! {

/// The biased exponent field (bits 52 to 62).
pub open spec fn exponent_field(bits: u64) -> int {
    (bits as int / pow2(52) as int) % 2048
}

/// The fraction field (bits 0 to 51).
pub open spec fn fraction_field(bits: u64) -> int {
    bits as int % pow2(52) as int
}

/// The sign bit (bit 63) is set.
pub open spec fn sign_bit(bits: u64) -> bool {
    bits as int >= pow2(63) as int
}

/// The integer part of the magnitude of the number, for a finite number; for
/// an infinity, some value of at least 2^63.
pub open spec fn trunc_magnitude(bits: u64) -> int {
    let e = exponent_field(bits);
    let sig = fraction_field(bits) + pow2(52) as int;
    if e == 0 {
        0
    } else if e < 1075 {
        sig / pow2((1075 - e) as nat) as int
    } else {
        sig * pow2((e - 1075) as nat) as int
    }
}

/// The number with these bits, truncated toward zero and held to the `i64`
/// range; NaN gives 0.
pub open spec fn float_to_i64(bits: u64) -> int {
    if exponent_field(bits) == 2047 && fraction_field(bits) != 0 {
        0
    } else {
        let v = if sign_bit(bits) {
            -trunc_magnitude(bits)
        } else {
            trunc_magnitude(bits)
        };
        if v < i64::MIN {
            i64::MIN as int
        } else if v > i64::MAX {
            i64::MAX as int
        } else {
            v
        }
    }
}

fn pow2_u64(s: u64) -> (p: u64)
    requires
        s < 63,
    ensures
        p as nat == pow2(s as nat),
{
    proof {
        lemma2_to64();
    }
    let mut p: u64 = 1;
    let mut k: u64 = 0;
    while k < s
        invariant
            k <= s < 63,
            p as nat == pow2(k as nat),
        decreases s - k,
    {
        proof {
            lemma2_to64();
            lemma_pow2_adds(k as nat, 1);
            lemma_pow2_strictly_increases((k + 1) as nat, 63);
            lemma2_to64_rest();
        }
        p = p * 2;
        k = k + 1;
    }
    p
}

/// The floating-point number with bits `bits`, truncated toward zero to an
/// `i64`.
pub fn trunc_float_bits(bits: u64) -> (r: i64)
    ensures
        r as int == float_to_i64(bits),
{
    proof {
        lemma2_to64();
        lemma2_to64_rest();
    }
    let e: u64 = (bits / 0x10_0000_0000_0000) % 2048;
    let frac: u64 = bits % 0x10_0000_0000_0000;
    let neg: bool = bits >= 0x8000_0000_0000_0000;
    if e == 2047 && frac != 0 {
        return 0;
    }
    let sig: u64 = frac + 0x10_0000_0000_0000;
    let ghost m = trunc_magnitude(bits);
    // The magnitude, when it is below 2^63.
    let mag: u64;
    if e == 0 {
        mag = 0;
    } else if e < 1075 {
        let s: u64 = 1075 - e;
        if s >= 53 {
            proof {
                if s > 53 {
                    lemma_pow2_strictly_increases(53, s as nat);
                }
                let d = pow2(s as nat) as int;
                assert(sig as int / d == 0) by (nonlinear_arith)
                    requires
                        0 <= sig < d,
                ;
            }
            mag = 0;
        } else {
            let p = pow2_u64(s);
            mag = sig / p;
        }
    } else {
        let s: u64 = e - 1075;
        if s >= 11 {
            proof {
                if s > 11 {
                    lemma_pow2_strictly_increases(11, s as nat);
                }
                let d = pow2(s as nat) as int;
                assert(sig as int * d >= 0x10_0000_0000_0000 * 2048) by (nonlinear_arith)
                    requires
                        sig >= 0x10_0000_0000_0000,
                        d >= 2048,
                ;
            }
            if neg {
                return i64::MIN;
            } else {
                return i64::MAX;
            }
        }
        let p = pow2_u64(s);
        proof {
            if s < 10 {
                lemma_pow2_strictly_increases(s as nat, 10);
            }
            assert(sig * p < 0x8000_0000_0000_0000) by (nonlinear_arith)
                requires
                    sig < 0x20_0000_0000_0000,
                    p <= 1024,
            ;
        }
        mag = sig * p;
    }
    assert(mag as int == m);
    assert(mag < 0x8000_0000_0000_0000);
    if neg {
        -(mag as i64)
    } else {
        mag as i64
    }
}

} // verus!
