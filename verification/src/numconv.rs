//! Conversions between 64-bit IEEE-754 bit patterns and signed integers,
//! carried out on the bits alone: truncation toward zero with saturation,
//! and integer-to-double rounding to nearest, ties to even.

use vstd::prelude::*;

verus! {

/// Truncation toward zero of the double `bits` encodes, saturated to the
/// `i64` range; a NaN maps to 0. This mirrors Rust's `as i64` on `f64`.
pub open spec fn spec_f64_trunc(bits: u64) -> i64 {
    let sign = bits >> 63;
    let exp_raw = (bits >> 52) & 0x7ff;
    let frac = bits & 0xfffffffffffff;
    if exp_raw == 0x7ff {
        if frac != 0 {
            0
        } else if sign == 1 {
            i64::MIN
        } else {
            i64::MAX
        }
    } else if exp_raw < 1023 {
        0
    } else if exp_raw >= 1023 + 63 {
        if sign == 1 {
            i64::MIN
        } else {
            i64::MAX
        }
    } else {
        let e = (exp_raw - 1023) as u64;
        let m = 0x10000000000000u64 | frac;
        let t = if e >= 52 {
            m << ((e - 52) as u64)
        } else {
            m >> ((52 - e) as u64)
        };
        if sign == 1 {
            (0 - t as i64) as i64
        } else {
            t as i64
        }
    }
}

/// Computes `spec_f64_trunc` on the bits of a double.
pub fn f64_bits_to_i64_trunc(bits: u64) -> (r: i64)
    ensures
        r == spec_f64_trunc(bits),
{
    let sign = bits >> 63u64;
    let exp_raw = (bits >> 52u64) & 0x7ff;
    let frac = bits & 0xfffffffffffff;
    if exp_raw == 0x7ff {
        if frac != 0 {
            0
        } else if sign == 1 {
            i64::MIN
        } else {
            i64::MAX
        }
    } else if exp_raw < 1023 {
        0
    } else if exp_raw >= 1023 + 63 {
        if sign == 1 {
            i64::MIN
        } else {
            i64::MAX
        }
    } else {
        let e = exp_raw - 1023;
        let m = 0x10000000000000u64 | frac;
        let t: u64;
        if e >= 52 {
            t = m << (e - 52);
            proof {
                let sh = (e - 52) as u64;
                assert(52 <= e <= 62 ==> ((0x10000000000000u64 | (bits & 0xfffffffffffff)) << ((e
                    - 52) as u64)) < 0x8000000000000000) by (bit_vector);
                assert(t < 0x8000000000000000);
            }
        } else {
            t = m >> (52 - e);
            proof {
                assert(e < 52 ==> ((0x10000000000000u64 | (bits & 0xfffffffffffff)) >> ((52 - e)
                    as u64)) < 0x8000000000000000) by (bit_vector);
                assert(t < 0x8000000000000000);
            }
        }
        if sign == 1 {
            proof {
                assert(t < 0x8000000000000000 ==> (t as i64) >= 0 && (t as i64) <= i64::MAX)
                    by (bit_vector);
            }
            0 - (t as i64)
        } else {
            t as i64
        }
    }
}

/// The floor of the base-two logarithm.
pub open spec fn log2u(m: u64) -> int
    decreases m,
{
    if m < 2 {
        0
    } else {
        1 + log2u(m / 2)
    }
}

/// The absolute value of `i` as an unsigned word.
pub open spec fn abs_u64(i: i64) -> u64 {
    if i >= 0 {
        i as u64
    } else {
        ((0 - i as int)) as u64
    }
}

/// The bits of the double nearest to `i`, ties to even: the mantissa is the
/// top 53 bits of `|i|`, rounded from the discarded bits. This mirrors
/// Rust's `as f64` on `i64`.
pub open spec fn spec_i64_to_f64_bits(i: i64) -> u64 {
    if i == 0 {
        0
    } else {
        let sign: u64 = if i < 0 {
            1
        } else {
            0
        };
        let m = abs_u64(i);
        let p = log2u(m);
        if p <= 52 {
            (sign << 63) | (((p + 1023) as u64) << 52) | ((m << ((52 - p) as u64))
                & 0xfffffffffffff)
        } else {
            let sh = (p - 52) as u64;
            let base = m >> sh;
            let rest = m & (((1u64 << sh) - 1) as u64);
            let half = 1u64 << ((sh - 1) as u64);
            let rounded: u64 = if rest > half {
                (base + 1) as u64
            } else if rest < half {
                base
            } else {
                (base + (base & 1)) as u64
            };
            if rounded == 0x20000000000000 {
                (sign << 63) | (((p + 1024) as u64) << 52)
            } else {
                (sign << 63) | (((p + 1023) as u64) << 52) | (rounded & 0xfffffffffffff)
            }
        }
    }
}

/// Computes `spec_i64_to_f64_bits`.
pub fn i64_to_f64_bits(i: i64) -> (r: u64)
    ensures
        r == spec_i64_to_f64_bits(i),
{
    if i == 0 {
        return 0;
    }
    let sign: u64 = if i < 0 {
        1
    } else {
        0
    };
    let m: u64 = if i >= 0 {
        i as u64
    } else if i == i64::MIN {
        0x8000000000000000u64
    } else {
        (-i) as u64
    };
    proof {
        assert(m == abs_u64(i));
    }
    // The highest set bit of m, found by repeated halving.
    let mut cur: u64 = m;
    let mut p: u64 = 0;
    proof {
        assert(m >> 0u64 == m) by (bit_vector);
    }
    while cur >= 2
        invariant
            cur == m >> p,
            p <= 63,
            log2u(m) == p + log2u(cur),
            m == abs_u64(i),
            i != 0,
            cur >= 1,
        decreases cur,
    {
        proof {
            assert(m >> 63u64 <= 1) by (bit_vector);
            assert(p <= 62);
            assert(p <= 62 ==> (m >> p) / 2 == m >> ((p + 1) as u64)) by (bit_vector);
        }
        cur = cur / 2;
        p = p + 1;
    }
    proof {
        assert(log2u(m) == p);
    }
    if p <= 52 {
        (sign << 63u64) | ((p + 1023) << 52u64) | ((m << (52 - p)) & 0xfffffffffffff)
    } else {
        let sh = p - 52;
        proof {
            assert(1 <= sh <= 11 ==> (1u64 << sh) >= 1 && (m >> sh) < 0x8000000000000000)
                by (bit_vector);
        }
        let base = m >> sh;
        let rest = m & ((1u64 << sh) - 1);
        let half = 1u64 << (sh - 1);
        proof {
            assert((base & 1) <= 1) by (bit_vector);
        }
        let rounded: u64 = if rest > half {
            base + 1
        } else if rest < half {
            base
        } else {
            base + (base & 1)
        };
        if rounded == 0x20000000000000 {
            (sign << 63u64) | ((p + 1024) << 52u64)
        } else {
            (sign << 63u64) | ((p + 1023) << 52u64) | (rounded & 0xfffffffffffff)
        }
    }
}

} // verus!
