//! Script numbers are IEEE-754 binary64 values, kept as their bit patterns.
//! The object model makes one kind of number itself: the length of an array.

use vstd::prelude::*;
use vstd::arithmetic::power2::{pow2, lemma2_to64, lemma2_to64_rest, lemma_pow2_adds, lemma_pow2_pos, lemma_pow2_unfold};

verus! {

/// The place of the highest set bit of a positive number.
pub open spec fn log2_floor(n: nat) -> nat
    decreases n,
{
    if n <= 1 {
        0
    } else {
        1 + log2_floor(n / 2)
    }
}

/// `n / d` rounded to the nearest integer, a tie going to the even one.
pub open spec fn round_half_even(n: nat, d: nat) -> nat {
    let q = n / d;
    let r = n % d;
    if 2 * r > d || (2 * r == d && q % 2 == 1) {
        q + 1
    } else {
        q
    }
}

/// The bit pattern of the binary64 number nearest to a natural number below
/// 2^64: zero for zero, else the biased exponent above a 53-bit significand
/// whose leading one is implied (and, when rounding carries, moves into the
/// exponent).
pub open spec fn number_of_length(n: nat) -> nat {
    if n == 0 {
        0
    } else {
        let e = log2_floor(n);
        let significand = if e <= 52 {
            n * pow2((52 - e) as nat)
        } else {
            round_half_even(n, pow2((e - 52) as nat))
        };
        (1022 + e) * pow2(52) + significand
    }
}

/// Two to the power `e`, computed.
fn power_of_two(e: u32) -> (r: u64)
    requires
        e < 64,
    ensures
        r == pow2(e as nat),
{
    let mut r: u64 = 1;
    let mut i: u32 = 0;
    proof {
        lemma2_to64();
    }
    while i < e
        invariant
            i <= e < 64,
            r == pow2(i as nat),
        decreases e - i,
    {
        proof {
            lemma_pow2_unfold((i + 1) as nat);
            lemma_pow2_adds((i + 1) as nat, (63 - (i + 1)) as nat);
            lemma_pow2_pos((63 - (i + 1)) as nat);
            lemma2_to64_rest();
            assert(pow2((i + 1) as nat) <= pow2(63)) by (nonlinear_arith)
                requires
                    pow2((i + 1) as nat) * pow2((63 - (i + 1)) as nat) == pow2(63),
                    pow2((63 - (i + 1)) as nat) > 0,
                    pow2((i + 1) as nat) > 0,
            {
            }
        }
        r = r * 2;
        i = i + 1;
    }
    r
}

/// The place of the highest set bit, computed, with the power of two there.
fn highest_bit(n: u64) -> (r: (u32, u64))
    requires
        n > 0,
    ensures
        r.0 == log2_floor(n as nat),
        r.0 < 64,
        r.1 == pow2(r.0 as nat),
        r.1 <= n < 2 * r.1,
{
    let mut m: u64 = n;
    let mut e: u32 = 0;
    let mut p: u64 = 1;
    proof {
        lemma2_to64();
    }
    while m > 1
        invariant
            m >= 1,
            e < 64,
            p == pow2(e as nat),
            log2_floor(n as nat) == e + log2_floor(m as nat),
            m * p <= n,
            n < (m + 1) * p,
        decreases m,
    {
        proof {
            lemma_pow2_unfold((e + 1) as nat);
            lemma_pow2_pos(e as nat);
            lemma2_to64_rest();
            assert(2 * p <= n && (m / 2 + 1) * (2 * p) > n && (m / 2) * (2 * p) <= n) by (nonlinear_arith)
                requires
                    m >= 2,
                    m * p <= n,
                    n < (m + 1) * p,
                    p > 0,
            {
            }
            if e + 1 >= 64 {
                lemma_pow2_adds(64, (e + 1 - 64) as nat);
                lemma_pow2_pos((e + 1 - 64) as nat);
                assert(pow2((e + 1) as nat) >= pow2(64)) by (nonlinear_arith)
                    requires
                        pow2((e + 1) as nat) == pow2(64) * pow2((e + 1 - 64) as nat),
                        pow2((e + 1 - 64) as nat) >= 1,
                {
                }
            }
        }
        m = m / 2;
        p = p * 2;
        e = e + 1;
    }
    (e, p)
}

/// The binary64 bit pattern of an array length.
pub fn length_bits(n: usize) -> (bits: u64)
    ensures
        bits == number_of_length(n as nat),
{
    if n == 0 {
        return 0;
    }
    let wide: u64 = n as u64;
    let (e, p) = highest_bit(wide);
    proof {
        lemma2_to64();
        lemma2_to64_rest();
    }
    let significand: u64 = if e <= 52 {
        let scale = power_of_two(52 - e);
        proof {
            lemma_pow2_adds((e + 1) as nat, (52 - e) as nat);
            lemma_pow2_unfold((e + 1) as nat);
            assert(wide * scale < pow2(53)) by (nonlinear_arith)
                requires
                    wide < 2 * p,
                    2 * p == pow2((e + 1) as nat),
                    pow2((e + 1) as nat) * scale == pow2(53),
                    scale > 0,
            {
            }
        }
        wide * scale
    } else {
        let d = power_of_two(e - 52);
        proof {
            lemma_pow2_unfold((e - 52) as nat);
            lemma_pow2_pos((e - 52 - 1) as nat);
            lemma_pow2_adds(53, (e - 52) as nat);
            lemma_pow2_unfold((e + 1) as nat);
            assert(wide / d < pow2(53)) by (nonlinear_arith)
                requires
                    wide < 2 * p,
                    2 * p == pow2((e + 1) as nat),
                    pow2(53) * d == pow2((e + 1) as nat),
                    d > 0,
            {
            }
        }
        let q = wide / d;
        let r = wide % d;
        let half = d / 2;
        if r > half || (r == half && q % 2 == 1) {
            q + 1
        } else {
            q
        }
    };
    (1022 + e as u64) * 4503599627370496u64 + significand
}

} // verus!
