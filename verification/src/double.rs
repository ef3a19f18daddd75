//! Floats by their bit patterns: the nearest float of an integer.
use vstd::arithmetic::power2::{lemma_pow2_adds, lemma_pow2_pos, lemma_pow2_strictly_increases, lemma_pow2_unfold, lemma2_to64, lemma2_to64_rest};
use vstd::prelude::*;

verus! {

/// The number of binary digits of `n`.
pub open spec fn bit_len(n: nat) -> nat
    decreases n,
{
    if n == 0 { 0 } else { 1 + bit_len(n / 2) }
}

/// `n / d`, rounded to the nearest integer, and to the even one in the middle.
pub open spec fn nearest(n: nat, d: nat) -> nat {
    let q = n / d;
    let r = n % d;
    if 2 * r > d || (2 * r == d && q % 2 == 1) { q + 1 } else { q }
}

/// The bit pattern of the float nearest to `n`.
///
/// A magnitude of `k` binary digits is scaled to 53 of them; the leading one is implied, and where
/// rounding yields a 54th digit, it carries over into the exponent.
pub open spec fn double_bits(n: int) -> int {
    if n == 0 {
        0
    } else {
        let mag = if n < 0 { (-n) as nat } else { n as nat };
        let k = bit_len(mag);
        let scaled: nat = if k <= 53 {
            mag * vstd::arithmetic::power2::pow2((53 - k) as nat)
        } else {
            nearest(mag, vstd::arithmetic::power2::pow2((k - 53) as nat))
        };
        (if n < 0 { 0x8000_0000_0000_0000int } else { 0int }) + (k + 1022) * 0x10_0000_0000_0000int + (scaled
            - 0x10_0000_0000_0000int)
    }
}

proof fn bit_len_bounds(n: nat)
    requires
        n > 0,
    ensures
        bit_len(n) >= 1,
        vstd::arithmetic::power2::pow2((bit_len(n) - 1) as nat) <= n < vstd::arithmetic::power2::pow2(bit_len(n)),
    decreases n,
{
    lemma2_to64();
    if n > 1 {
        bit_len_bounds(n / 2);
        let k = bit_len(n / 2);
        lemma_pow2_unfold(k);
        lemma_pow2_unfold((k + 1) as nat);
    } else {
        assert(bit_len(1) == 1 + bit_len(0));
    }
}

proof fn bit_len_of_long(n: nat)
    requires
        0 < n <= 0x8000_0000_0000_0000,
    ensures
        1 <= bit_len(n) <= 64,
{
    bit_len_bounds(n);
    lemma2_to64();
    lemma2_to64_rest();
    if bit_len(n) > 64 {
        if bit_len(n) - 1 > 64 {
            lemma_pow2_strictly_increases(64, (bit_len(n) - 1) as nat);
        }
    }
}

fn digits(n: u64) -> (k: u64)
    requires
        0 < n <= 0x8000_0000_0000_0000,
    ensures
        k == bit_len(n as nat),
        1 <= k <= 64,
{
    proof {
        bit_len_of_long(n as nat);
    }
    let mut rest: u64 = n;
    let mut k: u64 = 0;
    while rest > 0
        invariant
            k + bit_len(rest as nat) == bit_len(n as nat),
            bit_len(n as nat) <= 64,
        decreases rest,
    {
        rest = rest / 2;
        k += 1;
    }
    k
}

fn power(e: u64) -> (p: u64)
    requires
        e <= 52,
    ensures
        p == vstd::arithmetic::power2::pow2(e as nat),
        1 <= p <= 0x10_0000_0000_0000,
{
    proof {
        lemma2_to64();
        lemma2_to64_rest();
    }
    let mut p: u64 = 1;
    let mut j: u64 = 0;
    while j < e
        invariant
            j <= e <= 52,
            p == vstd::arithmetic::power2::pow2(j as nat),
            1 <= p <= 0x10_0000_0000_0000,
            vstd::arithmetic::power2::pow2(52) == 0x10_0000_0000_0000,
        decreases e - j,
    {
        proof {
            lemma_pow2_unfold((j + 1) as nat);
            if j + 1 < 52 {
                lemma_pow2_strictly_increases((j + 1) as nat, 52);
            }
        }
        p = p * 2;
        j += 1;
    }
    p
}

/// The bit pattern of the float nearest to `n`.
pub fn double_of_long(n: i64) -> (r: u64)
    ensures
        r == double_bits(n as int),
{
    if n == 0 {
        return 0;
    }
    let mag: u64 = if n < 0 {
        (-(n as i128)) as u64
    } else {
        n as u64
    };
    let k: u64 = digits(mag);
    proof {
        bit_len_bounds(mag as nat);
        lemma2_to64();
        lemma2_to64_rest();
    }
    let scaled: u64 = if k <= 53 {
        let p: u64 = power(53 - k);
        proof {
            let e = (53 - k) as nat;
            lemma_pow2_adds(k as nat, e);
            lemma_pow2_adds((k - 1) as nat, e);
            lemma_pow2_pos(e);
            assert(mag * p < 0x20_0000_0000_0000) by (nonlinear_arith)
                requires
                    mag < vstd::arithmetic::power2::pow2(k as nat),
                    p == vstd::arithmetic::power2::pow2(e),
                    p >= 1,
                    vstd::arithmetic::power2::pow2(k as nat) * vstd::arithmetic::power2::pow2(e) == 0x20_0000_0000_0000,
            ;
            assert(mag * p >= 0x10_0000_0000_0000) by (nonlinear_arith)
                requires
                    mag >= vstd::arithmetic::power2::pow2((k - 1) as nat),
                    p == vstd::arithmetic::power2::pow2(e),
                    p >= 1,
                    vstd::arithmetic::power2::pow2((k - 1) as nat) * vstd::arithmetic::power2::pow2(e) == 0x10_0000_0000_0000,
            ;
        }
        mag * p
    } else {
        let d: u64 = power(k - 53);
        let q: u64 = mag / d;
        let rest: u64 = mag % d;
        proof {
            let e = (k - 53) as nat;
            lemma_pow2_adds(53, e);
            lemma_pow2_adds(52, e);
            assert(q < 0x20_0000_0000_0000 && q >= 0x10_0000_0000_0000) by (nonlinear_arith)
                requires
                    d >= 1,
                    q == mag / d,
                    mag < 0x20_0000_0000_0000 * d,
                    mag >= 0x10_0000_0000_0000 * d,
            ;
        }
        if 2 * rest > d || (2 * rest == d && q % 2 == 1) {
            q + 1
        } else {
            q
        }
    };
    let unsigned: u64 = (k + 1022) * 0x10_0000_0000_0000 + (scaled - 0x10_0000_0000_0000);
    if n < 0 {
        0x8000_0000_0000_0000 + unsigned
    } else {
        unsigned
    }
}

} // verus!
