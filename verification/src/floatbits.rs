//! Conversion of an unsigned 64-bit integer to the bit pattern of the
//! nearest 64-bit IEEE-754 float, in pure integer arithmetic. The wire
//! format carries each frequency as such a float; sessions keep
//! frequencies as integer hertz.
use vstd::prelude::*;
use vstd::arithmetic::power2::{
    pow2, lemma_pow2_adds, lemma_pow2_pos, lemma_pow2_strictly_increases, lemma_pow2_unfold,
    lemma2_to64, lemma2_to64_rest,
};

verus! {

/// Floor of the base-two logarithm.
pub open spec fn ilog2(n: nat) -> nat
    decreases n,
{
    if n < 2 {
        0
    } else {
        1 + ilog2(n / 2)
    }
}

/// The floor log is the exponent of the enclosing power of two.
pub proof fn lemma_ilog2_bounds(n: nat)
    requires
        n >= 1,
    ensures
        pow2(ilog2(n)) <= n < pow2(ilog2(n) + 1),
    decreases n,
{
    if n < 2 {
        lemma2_to64();
    } else {
        lemma_ilog2_bounds(n / 2);
        let i = ilog2(n / 2);
        lemma_pow2_unfold(i + 1);
        lemma_pow2_unfold(i + 2);
        assert(pow2(i + 1) == 2 * pow2(i));
        assert(pow2(i + 2) == 2 * pow2(i + 1));
    }
}

/// A 64-bit value has a floor log of at most 63.
pub proof fn lemma_ilog2_u64(n: u64)
    requires
        n >= 1,
    ensures
        ilog2(n as nat) <= 63,
{
    lemma_ilog2_bounds(n as nat);
    lemma2_to64_rest();
    if ilog2(n as nat) > 63 {
        if ilog2(n as nat) > 64 {
            lemma_pow2_strictly_increases(64, ilog2(n as nat));
        }
        assert(pow2(ilog2(n as nat)) >= pow2(64));
        assert(false);
    }
}

/// Bit pattern of the 64-bit IEEE-754 float nearest to `n`, rounding
/// to nearest with ties to even. A value below two to the 53rd is
/// represented exactly; a larger one keeps its top 53 significant bits,
/// rounded.
pub open spec fn f64_bits_of(n: u64) -> u64 {
    if n == 0 {
        0
    } else {
        let k = ilog2(n as nat);
        if k <= 52 {
            (((1023 + k) * pow2(52)) + (n - pow2(k)) * pow2((52 - k) as nat)) as u64
        } else {
            let shift = (k - 52) as nat;
            let m0 = (n as nat) / pow2(shift);
            let rem = (n as nat) % pow2(shift);
            let half = pow2((shift - 1) as nat);
            let m1: nat = if rem > half || (rem == half && m0 % 2 == 1) {
                m0 + 1
            } else {
                m0
            };
            if m1 == pow2(53) {
                (((1023 + k + 1) * pow2(52)) + (pow2(52) - pow2(52))) as u64
            } else {
                (((1023 + k) * pow2(52)) + (m1 - pow2(52))) as u64
            }
        }
    }
}

/// Two to the power `e`, for exponents below 64.
fn pow2_u64(e: u64) -> (r: u64)
    requires
        e <= 63,
    ensures
        r as nat == pow2(e as nat),
{
    proof {
        lemma2_to64();
    }
    let mut r: u64 = 1;
    let mut i: u64 = 0;
    while i < e
        invariant
            i <= e <= 63,
            r as nat == pow2(i as nat),
        decreases e - i,
    {
        proof {
            lemma_pow2_unfold(i as nat + 1);
            if i as nat + 1 < 63 {
                lemma_pow2_strictly_increases(i as nat + 1, 63);
            }
            lemma2_to64_rest();
        }
        r = r * 2;
        i = i + 1;
    }
    r
}

/// Floor of the base-two logarithm of a positive 64-bit value.
fn ilog2_u64(n: u64) -> (r: u64)
    requires
        n >= 1,
    ensures
        r as nat == ilog2(n as nat),
        r <= 63,
{
    proof {
        lemma_ilog2_u64(n);
    }
    let mut m: u64 = n;
    let mut k: u64 = 0;
    while m >= 2
        invariant
            m >= 1,
            ilog2(n as nat) == k + ilog2(m as nat),
            ilog2(n as nat) <= 63,
            k <= ilog2(n as nat),
        decreases m,
    {
        m = m / 2;
        k = k + 1;
    }
    proof {
        lemma_ilog2_u64(n);
    }
    k
}

/// The float bit pattern of `n`, computed with integer arithmetic only.
pub fn f64_bits_of_u64(n: u64) -> (r: u64)
    ensures
        r == f64_bits_of(n),
{
    if n == 0 {
        return 0;
    }
    let k = ilog2_u64(n);
    proof {
        lemma_ilog2_bounds(n as nat);
        lemma2_to64();
        lemma2_to64_rest();
    }
    let p52 = pow2_u64(52);
    if k <= 52 {
        let pk = pow2_u64(k);
        let pshift = pow2_u64(52 - k);
        proof {
            lemma_pow2_adds(k as nat, (52 - k) as nat);
            lemma_pow2_unfold(k as nat + 1);
            assert((n - pk) * pshift <= pow2(52)) by (nonlinear_arith)
                requires
                    pk as nat == pow2(k as nat),
                    pshift as nat == pow2((52 - k as nat) as nat),
                    pk <= n,
                    (n as nat) < pow2(k as nat + 1),
                    pow2(k as nat + 1) == 2 * pow2(k as nat),
                    pow2(k as nat) * pow2((52 - k as nat) as nat) == pow2(52),
            ;
            assert(pow2(52) == 0x10000000000000);
        }
        let mantissa = (n - pk) * pshift;
        (1023 + k) * p52 + mantissa
    } else {
        let shift = k - 52;
        let p = pow2_u64(shift);
        proof {
            lemma_pow2_pos(shift as nat);
        }
        let m0 = n / p;
        let rem = n % p;
        let half = p / 2;
        proof {
            lemma_pow2_unfold(shift as nat);
            assert(half as nat == pow2((shift - 1) as nat));
            assert(m0 as nat == (n as nat) / pow2(shift as nat));
            assert(rem as nat == (n as nat) % pow2(shift as nat));
            lemma_pow2_adds(shift as nat, 52);
            lemma_pow2_adds(shift as nat, 53);
            assert(pow2(53) == 2 * pow2(52) && pow2(k as nat + 1) == 2 * pow2(k as nat)) by {
                lemma_pow2_unfold(53);
                lemma_pow2_unfold(k as nat + 1);
            }
            assert((m0 as nat) < pow2(53) && (m0 as nat) >= pow2(52)) by (nonlinear_arith)
                requires
                    pow2(k as nat) <= (n as nat) < pow2(k as nat + 1),
                    m0 as nat == (n as nat) / pow2(shift as nat),
                    pow2(shift as nat) * pow2(52) == pow2(k as nat),
                    pow2(shift as nat) >= 1,
                    pow2(shift as nat) * pow2(53) == pow2(k as nat + 1),
            ;
            assert(pow2(52) == 0x10000000000000 && pow2(53) == 0x20000000000000);
        }
        let m1 = if rem > half || (rem == half && m0 % 2 == 1) {
            m0 + 1
        } else {
            m0
        };
        let p53 = pow2_u64(53);
        if m1 == p53 {
            (1023 + k + 1) * p52
        } else {
            (1023 + k) * p52 + (m1 - p52)
        }
    }
}

} // verus!
