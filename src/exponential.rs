use vstd::arithmetic::power::*;
use vstd::arithmetic::mul::*;
use vstd::prelude::*;

verus! {

/// `pow(b, e)` splits into `pow(b * b, e / 2)`, times `b` when `e` is odd.
proof fn lemma_pow_halves(b: int, e: nat)
    ensures
        e % 2 == 0 ==> pow(b, e) == pow(b * b, e / 2),
        e % 2 == 1 ==> pow(b, e) == b * pow(b * b, e / 2),
{
    lemma_square_is_pow2(b);
    lemma_pow_multiplies(b, 2, e / 2);
    if e % 2 == 1 {
        lemma_pow_adds(b, 1, 2 * (e / 2));
        lemma_pow1(b);
    }
}

/// Binary exponentiation: `base` raised to `exp`, without a modulus.
///
/// The result must fit in a `u64`; a square that would only be needed
/// after the last bit is never computed, so no intermediate value overflows.
pub fn binpow(base: u64, exp: u64) -> (r: u64)
    requires
        pow(base as int, exp as nat) <= u64::MAX,
    ensures
        r == pow(base as int, exp as nat),
{
    let mut res: u64 = 1;
    let mut b: u64 = base;
    let mut e: u64 = exp;
    while e != 0
        invariant
            res * pow(b as int, e as nat) == pow(base as int, exp as nat),
            pow(base as int, exp as nat) <= u64::MAX,
            (base == 0 && b == 0) || (b >= 1 && res >= 1),
        decreases e,
    {
        let ghost p = pow(base as int, exp as nat);
        proof {
            lemma_pow_halves(b as int, e as nat);
            lemma_pow0(b as int);
            if b >= 1 {
                lemma_pow_positive(b as int, e as nat);
                lemma_pow_increases(b as nat, 1, e as nat);
                lemma_pow1(b as int);
                lemma_mul_inequality(1, res as int, pow(b as int, e as nat));
                lemma_mul_left_inequality(res as int, b as int, pow(b as int, e as nat));
                assert(res * b <= p);
                assert(res * b >= 1) by (nonlinear_arith)
                    requires
                        res >= 1,
                        b >= 1,
                ;
                if e >= 2 {
                    lemma_pow_increases(b as nat, 2, e as nat);
                    lemma_square_is_pow2(b as int);
                    assert(b * b <= p);
                    assert(b * b >= 1) by (nonlinear_arith)
                        requires
                            b >= 1,
                    ;
                }
            } else {
                assert(b * b == 0 && res * b == 0) by (nonlinear_arith)
                    requires
                        b == 0,
                ;
            }
        }
        let ghost b0 = b as int;
        let ghost e0 = e as nat;
        let ghost r0 = res as int;
        let ghost x = pow(b0 * b0, e0 / 2);
        if e % 2 == 1 {
            res = res * b;
        }
        if e > 1 {
            b = b * b;
        }
        e = e / 2;
        proof {
            lemma_pow0(b0 * b0);
            lemma_pow0(b0);
            assert(pow(b as int, e as nat) == x);
            if e0 % 2 == 1 {
                assert((r0 * b0) * x == r0 * (b0 * x)) by (nonlinear_arith);
            }
        }
    }
    proof {
        lemma_pow0(b as int);
    }
    res
}

} // verus!
