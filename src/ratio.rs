//! Exact comparison of fractions.
use vstd::prelude::*;
use vstd::arithmetic::div_mod::{lemma_fundamental_div_mod, lemma_mod_bound};

verus! {

/// Whether `p / q > r / s`, for positive `q` and `s`, compared exactly by
/// continued-fraction steps so that no product is ever formed.
pub fn fraction_greater(p: u128, q: u128, r: u128, s: u128) -> (b: bool)
    requires
        q > 0,
        s > 0,
    ensures
        b == (p * s > r * q),
    decreases q + s,
{
    let p_int = p / q;
    let r_int = r / s;
    let p_rem = p % q;
    let r_rem = r % s;
    proof {
        lemma_fundamental_div_mod(p as int, q as int);
        lemma_fundamental_div_mod(r as int, s as int);
        lemma_mod_bound(p as int, q as int);
        lemma_mod_bound(r as int, s as int);
        assert(p * s - r * q == (p_int - r_int) * q * s + p_rem * s - r_rem * q) by (nonlinear_arith)
            requires
                p == q * p_int + p_rem,
                r == s * r_int + r_rem,
        ;
    }
    if p_int > r_int {
        proof {
            assert((p_int - r_int) * q * s >= q * s) by (nonlinear_arith)
                requires
                    p_int - r_int >= 1,
                    q > 0,
                    s > 0,
            ;
            assert(r_rem * q < s * q) by (nonlinear_arith)
                requires
                    r_rem < s,
                    q > 0,
            ;
            assert(p_rem * s >= 0) by (nonlinear_arith)
                requires
                    p_rem >= 0,
                    s > 0,
            ;
        }
        return true;
    }
    if p_int < r_int {
        proof {
            assert((r_int - p_int) * q * s >= q * s) by (nonlinear_arith)
                requires
                    r_int - p_int >= 1,
                    q > 0,
                    s > 0,
            ;
            assert((p_int - r_int) * q * s == -((r_int - p_int) * q * s)) by (nonlinear_arith);
            assert(p_rem * s < q * s) by (nonlinear_arith)
                requires
                    p_rem < q,
                    s > 0,
            ;
            assert(r_rem * q >= 0) by (nonlinear_arith)
                requires
                    r_rem >= 0,
                    q > 0,
            ;
        }
        return false;
    }
    proof {
        assert((p_int - r_int) * q * s == 0) by (nonlinear_arith)
            requires
                p_int == r_int,
        ;
    }
    if p_rem == 0 {
        proof {
            assert(r_rem * q >= 0) by (nonlinear_arith)
                requires
                    r_rem >= 0,
                    q > 0,
            ;
        }
        return false;
    }
    if r_rem == 0 {
        proof {
            assert(p_rem * s > 0) by (nonlinear_arith)
                requires
                    p_rem > 0,
                    s > 0,
            ;
        }
        return true;
    }
    let b = fraction_greater(s, r_rem, q, p_rem);
    proof {
        assert(s * p_rem == p_rem * s && q * r_rem == r_rem * q) by (nonlinear_arith);
    }
    b
}

} // verus!
