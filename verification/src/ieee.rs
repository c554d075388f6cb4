//! Floating point numbers by their IEEE 754 bit patterns.

use vstd::arithmetic::power2::{lemma_pow2_adds, lemma_pow2_pos, pow2};
use vstd::prelude::*;

verus! {

/// The finite number whose bit pattern, without the sign, is `magnitude`, in units of the
/// smallest positive number of its kind. `unit` is the number of fractions between two powers
/// of two: the 23rd power of two in single precision, the 52nd in double precision.
pub open spec fn units_of(magnitude: int, unit: int) -> int {
    let exponent = magnitude / unit;
    let fraction = magnitude % unit;
    if exponent == 0 {
        fraction
    } else {
        (unit + fraction) * pow2((exponent - 1) as nat)
    }
}

/// Greater bit patterns stand for greater numbers.
pub proof fn lemma_units_increase(a: int, b: int, unit: int)
    requires
        0 <= a < b,
        unit > 0,
    ensures
        units_of(a, unit) < units_of(b, unit),
{
    let (ea, fa) = (a / unit, a % unit);
    let (eb, fb) = (b / unit, b % unit);
    assert(ea >= 0 && 0 <= fa < unit && a == ea * unit + fa) by (nonlinear_arith)
        requires
            a >= 0,
            unit > 0,
            ea == a / unit,
            fa == a % unit,
    ;
    assert(eb >= 0 && 0 <= fb < unit && b == eb * unit + fb) by (nonlinear_arith)
        requires
            b >= 0,
            unit > 0,
            eb == b / unit,
            fb == b % unit,
    ;
    assert(ea < eb || ea == eb && fa < fb) by (nonlinear_arith)
        requires
            a < b,
            a == ea * unit + fa,
            b == eb * unit + fb,
            0 <= fa < unit,
            0 <= fb < unit,
    ;
    if ea > 0 {
        lemma_pow2_pos((ea - 1) as nat);
    }
    if eb > 0 {
        lemma_pow2_pos((eb - 1) as nat);
    }
    if ea == eb {
        if ea > 0 {
            let p = pow2((ea - 1) as nat);
            assert((unit + fa) * p < (unit + fb) * p) by (nonlinear_arith)
                requires
                    fa < fb,
                    p > 0,
            ;
        }
    } else if ea == 0 {
        let q = pow2((eb - 1) as nat);
        assert((unit + fb) * q >= unit) by (nonlinear_arith)
            requires
                fb >= 0,
                unit > 0,
                q >= 1,
        ;
    } else {
        let p = pow2((ea - 1) as nat);
        let q = pow2((eb - 1) as nat);
        lemma_pow2_adds((eb - ea) as nat, (ea - 1) as nat);
        lemma_pow2_pos((eb - ea - 1) as nat);
        lemma_pow2_adds(1, (eb - ea - 1) as nat);
        vstd::arithmetic::power2::lemma2_to64();
        let r = pow2((eb - ea) as nat);
        assert(r >= 2);
        assert(q == r * p);
        assert((unit + fa) * p < (unit + fb) * q) by (nonlinear_arith)
            requires
                0 <= fa < unit,
                fb >= 0,
                q == r * p,
                r >= 2,
                p > 0,
        ;
    }
}

} // verus!
