use vstd::prelude::*;

verus! {

/// Whether the fraction `a / b` is strictly below the fraction `c / d`, for
/// positive `b` and `d`. The two are compared exactly, by their cross
/// products.
pub open spec fn fraction_below(a: nat, b: nat, c: nat, d: nat) -> bool {
    a * d < c * b
}

/// Fractions with one denominator compare as their numerators do.
pub proof fn lemma_fraction_below_same_denominator(a: nat, c: nat, d: nat)
    requires
        d > 0,
    ensures
        fraction_below(a, d, c, d) <==> a < c,
{
    if a < c {
        assert(a * d < c * d) by (nonlinear_arith)
            requires
                a < c,
                d > 0,
        ;
    } else {
        assert(a * d >= c * d) by (nonlinear_arith)
            requires
                a >= c,
                d > 0,
        ;
    }
}

/// What is below a fraction is below whatever that fraction is not above.
pub proof fn lemma_fraction_below_chain(a: nat, b: nat, c: nat, d: nat, e: nat, f: nat)
    requires
        b > 0,
        d > 0,
        f > 0,
        fraction_below(a, b, c, d),
        !fraction_below(e, f, c, d),
    ensures
        fraction_below(a, b, e, f),
{
    assert((a * d) * f < (c * b) * f) by (nonlinear_arith)
        requires
            a * d < c * b,
            f > 0,
    ;
    assert((c * f) * b <= (e * d) * b) by (nonlinear_arith)
        requires
            c * f <= e * d,
            b > 0,
    ;
    assert((a * d) * f == (a * f) * d && (c * b) * f == (c * f) * b && (e * d) * b == (e * b) * d)
        by (nonlinear_arith);
    assert(a * f < e * b) by (nonlinear_arith)
        requires
            (a * f) * d < (e * b) * d,
            d > 0,
    ;
}

/// What is not below a fraction is not below anything that fraction is not
/// below.
pub proof fn lemma_fraction_not_below_chain(a: nat, b: nat, c: nat, d: nat, e: nat, f: nat)
    requires
        b > 0,
        d > 0,
        f > 0,
        !fraction_below(a, b, c, d),
        !fraction_below(c, d, e, f),
    ensures
        !fraction_below(a, b, e, f),
{
    assert((c * b) * f <= (a * d) * f) by (nonlinear_arith)
        requires
            c * b <= a * d,
            f > 0,
    ;
    assert((e * d) * b <= (c * f) * b) by (nonlinear_arith)
        requires
            e * d <= c * f,
            b > 0,
    ;
    assert((a * d) * f == (a * f) * d && (c * b) * f == (c * f) * b && (e * d) * b == (e * b) * d)
        by (nonlinear_arith);
    assert(e * b <= a * f) by (nonlinear_arith)
        requires
            (e * b) * d <= (a * f) * d,
            d > 0,
    ;
}

} // verus!
