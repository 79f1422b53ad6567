//! Exact integer helpers: floor division and the evaluation of polynomials
//! with rational argument by Horner's method.
use vstd::prelude::*;

use vstd::arithmetic::power::pow;

verus! {

/// The largest magnitude that [`horner`] lets its terms reach.
pub const HORNER_LIMIT: i128 = 0x4000_0000_0000_0000_0000_0000_0000_0000;

/// `Σ c[k] · v^(k−i) · w^(n−k)` over `i <= k <= n = c.len() − 1`.
pub open spec fn poly_from(c: Seq<i128>, i: int, v: int, w: int) -> int
    decreases c.len() - i,
{
    if 0 <= i < c.len() {
        c[i] * pow(w, (c.len() - 1 - i) as nat) + v * poly_from(c, i + 1, v, w)
    } else {
        0
    }
}

/// `Σ c[k] · v^k · w^(n−k)` with `n = c.len() − 1`: the value of the
/// polynomial with coefficients `c` at `u = v / w`, multiplied by `w^n`.
pub open spec fn hpoly(c: Seq<i128>, v: int, w: int) -> int {
    poly_from(c, 0, v, w)
}

/// `Σ |c[k]| · k0^(k−i)` over `i <= k < c.len()`: where `|v| <= k0 · w`, it
/// bounds `|poly_from(c, i, v, w)| / w^(n−i)`.
pub open spec fn weight_from(c: Seq<i128>, i: int, k0: int) -> int
    decreases c.len() - i,
{
    if 0 <= i < c.len() {
        (if c[i] < 0 { -c[i] } else { c[i] as int }) + k0 * weight_from(c, i + 1, k0)
    } else {
        0
    }
}

/// `Σ |c[k]| · k0^k`.
pub open spec fn weight(c: Seq<i128>, k0: int) -> int {
    weight_from(c, 0, k0)
}

/// `(n · m · g) / (d · g) == (n · m) / d`: a common factor of the scale and
/// the divisor leaves a floor division unchanged.
pub proof fn lemma_rescale(n: int, m: int, d: int, g: int)
    requires
        d > 0,
        g > 0,
    ensures
        (n * (m * g)) / (d * g) == (n * m) / d,
{
    let q = (n * m) / d;
    let r = (n * m) % d;
    assert(n * m == q * d + r && 0 <= r < d) by {
        vstd::arithmetic::div_mod::lemma_fundamental_div_mod(n * m, d);
    }
    assert(n * (m * g) == q * (d * g) + r * g && 0 <= r * g < d * g) by (nonlinear_arith)
        requires
            n * m == q * d + r,
            0 <= r < d,
            g > 0,
    ;
    vstd::arithmetic::div_mod::lemma_fundamental_div_mod_converse(n * (m * g), d * g, q, r * g);
}

/// `floor(n / d)` for a positive divisor.
pub fn floor_div(n: i128, d: i128) -> (r: i128)
    requires
        d > 0,
        n > i128::MIN,
    ensures
        r == n / d,
{
    if n >= 0 {
        n / d
    } else {
        let q = (-n - 1) / d;
        proof {
            let nn = n as int;
            let dd = d as int;
            let qq = q as int;
            assert(nn / dd == -qq - 1) by (nonlinear_arith)
                requires
                    dd > 0,
                    nn < 0,
                    qq == (-nn - 1) / dd,
            {
                let r = (-nn - 1) % dd;
                assert(-nn - 1 == qq * dd + r);
                assert(nn == (-qq - 1) * dd + (dd - r - 1));
                vstd::arithmetic::div_mod::lemma_fundamental_div_mod_converse(
                    nn,
                    dd,
                    -qq - 1,
                    dd - r - 1,
                );
            }
        }
        -q - 1
    }
}

proof fn lemma_weight_suffix(c: Seq<i128>, k0: int, i: int)
    requires
        k0 >= 1,
        0 <= i <= c.len(),
    ensures
        0 <= weight_from(c, i, k0) <= weight(c, k0),
    decreases i,
{
    lemma_weight_nonneg(c, k0, i);
    if i > 0 {
        lemma_weight_suffix(c, k0, i - 1);
        let x = weight_from(c, i, k0);
        assert(x <= k0 * x) by (nonlinear_arith)
            requires
                k0 >= 1,
                x >= 0,
        ;
    }
}

proof fn lemma_weight_nonneg(c: Seq<i128>, k0: int, i: int)
    requires
        k0 >= 1,
        0 <= i,
    ensures
        weight_from(c, i, k0) >= 0,
    decreases c.len() - i,
{
    if i < c.len() {
        lemma_weight_nonneg(c, k0, i + 1);
        let x = weight_from(c, i + 1, k0);
        assert(k0 * x >= 0) by (nonlinear_arith)
            requires
                k0 >= 1,
                x >= 0,
        ;
    }
}

proof fn lemma_pow_positive(w: int, e: nat)
    requires
        w >= 1,
    ensures
        pow(w, e) >= 1,
    decreases e,
{
    reveal(pow);
    if e > 0 {
        lemma_pow_positive(w, (e - 1) as nat);
        let p = pow(w, (e - 1) as nat);
        assert(w * p >= 1) by (nonlinear_arith)
            requires
                w >= 1,
                p >= 1,
        ;
    }
}

proof fn lemma_pow_grows(w: int, a: nat, b: nat)
    requires
        w >= 1,
        a <= b,
    ensures
        1 <= pow(w, a) <= pow(w, b),
    decreases b,
{
    reveal(pow);
    lemma_pow_positive(w, a);
    if a < b {
        lemma_pow_grows(w, a, (b - 1) as nat);
        let p = pow(w, (b - 1) as nat);
        assert(p <= w * p) by (nonlinear_arith)
            requires
                w >= 1,
                p >= 1,
        ;
    }
}

/// Evaluates `hpoly(c, v, w)` by Horner's method. `k0` bounds the argument
/// (`|v| <= k0 · w`), so that no intermediate value exceeds [`HORNER_LIMIT`].
pub fn horner(c: &[i128], v: i128, w: i128, k0: i128) -> (r: i128)
    requires
        c@.len() >= 1,
        w >= 1,
        k0 >= 1,
        -(k0 * w) <= v <= k0 * w,
        pow(w as int, c@.len()) <= HORNER_LIMIT,
        weight(c@, k0 as int) * pow(w as int, c@.len()) <= HORNER_LIMIT,
    ensures
        r == hpoly(c@, v as int, w as int),
        -(weight(c@, k0 as int) * pow(w as int, (c@.len() - 1) as nat)) <= r,
        r <= weight(c@, k0 as int) * pow(w as int, (c@.len() - 1) as nat),
{
    let n = c.len();
    let mut acc: i128 = 0;
    let mut wp: i128 = 1;
    let mut i: usize = n;
    proof {
        reveal(pow);
    }
    while i > 0
        invariant
            n == c@.len(),
            n >= 1,
            0 <= i <= n,
            w >= 1,
            k0 >= 1,
            -(k0 * w) <= v <= k0 * w,
            pow(w as int, n as nat) <= HORNER_LIMIT,
            weight(c@, k0 as int) * pow(w as int, n as nat) <= HORNER_LIMIT,
            wp == pow(w as int, (n - i) as nat),
            acc == poly_from(c@, i as int, v as int, w as int),
            -(weight_from(c@, i as int, k0 as int) * wp) <= acc * w,
            acc * w <= weight_from(c@, i as int, k0 as int) * wp,
        decreases i,
    {
        let ghost wt_tail = weight_from(c@, i as int, k0 as int);
        let ghost wt_s = weight_from(c@, i - 1, k0 as int);
        let ghost wt = weight(c@, k0 as int);
        let ghost pn = pow(w as int, n as nat);
        let ghost p1 = pow(w as int, (n - i + 1) as nat);
        let ghost ci = c@[i - 1] as int;
        let ghost aci = if ci < 0 { -ci } else { ci };
        proof {
            lemma_weight_suffix(c@, k0 as int, i - 1);
            lemma_weight_suffix(c@, k0 as int, i as int);
            lemma_pow_grows(w as int, (n - i) as nat, n as nat);
            lemma_pow_grows(w as int, (n - i + 1) as nat, n as nat);
            reveal(pow);
            assert(p1 == w * wp);
            assert(wt_s == aci + k0 * wt_tail);
            assert(-(wt * pn) <= ci * wp <= wt * pn && -(wt * pn) <= v * acc <= wt * pn
                && -(wt_s * wp) <= ci * wp + v * acc <= wt_s * wp) by (nonlinear_arith)
                requires
                    wp >= 1,
                    wp <= pn,
                    wt_s <= wt,
                    wt_tail >= 0,
                    k0 >= 1,
                    w >= 1,
                    -(k0 * w) <= v <= k0 * w,
                    -(wt_tail * wp) <= acc * w <= wt_tail * wp,
                    wt_s == aci + k0 * wt_tail,
                    aci >= 0,
                    -aci <= ci <= aci,
            ;
            assert(-(wt_s * p1) <= (ci * wp + v * acc) * w <= wt_s * p1) by (nonlinear_arith)
                requires
                    p1 == w * wp,
                    w >= 1,
                    -(wt_s * wp) <= ci * wp + v * acc <= wt_s * wp,
            ;
            assert(wt_s * wp <= wt * pn) by (nonlinear_arith)
                requires
                    0 <= wt_s <= wt,
                    1 <= wp <= pn,
            ;
            assert(p1 <= pn);
        }
        let ck = c[i - 1];
        let term = ck * wp;
        let rest = v * acc;
        acc = term + rest;
        wp = wp * w;
        i = i - 1;
    }
    proof {
        let wt = weight(c@, k0 as int);
        let p = pow(w as int, (n - 1) as nat);
        reveal(pow);
        assert(wp == w * p);
        assert(-(wt * p) <= acc <= wt * p) by (nonlinear_arith)
            requires
                w >= 1,
                wp == w * p,
                -(wt * wp) <= acc * w <= wt * wp,
        ;
    }
    acc
}

} // verus!
