//! ΔT (TT − UT) from NASA's piecewise polynomial expressions, evaluated
//! exactly and given in microseconds.
//!
//! The argument is the fractional year `y`, counted in twenty-fourths
//! (`t = 24 · y`), so that the middle of every month is a whole number. Each
//! segment's polynomial in `u` has decimal or reciprocal coefficients: they
//! are kept as integers over a common scale, and the polynomial is evaluated
//! as `hpoly(c, v, w) / (scale · w^n)` with `u = v / w`.
use vstd::prelude::*;

use vstd::arithmetic::power::pow;

use crate::arith::{floor_div, horner, hpoly, lemma_rescale, weight, weight_from, HORNER_LIMIT};
use crate::julian::{julian_day_seconds, ndt_to_jul, CivilDateTime};

verus! {

/// The bound on a fractional year in twenty-fourths: the middle of every
/// month of an `i32` year stays inside it.
pub const FRACTIONAL_YEAR_BOUND: i64 = 51539607552;

/// y < −500 or y >= 2150 (and, with a linear term, 2050 <= y < 2150),
/// u = (y − 1820) / 100: −20 + 32u².
pub open spec fn coeffs_far() -> Seq<i128> {
    seq![-20i128, 0i128, 32i128]
}

/// −500 <= y < 500, u = y / 100:
/// 10583.6 − 1014.41u + 33.78311u² − 5.952053u³ − 0.1798452u⁴ + 0.022174192u⁵ + 0.0090316521u⁶,
/// with its coefficients multiplied by 10000000000.
pub open spec fn coeffs_m500_500() -> Seq<i128> {
    seq![
        105836000000000i128,
        -10144100000000i128,
        337831100000i128,
        -59520530000i128,
        -1798452000i128,
        221741920i128,
        90316521i128,
    ]
}

/// 500 <= y < 1600, u = (y − 1000) / 100:
/// 1574.2 − 556.01u + 71.23472u² + 0.319781u³ − 0.8503463u⁴ − 0.005050998u⁵ + 0.0083572073u⁶,
/// with its coefficients multiplied by 10000000000.
pub open spec fn coeffs_500_1600() -> Seq<i128> {
    seq![
        15742000000000i128,
        -5560100000000i128,
        712347200000i128,
        3197810000i128,
        -8503463000i128,
        -50509980i128,
        83572073i128,
    ]
}

/// 1600 <= y < 1700, u = y − 1600:
/// 120 − 0.9808u − 0.01532u² + u³ / 7129,
/// with its coefficients multiplied by 178225000.
pub open spec fn coeffs_1600_1700() -> Seq<i128> {
    seq![21387000000i128, -174803080i128, -2730407i128, 25000i128]
}

/// 1700 <= y < 1800, u = y − 1700:
/// 8.83 + 0.1603u − 0.0059285u² + 0.00013336u³ − u⁴ / 1174000,
/// with its coefficients multiplied by 29350000000.
pub open spec fn coeffs_1700_1800() -> Seq<i128> {
    seq![259160500000i128, 4704805000i128, -174001475i128, 3914116i128, -25000i128]
}

/// 1800 <= y < 1860, u = y − 1800:
/// 13.72 − 0.332447u + 0.0068612u² + 0.0041116u³ − 0.00037436u⁴ + 0.0000121272u⁵ − 0.0000001699u⁶ + 0.000000000875u⁷,
/// with its coefficients multiplied by 40000000000.
pub open spec fn coeffs_1800_1860() -> Seq<i128> {
    seq![
        548800000000i128,
        -13297880000i128,
        274448000i128,
        164464000i128,
        -14974400i128,
        485088i128,
        -6796i128,
        35i128,
    ]
}

/// 1860 <= y < 1900, u = y − 1860:
/// 7.62 + 0.5737u − 0.251754u² + 0.01680668u³,
/// with its coefficients multiplied by 25000000.
pub open spec fn coeffs_1860_1900() -> Seq<i128> {
    seq![190500000i128, 14342500i128, -6293850i128, 420167i128]
}

/// 1900 <= y < 1920, u = y − 1900:
/// −2.79 + 1.494119u − 0.0598939u² + 0.0061966u³ − 0.000197u⁴,
/// with its coefficients multiplied by 10000000.
pub open spec fn coeffs_1900_1920() -> Seq<i128> {
    seq![-27900000i128, 14941190i128, -598939i128, 61966i128, -1970i128]
}

/// 1920 <= y < 1941, u = y − 1920:
/// 21.20 + 0.84493u − 0.076100u² + 0.0020936u³,
/// with its coefficients multiplied by 2500000.
pub open spec fn coeffs_1920_1941() -> Seq<i128> {
    seq![53000000i128, 2112325i128, -190250i128, 5234i128]
}

/// 1941 <= y < 1961, u = y − 1950:
/// 29.07 + 0.407u − u² / 233 + u³ / 2547,
/// with its coefficients multiplied by 593451000.
pub open spec fn coeffs_1941_1961() -> Seq<i128> {
    seq![17251620570i128, 241534557i128, -2547000i128, 233000i128]
}

/// 1961 <= y < 1986, u = y − 1975:
/// 45.45 + 1.067u − u² / 260 − u³ / 718,
/// with its coefficients multiplied by 4667000.
pub open spec fn coeffs_1961_1986() -> Seq<i128> {
    seq![212115150i128, 4979689i128, -17950i128, -6500i128]
}

/// 1986 <= y < 2005, u = y − 2000:
/// 63.86 + 0.3345u − 0.060374u² + 0.0017275u³ + 0.000651814u⁴ + 0.00002373599u⁵,
/// with its coefficients multiplied by 100000000000.
pub open spec fn coeffs_1986_2005() -> Seq<i128> {
    seq![
        6386000000000i128,
        33450000000i128,
        -6037400000i128,
        172750000i128,
        65181400i128,
        2373599i128,
    ]
}

/// 2005 <= y < 2050, u = y − 2000:
/// 62.92 + 0.32217u + 0.005589u²,
/// with its coefficients multiplied by 1000000.
pub open spec fn coeffs_2005_2050() -> Seq<i128> {
    seq![62920000i128, 322170i128, 5589i128]
}

/// ΔT at the fractional year `y = t / 24`, as an exact fraction
/// (numerator, denominator) of seconds: one polynomial for each of the
/// half-open ranges of `y`.
pub open spec fn delta_t_fraction(t: int) -> (int, int) {
    if t < -12000 || t >= 51600 {
        (hpoly(coeffs_far(), t - 43680, 2400), pow(2400, 2))
    } else if t < 12000 {
        (hpoly(coeffs_m500_500(), t, 2400), 10000000000 * pow(2400, 6))
    } else if t < 38400 {
        (hpoly(coeffs_500_1600(), t - 24000, 2400), 10000000000 * pow(2400, 6))
    } else if t < 40800 {
        (hpoly(coeffs_1600_1700(), t - 38400, 24), 178225000 * pow(24, 3))
    } else if t < 43200 {
        (hpoly(coeffs_1700_1800(), t - 40800, 24), 29350000000 * pow(24, 4))
    } else if t < 44640 {
        (hpoly(coeffs_1800_1860(), t - 43200, 24), 40000000000 * pow(24, 7))
    } else if t < 45600 {
        (hpoly(coeffs_1860_1900(), t - 44640, 24), 25000000 * pow(24, 3))
    } else if t < 46080 {
        (hpoly(coeffs_1900_1920(), t - 45600, 24), 10000000 * pow(24, 4))
    } else if t < 46584 {
        (hpoly(coeffs_1920_1941(), t - 46080, 24), 2500000 * pow(24, 3))
    } else if t < 47064 {
        (hpoly(coeffs_1941_1961(), t - 46800, 24), 593451000 * pow(24, 3))
    } else if t < 47664 {
        (hpoly(coeffs_1961_1986(), t - 47400, 24), 4667000 * pow(24, 3))
    } else if t < 48120 {
        (hpoly(coeffs_1986_2005(), t - 48000, 24), 100000000000 * pow(24, 5))
    } else if t < 49200 {
        (hpoly(coeffs_2005_2050(), t - 48000, 24), 1000000 * pow(24, 2))
    } else {
        // 2050 <= y < 2150: −20 + 32((y − 1820) / 100)² − 0.5628(2150 − y)
        (hpoly(coeffs_far(), t - 43680, 2400) - 5628 * 24 * (51600 - t), pow(2400, 2))
    }
}

/// ΔT at the fractional year `t / 24`, in microseconds, rounded down.
pub open spec fn delta_t_micros(t: int) -> int {
    (delta_t_fraction(t).0 * 1000000) / delta_t_fraction(t).1
}

/// The fractional year `year + (month − 0.5) / 12` of the middle of a month,
/// counted in twenty-fourths of a year.
pub open spec fn mid_month(year: int, month: int) -> int {
    24 * year + 2 * month - 1
}

/// `floor(hpoly(c, v, w) · mul / div)`.
fn scaled_poly(c: &[i128], v: i128, w: i128, k0: i128, mul: i128, div: i128) -> (r: i128)
    requires
        c@.len() >= 1,
        w >= 1,
        k0 >= 1,
        -(k0 * w) <= v <= k0 * w,
        pow(w as int, c@.len()) <= HORNER_LIMIT,
        weight(c@, k0 as int) * pow(w as int, c@.len()) <= HORNER_LIMIT,
        1 <= mul,
        div >= 1,
        weight(c@, k0 as int) * pow(w as int, (c@.len() - 1) as nat) * mul <= HORNER_LIMIT,
    ensures
        r == (hpoly(c@, v as int, w as int) * mul) / (div as int),
        -HORNER_LIMIT <= r <= HORNER_LIMIT,
{
    let n = horner(c, v, w, k0);
    let ghost b = weight(c@, k0 as int) * pow(w as int, (c@.len() - 1) as nat);
    assert(-(b * mul) <= n * mul <= b * mul) by (nonlinear_arith)
        requires
            -b <= n <= b,
            mul >= 1,
    ;
    let r = floor_div(n * mul, div);
    assert(-HORNER_LIMIT <= r <= HORNER_LIMIT) by (nonlinear_arith)
        requires
            r == (n * mul) / (div as int),
            -(b * mul) <= n * mul <= b * mul,
            b * mul <= HORNER_LIMIT,
            div >= 1,
    ;
    r
}

/// ΔT at the fractional year `t / 24` (`t` counts twenty-fourths of a year),
/// in microseconds rounded down.
pub fn delta_t_frac_year(t: i64) -> (r: i128)
    requires
        -FRACTIONAL_YEAR_BOUND < t < FRACTIONAL_YEAR_BOUND,
    ensures
        r == delta_t_micros(t as int),
        -HORNER_LIMIT <= r <= HORNER_LIMIT,
{
    proof {
        reveal(pow);
        reveal_with_fuel(pow, 9);
        reveal_with_fuel(weight_from, 9);
    }
    if t < -12000 || t >= 51600 {
        let c: [i128; 3] = [-20, 0, 32];
        proof {
            assert(c@ =~= coeffs_far());
            assert(pow(2400, 2) == 5760000);
            assert(pow(2400, 3) == 13824000000);
        }
        let r = scaled_poly(&c, (t - 43680) as i128, 2400, 21474855, 25, 144);
        proof {
            lemma_rescale(hpoly(c@, t - 43680, 2400), 25, 144, 40000);
        }
        r
    } else if t < 12000 {
        let c: [i128; 7] = [
            105836000000000,
            -10144100000000,
            337831100000,
            -59520530000,
            -1798452000,
            221741920,
            90316521,
        ];
        proof {
            assert(c@ =~= coeffs_m500_500());
            assert(pow(2400, 6) == 191102976000000000000);
            assert(pow(2400, 7) == 458647142400000000000000);
        }
        let r = scaled_poly(&c, t as i128, 2400, 5, 1, 1911029760000000000000000);
        proof {
            lemma_rescale(hpoly(c@, t as int, 2400), 1, 1911029760000000000000000, 1000000);
        }
        r
    } else if t < 38400 {
        let c: [i128; 7] = [
            15742000000000,
            -5560100000000,
            712347200000,
            3197810000,
            -8503463000,
            -50509980,
            83572073,
        ];
        proof {
            assert(c@ =~= coeffs_500_1600());
            assert(pow(2400, 6) == 191102976000000000000);
            assert(pow(2400, 7) == 458647142400000000000000);
        }
        let r = scaled_poly(&c, (t - 24000) as i128, 2400, 6, 1, 1911029760000000000000000);
        proof {
            lemma_rescale(hpoly(c@, t - 24000, 2400), 1, 1911029760000000000000000, 1000000);
        }
        r
    } else if t < 40800 {
        let c: [i128; 4] = [21387000000, -174803080, -2730407, 25000];
        proof {
            assert(c@ =~= coeffs_1600_1700());
            assert(pow(24, 3) == 13824);
            assert(pow(24, 4) == 331776);
        }
        let r = scaled_poly(&c, (t - 38400) as i128, 24, 100, 5, 12318912);
        proof {
            lemma_rescale(hpoly(c@, t - 38400, 24), 5, 12318912, 200000);
        }
        r
    } else if t < 43200 {
        let c: [i128; 5] = [259160500000, 4704805000, -174001475, 3914116, -25000];
        proof {
            assert(c@ =~= coeffs_1700_1800());
            assert(pow(24, 4) == 331776);
            assert(pow(24, 5) == 7962624);
        }
        let r = scaled_poly(&c, (t - 40800) as i128, 24, 100, 1, 9737625600);
        proof {
            lemma_rescale(hpoly(c@, t - 40800, 24), 1, 9737625600, 1000000);
        }
        r
    } else if t < 44640 {
        let c: [i128; 8] = [
            548800000000,
            -13297880000,
            274448000,
            164464000,
            -14974400,
            485088,
            -6796,
            35,
        ];
        proof {
            assert(c@ =~= coeffs_1800_1860());
            assert(pow(24, 7) == 4586471424);
            assert(pow(24, 8) == 110075314176);
        }
        let r = scaled_poly(&c, (t - 43200) as i128, 24, 60, 1, 183458856960000);
        proof {
            lemma_rescale(hpoly(c@, t - 43200, 24), 1, 183458856960000, 1000000);
        }
        r
    } else if t < 45600 {
        let c: [i128; 4] = [190500000, 14342500, -6293850, 420167];
        proof {
            assert(c@ =~= coeffs_1860_1900());
            assert(pow(24, 3) == 13824);
            assert(pow(24, 4) == 331776);
        }
        let r = scaled_poly(&c, (t - 44640) as i128, 24, 40, 1, 345600);
        proof {
            lemma_rescale(hpoly(c@, t - 44640, 24), 1, 345600, 1000000);
        }
        r
    } else if t < 46080 {
        let c: [i128; 5] = [-27900000, 14941190, -598939, 61966, -1970];
        proof {
            assert(c@ =~= coeffs_1900_1920());
            assert(pow(24, 4) == 331776);
            assert(pow(24, 5) == 7962624);
        }
        let r = scaled_poly(&c, (t - 45600) as i128, 24, 20, 1, 3317760);
        proof {
            lemma_rescale(hpoly(c@, t - 45600, 24), 1, 3317760, 1000000);
        }
        r
    } else if t < 46584 {
        let c: [i128; 4] = [53000000, 2112325, -190250, 5234];
        proof {
            assert(c@ =~= coeffs_1920_1941());
            assert(pow(24, 3) == 13824);
            assert(pow(24, 4) == 331776);
        }
        let r = scaled_poly(&c, (t - 46080) as i128, 24, 21, 1, 34560);
        proof {
            lemma_rescale(hpoly(c@, t - 46080, 24), 1, 34560, 1000000);
        }
        r
    } else if t < 47064 {
        let c: [i128; 4] = [17251620570, 241534557, -2547000, 233000];
        proof {
            assert(c@ =~= coeffs_1941_1961());
            assert(pow(24, 3) == 13824);
            assert(pow(24, 4) == 331776);
        }
        let r = scaled_poly(&c, (t - 46800) as i128, 24, 11, 125, 1025483328);
        proof {
            lemma_rescale(hpoly(c@, t - 46800, 24), 125, 1025483328, 8000);
        }
        r
    } else if t < 47664 {
        let c: [i128; 4] = [212115150, 4979689, -17950, -6500];
        proof {
            assert(c@ =~= coeffs_1961_1986());
            assert(pow(24, 3) == 13824);
            assert(pow(24, 4) == 331776);
        }
        let r = scaled_poly(&c, (t - 47400) as i128, 24, 14, 125, 8064576);
        proof {
            lemma_rescale(hpoly(c@, t - 47400, 24), 125, 8064576, 8000);
        }
        r
    } else if t < 48120 {
        let c: [i128; 6] = [6386000000000, 33450000000, -6037400000, 172750000, 65181400, 2373599];
        proof {
            assert(c@ =~= coeffs_1986_2005());
            assert(pow(24, 5) == 7962624);
            assert(pow(24, 6) == 191102976);
        }
        let r = scaled_poly(&c, (t - 48000) as i128, 24, 14, 1, 796262400000);
        proof {
            lemma_rescale(hpoly(c@, t - 48000, 24), 1, 796262400000, 1000000);
        }
        r
    } else if t < 49200 {
        let c: [i128; 3] = [62920000, 322170, 5589];
        proof {
            assert(c@ =~= coeffs_2005_2050());
            assert(pow(24, 2) == 576);
            assert(pow(24, 3) == 13824);
        }
        let r = scaled_poly(&c, (t - 48000) as i128, 24, 50, 1, 576);
        proof {
            lemma_rescale(hpoly(c@, t - 48000, 24), 1, 576, 1000000);
        }
        r
    } else {
        let c: [i128; 3] = [-20, 0, 32];
        proof {
            assert(c@ =~= coeffs_far());
            assert(pow(2400, 2) == 5760000);
            assert(pow(2400, 3) == 13824000000);
        }
        let n = horner(&c, (t - 43680) as i128, 2400, 4);
        assert(-532 * 5760000 <= n <= 532 * 5760000);
        let total = n - 5628 * 24 * (51600 - t as i128);
        proof {
            lemma_rescale(total as int, 25, 144, 40000);
        }
        floor_div(total * 25, 144)
    }
}

/// ΔT (TT − UT) in the middle of the given month, in microseconds rounded
/// down.
pub fn delta_t(year: i32, month: u8) -> (r: i128)
    requires
        1 <= month <= 12,
    ensures
        r == delta_t_micros(mid_month(year as int, month as int)),
        -HORNER_LIMIT <= r <= HORNER_LIMIT,
{
    delta_t_frac_year(24 * year as i64 + 2 * month as i64 - 1)
}

/// The Julian Ephemeris Day for a Julian Day in seconds and ΔT in
/// microseconds, both counted in microseconds: `jde = jd + ΔT / 86400`.
pub fn jd_to_jde(jd: i64, delta_t_micros: i128) -> (r: i128)
    requires
        -HORNER_LIMIT <= delta_t_micros <= HORNER_LIMIT,
    ensures
        r == jd * 1000000 + delta_t_micros,
{
    jd as i128 * 1000000 + delta_t_micros
}

/// The Julian Ephemeris Day of a civil date-time, in microseconds since the
/// Julian Day epoch: its Julian Day shifted by ΔT of its month.
pub fn ndt_to_jule(date: &CivilDateTime) -> (r: i128)
    requires
        1 <= date.month <= 12,
    ensures
        r == julian_day_seconds(*date) * 1000000 + delta_t_micros(
            mid_month(date.year as int, date.month as int),
        ),
{
    jd_to_jde(ndt_to_jul(date), delta_t(date.year, date.month))
}

} // verus!
