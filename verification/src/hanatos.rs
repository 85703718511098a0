//! From RGB to film exposure: chromaticity, and a cubic lookup in the table
//! of exposures over it.

use vstd::arithmetic::power2::{lemma2_to64, lemma2_to64_rest, lemma_pow2_adds, pow2};
use vstd::prelude::*;

use crate::arith::{all_hold, constant, dot3, double, evaluates, formulas, is_double, is_single};
use crate::arith::{larger, minus, narrow, over, plus, rounds_to, single, sum_from, times};
use crate::arith::{unary, widen};
use crate::arith::{Arithmetic, Binary, Formula, Rounding, Sample, Traced, Unary};
use crate::bits::{Double, Single};
use crate::colorspace::{chromatic_adaptation_matrix_f64, colorspace_to_xyz_f64};
use crate::colorspace::{colorspace_white_xyz_f64, decoded};
use crate::colorspace::{is_adaptation, is_white, to_xyz_bits, white_chromaticity};
use crate::density_curves::ONE;
use crate::exact::{double_value, exact, has_roots, lemma_small_numbers, size_of_real, squared};
use crate::exact::Functions;
use crate::illuminants::{illuminant_xyz_f64, is_white_by_spectrum};
use crate::image::ImageBuf;
use crate::index::lemma_row_major_bound;
use crate::lut::{lemma_table_bound, reflected, stencil, table_index};
use crate::pchip::HALF;
use crate::rounding::{lemma_binary, lemma_huge, lemma_order, lemma_unary, near, sound};
use crate::spectral::ColorSpace;
use crate::spectral_service::{TcLut, SMALLEST_SUM};

verus! {

pub open spec fn zero() -> Double {
    Double { bits: 0 }
}

pub open spec fn unit() -> Double {
    Double { bits: ONE }
}

// ── Chromaticity ─────────────────────────────────────────────────────────

/// The first table coordinate of a chromaticity.
pub open spec fn first_coordinate(x: Formula) -> Formula {
    times(minus(constant(ONE), x), minus(constant(ONE), x))
}

/// The second table coordinate of a chromaticity.
pub open spec fn second_coordinate(x: Formula, y: Formula) -> Formula {
    over(y, larger(minus(constant(ONE), x), constant(SMALLEST_SUM)))
}

/// The first part of the chromaticity of table coordinates.
pub open spec fn first_part(tx: Formula) -> Formula {
    minus(constant(ONE), unary(Unary::SquareRoot, larger(tx, constant(0))))
}

/// The second part of the chromaticity of table coordinates.
pub open spec fn second_part(tx: Formula, ty: Formula) -> Formula {
    times(ty, unary(Unary::SquareRoot, larger(tx, constant(SMALLEST_SUM))))
}

/// `r` is the table coordinates of a chromaticity, each kept between 0 and 1.
pub open spec fn are_coordinates<A: Arithmetic>(
    ar: &A,
    x: Double,
    y: Double,
    r: (Double, Double),
) -> bool {
    exists|tx: Double, ty: Double|
        {
            &&& #[trigger] is_double(ar, first_coordinate(double(x)), tx)
            &&& #[trigger] is_double(ar, second_coordinate(double(x), double(y)), ty)
            &&& r.0 == tx.limited(zero(), unit())
            &&& r.1 == ty.limited(zero(), unit())
        }
}

/// Table coordinates of a chromaticity.
pub fn xy_to_tc<A: Arithmetic>(ar: &A, x: Double, y: Double) -> (r: (Double, Double))
    ensures
        are_coordinates(ar, x, y, r),
{
    let one: Traced<Double> = Traced::constant(ar, ONE);
    let rest = one.minus(ar, Traced::new(ar, x));
    let tx = rest.times(ar, rest).value;
    let v: Traced<Double> = Traced::new(ar, y);
    let ty = v.over(ar, rest.larger(ar, Traced::constant(ar, SMALLEST_SUM))).value;
    let low = Double { bits: 0 };
    let high = Double { bits: ONE };
    proof {
        assert(is_double(ar, first_coordinate(double(x)), tx));
        assert(is_double(ar, second_coordinate(double(x), double(y)), ty));
    }
    (tx.clamp(low, high), ty.clamp(low, high))
}

/// `r` is the chromaticity of table coordinates, kept between 0 and 1.
pub open spec fn is_chromaticity<A: Arithmetic>(
    ar: &A,
    tx: Double,
    ty: Double,
    r: (Double, Double),
) -> bool {
    exists|x: Double, y: Double|
        {
            &&& #[trigger] is_double(ar, first_part(double(tx)), x)
            &&& #[trigger] is_double(ar, second_part(double(tx), double(ty)), y)
            &&& r.0 == x.limited(zero(), unit())
            &&& r.1 == y.limited(zero(), unit())
        }
}

/// Chromaticity of table coordinates.
pub fn tc_to_xy<A: Arithmetic>(ar: &A, tx: Double, ty: Double) -> (r: (Double, Double))
    ensures
        is_chromaticity(ar, tx, ty, r),
{
    let one: Traced<Double> = Traced::constant(ar, ONE);
    let t: Traced<Double> = Traced::new(ar, tx);
    let root = t.larger(ar, Traced::constant(ar, 0)).unary(ar, Unary::SquareRoot);
    let x = one.minus(ar, root).value;
    let v: Traced<Double> = Traced::new(ar, ty);
    let guarded = t.larger(ar, Traced::constant(ar, SMALLEST_SUM)).unary(ar, Unary::SquareRoot);
    let y = v.times(ar, guarded).value;
    let low = Double { bits: 0 };
    let high = Double { bits: ONE };
    proof {
        assert(is_double(ar, first_part(double(tx)), x));
        assert(is_double(ar, second_part(double(tx), double(ty)), y));
    }
    (x.clamp(low, high), y.clamp(low, high))
}

proof fn lemma_share(x: real, y: real)
    by (nonlinear_arith)
    requires
        0real <= x <= 99real / 100real,
        0real <= y <= 1real - x,
    ensures
        0real <= (1real - x) * (1real - x) <= 1real,
        1real / 10000real <= (1real - x) * (1real - x),
        0real <= y / (1real - x) <= 1real,
        (y / (1real - x)) * (1real - x) == y,
{
}

/// 1e-10 is below 1e-5.
proof fn lemma_smallest_sum()
    ensures
        0real < double_value(Double { bits: SMALLEST_SUM }) < 1real / 100000real,
{
    lemma2_to64_rest();
    lemma2_to64();
    lemma_pow2_adds(64, 22);
    assert(pow2(86) == 0x40_0000_0000_0000_0000_0000);
    assert(double_value(Double { bits: SMALLEST_SUM }) == (0x1b_7cdf_d9d7_bdbbint as real) / (
    0x40_0000_0000_0000_0000_0000int as real));
}

/// Without rounding, the chromaticity of the table coordinates of a
/// chromaticity is this chromaticity, and both coordinates lie between 0 and
/// 1, where keeping them there changes nothing. Next to x = 1 a guard against
/// a division by zero takes over.
pub proof fn lemma_coordinates_turn_back(g: Functions, x: Formula, y: Formula)
    requires
        has_roots(g),
        0real <= exact(g, x) <= 99real / 100real,
        0real <= exact(g, y) <= 1real - exact(g, x),
    ensures
        ({
            let tx = first_coordinate(x);
            let ty = second_coordinate(x, y);
            &&& 0real <= exact(g, tx) <= 1real
            &&& 0real <= exact(g, ty) <= 1real
            &&& exact(g, first_part(tx)) == exact(g, x)
            &&& exact(g, second_part(tx, ty)) == exact(g, y)
        }),
{
    lemma_small_numbers();
    lemma_smallest_sum();
    lemma_share(exact(g, x), exact(g, y));
    let rest = 1real - exact(g, x);
    reveal_with_fuel(exact, 4);
    let tx = first_coordinate(x);
    let ty = second_coordinate(x, y);
    assert(exact(g, tx) == rest * rest);
    assert(exact(g, ty) == exact(g, y) / rest);
    assert((g.unary)(Unary::SquareRoot, squared(rest)) == rest);
    assert(exact(g, larger(tx, constant(0))) == rest * rest);
    assert(exact(g, larger(tx, constant(SMALLEST_SUM))) == rest * rest);
}

/// The rest of a share to 1, rounded.
pub open spec fn is_rest(x: real, d: Double) -> bool {
    d.finite() && near(double_value(d), 1real - x) && double_value(d) <= 1real
}

proof fn lemma_rest<A: Arithmetic>(ar: &A, x: Double, d: Double)
    requires
        sound(ar),
        x.finite(),
        0real <= double_value(x) <= 1real,
        is_double(ar, minus(constant(ONE), double(x)), d),
    ensures
        is_rest(double_value(x), d),
{
    lemma_small_numbers();
    lemma_huge();
    let one = Double { bits: ONE };
    assert(one.finite());
    let (o, v) = lemma_binary(ar, Binary::Minus, constant(ONE), double(x), d);
}

/// Two rests multiplied, and a share of one.
proof fn lemma_rests(c: real, d: real, g: real, y: real)
    by (nonlinear_arith)
    requires
        1real / 100real <= c <= 1real,
        -(c / 100000000000000real) <= d - c <= c / 100000000000000real,
        -(c / 100000000000000real) <= g - c <= c / 100000000000000real,
        0real <= y <= c,
    ensures
        c * c - c * c / 10000000000000real <= d * g <= c * c + c * c / 10000000000000real,
        0real <= y / d <= 1real + 1real / 10000000000000real,
        (y / d) * d == y,
{
    assert((y / d) * d == y);
    let e = c / 100000000000000real;
    assert(d * g - c * c == (d - c) * g + c * (g - c));
    assert(-(e * 2real * c) <= (d - c) * g <= e * 2real * c);
    assert(-(c * e) <= c * (g - c) <= c * e);
}

/// A root of what is next to a square is next to its side.
proof fn lemma_root_near(s: real, c: real, t: real)
    by (nonlinear_arith)
    requires
        0real <= s,
        1real / 100real <= c <= 1real,
        c * c - c * c / 1000000000000real <= t <= c * c + c * c / 1000000000000real,
        t - t / 100000000000000real <= s * s <= t + t / 100000000000000real,
    ensures
        -(1real / 100000000000real) <= s - c <= 1real / 100000000000real,
{
    let e = 1real / 100000000000real;
    assert(c * c <= 1real);
    assert(s * s <= c * c + c * c / 100000000000real);
    assert(s * s >= c * c - c * c / 100000000000real);
    if s > c + e {
        assert(s * s > (c + e) * (c + e));
        assert((c + e) * (c + e) >= c * c + 2real * c * e);
        assert(2real * c * e >= c * c * e);
    }
    if s < c - e {
        assert(s * s <= s * (c - e) && s * (c - e) <= (c - e) * c);
        assert((c - e) * c == c * c - e * c);
        assert(e * c >= c * c * e);
        if s > 0real {
            assert(s * s < s * (c - e));
        } else {
            assert(s * s == 0real);
        }
    }
}

/// A product with one factor exchanged for a near one.
proof fn lemma_exchanged(t: real, d: real, s: real, y: real)
    by (nonlinear_arith)
    requires
        0real <= t <= 1real,
        -(2real / 100000000000real) <= s - d <= 2real / 100000000000real,
        -(1real / 100000000000real) <= t * d - y <= 1real / 100000000000real,
    ensures
        -(4real / 100000000000real) <= t * s - y <= 4real / 100000000000real,
{
    assert(t * s - y == t * (s - d) + (t * d - y));
    assert(-(2real / 100000000000real) <= t * (s - d) <= 2real / 100000000000real);
}

/// A share held at 1 changes little.
proof fn lemma_held(t: real, q: real, d: real, y: real)
    by (nonlinear_arith)
    requires
        0real < d <= 1real,
        q * d == y,
        -(1real / 1000000000000real) <= t - q <= 1real / 1000000000000real,
    ensures
        -(1real / 1000000000000real) <= t * d - y <= 1real / 1000000000000real,
{
    assert(t * d - y == (t - q) * d);
}

proof fn lemma_product_in_unit(t: real, s: real)
    by (nonlinear_arith)
    requires
        0real <= t <= 1real,
        0real <= s <= 2real,
    ensures
        0real <= t * s <= 2real,
{
}

/// A number kept between 0 and 1.
proof fn lemma_kept(x: Double)
    requires
        x.finite(),
    ensures
        x.limited(zero(), unit()).finite(),
        double_value(x.limited(zero(), unit())) == if double_value(x) < 0real {
            0real
        } else if double_value(x) > 1real {
            1real
        } else {
            double_value(x)
        },
{
    lemma_small_numbers();
    lemma_order(x, zero());
    lemma_order(unit(), x);
    lemma_order(zero(), x);
}

/// The coordinates of a chromaticity are near those without rounding.
proof fn lemma_coordinates_near<A: Arithmetic>(
    ar: &A,
    x: Double,
    y: Double,
    t: (Double, Double),
) -> (d: Double)
    requires
        sound(ar),
        x.finite(),
        y.finite(),
        0real <= double_value(x) <= 99real / 100real,
        0real <= double_value(y) <= 1real - double_value(x),
        are_coordinates(ar, x, y, t),
    ensures
        t.0.finite(),
        t.1.finite(),
        0real <= double_value(t.0) <= 1real,
        0real <= double_value(t.1) <= 1real,
        is_rest(double_value(x), d),
        ({
            let c = 1real - double_value(x);
            c * c - c * c / 1000000000000real <= double_value(t.0) <= c * c + c * c
                / 1000000000000real
        }),
        -(1real / 1000000000000real) <= double_value(t.1) * double_value(d) - double_value(y)
            <= 1real / 1000000000000real,
{
    lemma_small_numbers();
    lemma_smallest_sum();
    lemma_huge();
    let c = 1real - double_value(x);
    let small = Double { bits: SMALLEST_SUM };
    assert(small.finite() && unit().finite() && zero().finite());
    let (tx, ty) = choose|tx: Double, ty: Double|
        {
            &&& #[trigger] is_double(ar, first_coordinate(double(x)), tx)
            &&& #[trigger] is_double(ar, second_coordinate(double(x), double(y)), ty)
            &&& t.0 == tx.limited(zero(), unit())
            &&& t.1 == ty.limited(zero(), unit())
        };
    let rest = minus(constant(ONE), double(x));
    let (d0, d1) = lemma_binary(ar, Binary::Times, rest, rest, tx);
    lemma_rest(ar, x, d0);
    lemma_rest(ar, x, d1);
    let (y0, g) = lemma_binary(
        ar,
        Binary::Over,
        double(y),
        larger(rest, constant(SMALLEST_SUM)),
        ty,
    );
    let (d2, k) = lemma_binary(ar, Binary::Max, rest, constant(SMALLEST_SUM), g);
    lemma_rest(ar, x, d2);
    let dv = double_value(d2);
    assert(double_value(g) == dv);
    lemma_rests(c, double_value(d0), double_value(d1), double_value(y));
    lemma_rests(c, dv, dv, double_value(y));
    lemma_unit_square(c);
    assert(tx.finite());
    let dd = double_value(d0) * double_value(d1);
    let cc = c * c;
    assert(near(double_value(tx), dd));
    assert(cc - cc / 1000000000000real <= double_value(tx) <= cc + cc / 1000000000000real);
    assert(ty.finite());
    let q = double_value(y) / dv;
    assert(near(double_value(ty), q));
    lemma_kept(tx);
    lemma_kept(ty);
    lemma_held(double_value(t.1), q, dv, double_value(y));
    d2
}

proof fn lemma_unit_square(c: real)
    by (nonlinear_arith)
    requires
        1real / 100real <= c <= 1real,
    ensures
        1real / 10000real <= c * c <= 1real,
{
}

/// Where the arithmetic rounds as it should, table coordinates lie between 0
/// and 1, and the chromaticity of the coordinates of a chromaticity is this
/// chromaticity within 1e-9. Next to x = 1 a guard against a division by zero
/// takes over.
pub proof fn lemma_coordinates_round_trip<A: Arithmetic>(
    ar: &A,
    x: Double,
    y: Double,
    t: (Double, Double),
    r: (Double, Double),
)
    requires
        sound(ar),
        x.finite(),
        y.finite(),
        0real <= double_value(x) <= 99real / 100real,
        0real <= double_value(y) <= 1real - double_value(x),
        are_coordinates(ar, x, y, t),
        is_chromaticity(ar, t.0, t.1, r),
    ensures
        0real <= double_value(t.0) <= 1real,
        0real <= double_value(t.1) <= 1real,
        r.0.finite(),
        r.1.finite(),
        size_of_real(double_value(r.0) - double_value(x)) <= 1real / 1000000000real,
        size_of_real(double_value(r.1) - double_value(y)) <= 1real / 1000000000real,
{
    let d = lemma_coordinates_near(ar, x, y, t);
    lemma_small_numbers();
    lemma_smallest_sum();
    lemma_huge();
    let c = 1real - double_value(x);
    lemma_unit_square(c);
    let small = Double { bits: SMALLEST_SUM };
    assert(small.finite() && unit().finite() && zero().finite());
    let (x1, y1) = choose|x1: Double, y1: Double|
        {
            &&& #[trigger] is_double(ar, first_part(double(t.0)), x1)
            &&& #[trigger] is_double(ar, second_part(double(t.0), double(t.1)), y1)
            &&& r.0 == x1.limited(zero(), unit())
            &&& r.1 == y1.limited(zero(), unit())
        };
    let (o, s) = lemma_binary(
        ar,
        Binary::Minus,
        constant(ONE),
        unary(Unary::SquareRoot, larger(double(t.0), constant(0))),
        x1,
    );
    let m = lemma_unary(ar, Unary::SquareRoot, larger(double(t.0), constant(0)), s);
    let (t0, z) = lemma_binary(ar, Binary::Max, double(t.0), constant(0), m);
    lemma_root_near(double_value(s), c, double_value(t.0));
    let guarded = larger(double(t.0), constant(SMALLEST_SUM));
    let (t1, s2) = lemma_binary(
        ar,
        Binary::Times,
        double(t.1),
        unary(Unary::SquareRoot, guarded),
        y1,
    );
    let m2 = lemma_unary(ar, Unary::SquareRoot, guarded, s2);
    let (t2, k) = lemma_binary(ar, Binary::Max, double(t.0), constant(SMALLEST_SUM), m2);
    assert(double_value(m2) == double_value(t.0));
    lemma_root_near(double_value(s2), c, double_value(t.0));
    lemma_exchanged(
        double_value(t.1),
        double_value(d),
        double_value(s2),
        double_value(y),
    );
    lemma_product_in_unit(double_value(t.1), double_value(s2));
    lemma_kept(x1);
    lemma_kept(y1);
}

/// `r` is the chromaticity of a colour: X and Y over the sum of the three,
/// and that of a white where the sum is not above 0.
pub open spec fn is_xy<A: Arithmetic>(ar: &A, xyz: [Double; 3], r: (Double, Double)) -> bool {
    exists|sum: Double| #[trigger]
        is_double(
            ar,
            plus(plus(double(xyz@[0]), double(xyz@[1])), double(xyz@[2])),
            sum,
        ) && if sum.at_most(zero()) {
            // 0.3127 and 0.3290
            r.0.bits == 0x3fd4_0346_dc5d_6388u64 && r.1.bits == 0x3fd5_0e56_0418_9375u64
        } else {
            is_double(ar, over(double(xyz@[0]), double(sum)), r.0) && is_double(
                ar,
                over(double(xyz@[1]), double(sum)),
                r.1,
            )
        }
}

/// Chromaticity of a colour.
pub fn xyz_to_xy_f64<A: Arithmetic>(ar: &A, xyz: [Double; 3]) -> (r: (Double, Double))
    ensures
        is_xy(ar, xyz, r),
{
    let x: Traced<Double> = Traced::new(ar, xyz[0]);
    let y: Traced<Double> = Traced::new(ar, xyz[1]);
    let z: Traced<Double> = Traced::new(ar, xyz[2]);
    let sum = x.plus(ar, y).plus(ar, z).value;
    assert(is_double(
        ar,
        plus(plus(double(xyz@[0]), double(xyz@[1])), double(xyz@[2])),
        sum,
    ));
    if sum.is_at_most(Double { bits: 0 }) {
        return (Double { bits: 0x3fd4_0346_dc5d_6388 }, Double { bits: 0x3fd5_0e56_0418_9375 });
    }
    let s: Traced<Double> = Traced::new(ar, sum);
    (x.over(ar, s).value, y.over(ar, s).value)
}

// ── The cubic kernel ─────────────────────────────────────────────────────

/// `r` is the kernel at distance `t`: one cubic up to 1, another up to 2, and
/// nothing beyond.
pub open spec fn is_weight<A: Arithmetic>(ar: &A, t: Formula, r: Double) -> bool {
    exists|at: Double| #[trigger] is_double(ar, t, at) && weight_at(ar, at.absolute(), r)
}

pub open spec fn weight_at<A: Arithmetic>(ar: &A, x: Double, r: Double) -> bool {
    let v = double(x);
    // 1/6
    let sixth = constant(0x3fc5_5555_5555_5555);
    if x.below(unit()) {
        // 7, -12 and 16/3
        is_double(
            ar,
            times(
                sixth,
                plus(
                    plus(
                        times(times(times(constant(0x401c_0000_0000_0000), v), v), v),
                        times(times(constant(0xc028_0000_0000_0000), v), v),
                    ),
                    constant(0x4015_5555_5555_5555),
                ),
            ),
            r,
        )
    } else if x.below(Double { bits: 0x4000_0000_0000_0000 }) {
        // -7/3, 12, -20 and 32/3
        is_double(
            ar,
            times(
                sixth,
                plus(
                    plus(
                        plus(
                            times(times(times(constant(0xc002_aaaa_aaaa_aaab), v), v), v),
                            times(times(constant(0x4028_0000_0000_0000), v), v),
                        ),
                        times(constant(0xc034_0000_0000_0000), v),
                    ),
                    constant(0x4025_5555_5555_5555),
                ),
            ),
            r,
        )
    } else {
        r == zero()
    }
}

fn mitchell_weight<A: Arithmetic>(ar: &A, t: Traced<Double>) -> (r: Double)
    requires
        t.holds(ar),
    ensures
        is_weight(ar, t.formula@, r),
{
    let x = t.value.abs();
    assert(is_double(ar, t.formula@, t.value));
    let v: Traced<Double> = Traced::new(ar, x);
    let sixth: Traced<Double> = Traced::constant(ar, 0x3fc5_5555_5555_5555);
    if x.is_below(Double { bits: ONE }) {
        let a3: Traced<Double> = Traced::constant(ar, 0x401c_0000_0000_0000);
        let a2: Traced<Double> = Traced::constant(ar, 0xc028_0000_0000_0000);
        let a0: Traced<Double> = Traced::constant(ar, 0x4015_5555_5555_5555);
        let p = a3.times(ar, v).times(ar, v).times(ar, v);
        let q = a2.times(ar, v).times(ar, v);
        sixth.times(ar, p.plus(ar, q).plus(ar, a0)).value
    } else if x.is_below(Double { bits: 0x4000_0000_0000_0000 }) {
        let b3: Traced<Double> = Traced::constant(ar, 0xc002_aaaa_aaaa_aaab);
        let b2: Traced<Double> = Traced::constant(ar, 0x4028_0000_0000_0000);
        let b1: Traced<Double> = Traced::constant(ar, 0xc034_0000_0000_0000);
        let b0: Traced<Double> = Traced::constant(ar, 0x4025_5555_5555_5555);
        let p = b3.times(ar, v).times(ar, v).times(ar, v);
        let q = b2.times(ar, v).times(ar, v);
        sixth.times(ar, p.plus(ar, q).plus(ar, b1.times(ar, v)).plus(ar, b0)).value
    } else {
        Double { bits: 0 }
    }
}

/// `w` holds the weights of the four samples around a fraction.
pub open spec fn are_weights<A: Arithmetic>(ar: &A, f: Double, w: [Double; 4]) -> bool {
    &&& is_weight(ar, plus(double(f), constant(ONE)), w@[0])
    &&& is_weight(ar, double(f), w@[1])
    &&& is_weight(ar, minus(double(f), constant(ONE)), w@[2])
    &&& is_weight(ar, minus(double(f), constant(0x4000_0000_0000_0000)), w@[3])
}

fn weights<A: Arithmetic>(ar: &A, f: Double) -> (r: [Double; 4])
    ensures
        are_weights(ar, f, r),
{
    let v: Traced<Double> = Traced::new(ar, f);
    let one: Traced<Double> = Traced::constant(ar, ONE);
    let two: Traced<Double> = Traced::constant(ar, 0x4000_0000_0000_0000);
    [
        mitchell_weight(ar, v.plus(ar, one)),
        mitchell_weight(ar, v),
        mitchell_weight(ar, v.minus(ar, one)),
        mitchell_weight(ar, v.minus(ar, two)),
    ]
}

// ── The lookup ───────────────────────────────────────────────────────────

/// A cell of an axis and a position inside it.
#[derive(Clone, Copy)]
pub struct Spot {
    pub base: usize,
    pub fraction: Double,
}

/// `p` is where a coordinate falls on an axis of `len` samples.
pub open spec fn is_spot<A: Arithmetic>(ar: &A, x: Double, len: nat, p: Spot) -> bool {
    exists|top: Double| #[trigger]
        is_double(ar, Formula::Whole((len - 1) as u64), top) && spotted(
            ar,
            x.limited(zero(), top),
            top,
            len,
            p,
        )
}

pub open spec fn spotted<A: Arithmetic>(ar: &A, x: Double, top: Double, len: nat, p: Spot) -> bool {
    &&& p.base + 1 < len
    &&& if top.at_most(x) {
        p.base == len - 2
    } else {
        exists|n: i64| #[trigger]
            rounds_to(ar, Rounding::Down, double(x), n) && p.base == (if n < 0 {
                0
            } else if n > len - 2 {
                len - 2
            } else {
                n as int
            })
    }
    &&& is_double(ar, minus(double(x), Formula::Whole(p.base as u64)), p.fraction)
}

fn spot<A: Arithmetic>(ar: &A, x: Double, len: usize) -> (r: Spot)
    requires
        len >= 2,
    ensures
        is_spot(ar, x, len as nat, r),
        r.base + 1 < len,
{
    let end: Traced<Double> = Traced::whole(ar, (len - 1) as u64);
    let top = end.value;
    assert(is_double(ar, Formula::Whole((len - 1) as u64), top));
    let low = Double { bits: 0 };
    let at = if x.is_below(low) {
        low
    } else if top.is_below(x) {
        top
    } else {
        x
    };
    let v: Traced<Double> = Traced::new(ar, at);
    let base: usize = if top.is_at_most(at) {
        len - 2
    } else {
        let n: i64 = v.rounded(ar, Rounding::Down);
        assert(rounds_to(ar, Rounding::Down, double(at), n));
        if n < 0 {
            0
        } else if n as u64 > (len - 2) as u64 {
            len - 2
        } else {
            n as usize
        }
    };
    let cell: Traced<Double> = Traced::whole(ar, base as u64);
    let fraction = v.minus(ar, cell).value;
    Spot { base, fraction }
}

/// The sample under tap `n` of the sixteen around a cell.
pub open spec fn sample_at(
    data: Seq<Double>,
    first: nat,
    second: nat,
    channels: nat,
    x: int,
    y: int,
    c: int,
    n: int,
) -> Double {
    data[table_index(
        second as int,
        channels as int,
        reflected(x + n / 4 - 1, first as int),
        reflected(y + n % 4 - 1, second as int),
        c,
    )]
}

/// The weight of tap `n`.
pub open spec fn tap_weight(wx: [Double; 4], wy: [Double; 4], n: int) -> Formula {
    times(double(wx@[n / 4]), double(wy@[n % 4]))
}

/// The weights of the first `n` taps, added up.
pub open spec fn weight_total(wx: [Double; 4], wy: [Double; 4], n: int) -> Formula {
    sum_from(constant(0), |k: int| tap_weight(wx, wy, k), n)
}

/// The weighted samples of the first `n` taps, added up.
pub open spec fn sample_total(
    data: Seq<Double>,
    first: nat,
    second: nat,
    channels: nat,
    x: int,
    y: int,
    c: int,
    wx: [Double; 4],
    wy: [Double; 4],
    n: int,
) -> Formula {
    sum_from(
        constant(0),
        |k: int|
            times(
                tap_weight(wx, wy, k),
                double(sample_at(data, first, second, channels, x, y, c, k)),
            ),
        n,
    )
}

/// `r` is a channel of the table, read between its samples: their weighted
/// sum, over the sum of the weights unless that is 0.
pub open spec fn is_cubic<A: Arithmetic>(
    ar: &A,
    data: Seq<Double>,
    first: nat,
    second: nat,
    channels: nat,
    x: Spot,
    y: Spot,
    c: int,
    r: Double,
) -> bool {
    exists|wx: [Double; 4], wy: [Double; 4], whole: Double, part: Double|
        {
            &&& #[trigger] are_weights(ar, x.fraction, wx)
            &&& #[trigger] are_weights(ar, y.fraction, wy)
            &&& #[trigger] is_double(ar, weight_total(wx, wy, 16), whole)
            &&& #[trigger] is_double(
                ar,
                sample_total(
                    data,
                    first,
                    second,
                    channels,
                    x.base as int,
                    y.base as int,
                    c,
                    wx,
                    wy,
                    16,
                ),
                part,
            )
            &&& if whole.rank() == 0 {
                r == part
            } else {
                is_double(ar, over(double(part), double(whole)), r)
            }
        }
}

fn cubic<A: Arithmetic>(
    ar: &A,
    data: &[Double],
    first: usize,
    second: usize,
    channels: usize,
    x: Spot,
    y: Spot,
    c: usize,
) -> (r: Double)
    requires
        data@.len() == first * second * channels,
        2 <= first <= isize::MAX / 2,
        2 <= second <= isize::MAX / 2,
        x.base + 1 < first,
        y.base + 1 < second,
        c < channels,
    ensures
        is_cubic(
            ar,
            data@,
            first as nat,
            second as nat,
            channels as nat,
            x,
            y,
            c as int,
            r,
        ),
{
    let total: usize = data.len();
    let wx = weights(ar, x.fraction);
    let wy = weights(ar, y.fraction);
    let xs = stencil(x.base, first);
    let ys = stencil(y.base, second);
    let mut whole: Traced<Double> = Traced::constant(ar, 0);
    let mut part: Traced<Double> = Traced::constant(ar, 0);
    let mut n: usize = 0;
    while n < 16
        invariant
            n <= 16,
            total == data@.len(),
            data@.len() == first * second * channels,
            2 <= first,
            2 <= second,
            c < channels,
            forall|k: int|
                0 <= k < 4 ==> #[trigger] xs@[k] == reflected(x.base + k - 1, first as int)
                    && xs@[k] < first,
            forall|k: int|
                0 <= k < 4 ==> #[trigger] ys@[k] == reflected(y.base + k - 1, second as int)
                    && ys@[k] < second,
            whole.holds(ar),
            whole.formula@ == weight_total(wx, wy, n as int),
            part.holds(ar),
            part.formula@ == sample_total(
                data@,
                first as nat,
                second as nat,
                channels as nat,
                x.base as int,
                y.base as int,
                c as int,
                wx,
                wy,
                n as int,
            ),
        decreases 16 - n,
    {
        let i: usize = n / 4;
        let j: usize = n % 4;
        let xi: usize = xs[i];
        let yj: usize = ys[j];
        proof {
            lemma_table_bound(
                first as int,
                second as int,
                channels as int,
                xi as int,
                yj as int,
                c as int,
            );
            lemma_row_major_bound(xi as int, first as int, yj as int, second as int);
            assert(0 <= xi * second) by (nonlinear_arith)
                requires
                    0 <= xi,
                    0 <= second,
            ;
            assert(xi * second + yj <= (xi * second + yj) * channels) by (nonlinear_arith)
                requires
                    0 <= xi * second + yj,
                    1 <= channels,
            ;
        }
        let at: usize = (xi * second + yj) * channels + c;
        let a: Traced<Double> = Traced::new(ar, wx[i]);
        let w = a.times(ar, Traced::new(ar, wy[j]));
        whole = whole.plus(ar, w);
        part = part.plus(ar, w.times(ar, Traced::new(ar, data[at])));
        n += 1;
    }
    proof {
        assert(is_double(ar, weight_total(wx, wy, 16), whole.value));
        assert(is_double(
            ar,
            sample_total(
                data@,
                first as nat,
                second as nat,
                channels as nat,
                x.base as int,
                y.base as int,
                c as int,
                wx,
                wy,
                16,
            ),
            part.value,
        ));
        assert(are_weights(ar, x.fraction, wx));
        assert(are_weights(ar, y.fraction, wy));
    }
    if whole.value.is_zero() {
        part.value
    } else {
        let p: Traced<Double> = Traced::new(ar, part.value);
        p.over(ar, Traced::new(ar, whole.value)).value
    }
}

/// Reads every channel of a table between its samples.
pub fn bicubic_2d_f64<A: Arithmetic>(
    ar: &A,
    data: &[Double],
    first_dim: usize,
    second_dim: usize,
    channels: usize,
    x: Double,
    y: Double,
) -> (r: Vec<Double>)
    requires
        data@.len() == first_dim * second_dim * channels,
        2 <= first_dim <= isize::MAX / 2,
        2 <= second_dim <= isize::MAX / 2,
    ensures
        r@.len() == channels,
        exists|p: Spot, q: Spot|
            {
                &&& #[trigger] is_spot(ar, x, first_dim as nat, p)
                &&& #[trigger] is_spot(ar, y, second_dim as nat, q)
                &&& forall|c: int|
                    0 <= c < channels ==> is_cubic(
                        ar,
                        data@,
                        first_dim as nat,
                        second_dim as nat,
                        channels as nat,
                        p,
                        q,
                        c,
                        #[trigger] r@[c],
                    )
            },
{
    let p = spot(ar, x, first_dim);
    let q = spot(ar, y, second_dim);
    let mut r: Vec<Double> = Vec::new();
    let mut c: usize = 0;
    while c < channels
        invariant
            c <= channels,
            data@.len() == first_dim * second_dim * channels,
            2 <= first_dim <= isize::MAX / 2,
            2 <= second_dim <= isize::MAX / 2,
            p.base + 1 < first_dim,
            q.base + 1 < second_dim,
            r@.len() == c,
            forall|k: int|
                0 <= k < c ==> is_cubic(
                    ar,
                    data@,
                    first_dim as nat,
                    second_dim as nat,
                    channels as nat,
                    p,
                    q,
                    k,
                    #[trigger] r@[k],
                ),
        decreases channels - c,
    {
        let v = cubic(ar, data, first_dim, second_dim, channels, p, q, c);
        r.push(v);
        c += 1;
    }
    proof {
        assert(is_spot(ar, x, first_dim as nat, p));
        assert(is_spot(ar, y, second_dim as nat, q));
    }
    r
}

// ── Pixels ───────────────────────────────────────────────────────────────

/// Where a colour falls in the table, and how bright it is.
#[derive(Clone, Copy)]
pub struct Chroma {
    pub tx: Double,
    pub ty: Double,
    pub b: Double,
}

/// Entry `i` of a matrix times formulas.
pub open spec fn transformed(m: [[Double; 3]; 3], i: int, v: Seq<Formula>) -> Formula {
    dot3(seq![double(m@[i]@[0]), double(m@[i]@[1]), double(m@[i]@[2])], v)
}

/// A matrix times formulas.
pub open spec fn transform(m: [[Double; 3]; 3], v: Seq<Formula>) -> Seq<Formula> {
    seq![transformed(m, 0, v), transformed(m, 1, v), transformed(m, 2, v)]
}

/// `r` is the chromaticity and brightness of a colour.
pub open spec fn is_chroma<A: Arithmetic>(ar: &A, xyz: Seq<Formula>, r: Chroma) -> bool {
    exists|b: Double| #[trigger]
        is_double(ar, plus(plus(xyz[0], xyz[1]), xyz[2]), b) && if b.at_most(
            Double { bits: SMALLEST_SUM },
        ) {
            r.tx.bits == HALF && r.ty.bits == HALF && r.b == zero()
        } else {
            r.b == b && exists|x: Double, y: Double|
                {
                    &&& #[trigger] is_double(ar, over(xyz[0], double(b)), x)
                    &&& #[trigger] is_double(ar, over(xyz[1], double(b)), y)
                    &&& are_coordinates(
                        ar,
                        x.limited(zero(), unit()),
                        y.limited(zero(), unit()),
                        (r.tx, r.ty),
                    )
                }
        }
}

fn chroma_of<A: Arithmetic>(ar: &A, xyz: [Traced<Double>; 3]) -> (r: Chroma)
    requires
        all_hold(ar, xyz@),
    ensures
        is_chroma(ar, formulas(xyz@), r),
{
    assert(xyz@[0].holds(ar) && xyz@[1].holds(ar) && xyz@[2].holds(ar));
    let b = xyz[0].plus(ar, xyz[1]).plus(ar, xyz[2]).value;
    let ghost f = formulas(xyz@);
    assert(is_double(ar, plus(plus(f[0], f[1]), f[2]), b));
    if b.is_at_most(Double { bits: SMALLEST_SUM }) {
        return Chroma {
            tx: Double { bits: HALF },
            ty: Double { bits: HALF },
            b: Double { bits: 0 },
        };
    }
    let s: Traced<Double> = Traced::new(ar, b);
    let x = xyz[0].over(ar, s).value;
    let y = xyz[1].over(ar, s).value;
    proof {
        assert(is_double(ar, over(f[0], double(b)), x));
        assert(is_double(ar, over(f[1], double(b)), y));
    }
    let low = Double { bits: 0 };
    let high = Double { bits: ONE };
    let tc = xy_to_tc(ar, x.clamp(low, high), y.clamp(low, high));
    Chroma { tx: tc.0, ty: tc.1, b }
}

fn times_vector<A: Arithmetic>(ar: &A, m: &[[Double; 3]; 3], v: [Traced<Double>; 3]) -> (r:
    [Traced<Double>; 3])
    requires
        all_hold(ar, v@),
    ensures
        all_hold(ar, r@),
        formulas(r@) == transform(*m, formulas(v@)),
{
    let a = m[0];
    let b = m[1];
    let c = m[2];
    let ra: [Traced<Double>; 3] = [
        Traced::new(ar, a[0]),
        Traced::new(ar, a[1]),
        Traced::new(ar, a[2]),
    ];
    let rb: [Traced<Double>; 3] = [
        Traced::new(ar, b[0]),
        Traced::new(ar, b[1]),
        Traced::new(ar, b[2]),
    ];
    let rc: [Traced<Double>; 3] = [
        Traced::new(ar, c[0]),
        Traced::new(ar, c[1]),
        Traced::new(ar, c[2]),
    ];
    proof {
        assert(all_hold(ar, ra@));
        assert(all_hold(ar, rb@));
        assert(all_hold(ar, rc@));
        assert(formulas(ra@) =~= seq![double(m@[0]@[0]), double(m@[0]@[1]), double(m@[0]@[2])]);
        assert(formulas(rb@) =~= seq![double(m@[1]@[0]), double(m@[1]@[1]), double(m@[1]@[2])]);
        assert(formulas(rc@) =~= seq![double(m@[2]@[0]), double(m@[2]@[1]), double(m@[2]@[2])]);
    }
    let r = [Traced::dot3(ar, ra, v), Traced::dot3(ar, rb, v), Traced::dot3(ar, rc, v)];
    assert(formulas(r@) =~= transform(*m, formulas(v@)));
    r
}

/// A pixel as doubles.
pub open spec fn pixel_leaves<T: Sample>(p0: T, p1: T, p2: T) -> Seq<Formula> {
    seq![p0.fetched(), p1.fetched(), p2.fetched()]
}

fn fetch3<T: Sample, A: Arithmetic>(ar: &A, p0: T, p1: T, p2: T) -> (r: [Traced<Double>; 3])
    ensures
        all_hold(ar, r@),
        formulas(r@) == pixel_leaves(p0, p1, p2),
{
    let r = [p0.fetch(ar), p1.fetch(ar), p2.fetch(ar)];
    assert(formulas(r@) =~= pixel_leaves(p0, p1, p2));
    r
}

/// The exposures of one channel for a chromaticity, times the brightness.
pub open spec fn is_exposure<T: Sample, A: Arithmetic>(
    ar: &A,
    lut: TcLut,
    t: Chroma,
    c: int,
    r: T,
) -> bool {
    exists|x: Double, y: Double, p: Spot, q: Spot, v: Double|
        {
            &&& #[trigger] is_double(
                ar,
                times(double(t.tx), Formula::Whole((lut.size - 1) as u64)),
                x,
            )
            &&& #[trigger] is_double(
                ar,
                times(double(t.ty), Formula::Whole((lut.size - 1) as u64)),
                y,
            )
            &&& #[trigger] is_spot(ar, x, lut.size as nat, p)
            &&& #[trigger] is_spot(ar, y, lut.size as nat, q)
            &&& #[trigger] is_cubic(
                ar,
                lut.data@,
                lut.size as nat,
                lut.size as nat,
                3,
                p,
                q,
                c,
                v,
            )
            &&& evaluates(ar, T::stored(times(double(v), double(t.b))), r.number())
        }
}

fn exposures<T: Sample, A: Arithmetic>(ar: &A, lut: &TcLut, t: Chroma) -> (r: [T; 3])
    requires
        lut.valid(),
        lut.channels == 3,
        2 <= lut.size <= isize::MAX / 2,
    ensures
        forall|c: int| 0 <= c < 3 ==> is_exposure(ar, *lut, t, c, #[trigger] r@[c]),
{
    let top: Traced<Double> = Traced::whole(ar, (lut.size - 1) as u64);
    let tx: Traced<Double> = Traced::new(ar, t.tx);
    let ty: Traced<Double> = Traced::new(ar, t.ty);
    let x = tx.times(ar, top).value;
    let y = ty.times(ar, top).value;
    let ghost top_f = Formula::Whole((lut.size - 1) as u64);
    proof {
        assert(is_double(ar, times(double(t.tx), top_f), x));
        assert(is_double(ar, times(double(t.ty), top_f), y));
    }
    let v = bicubic_2d_f64(ar, lut.data.as_slice(), lut.size, lut.size, 3, x, y);
    let ghost (p, q) = choose|p: Spot, q: Spot|
        {
            &&& #[trigger] is_spot(ar, x, lut.size as nat, p)
            &&& #[trigger] is_spot(ar, y, lut.size as nat, q)
            &&& forall|c: int|
                0 <= c < 3 ==> is_cubic(
                    ar,
                    lut.data@,
                    lut.size as nat,
                    lut.size as nat,
                    3,
                    p,
                    q,
                    c,
                    #[trigger] v@[c],
                )
        };
    let b: Traced<Double> = Traced::new(ar, t.b);
    let v0: Traced<Double> = Traced::new(ar, v[0]);
    let v1: Traced<Double> = Traced::new(ar, v[1]);
    let v2: Traced<Double> = Traced::new(ar, v[2]);
    let r0: T = T::store(ar, v0.times(ar, b)).value;
    let r1: T = T::store(ar, v1.times(ar, b)).value;
    let r2: T = T::store(ar, v2.times(ar, b)).value;
    let r = [r0, r1, r2];
    proof {
        assert(is_spot(ar, x, lut.size as nat, p));
        assert(is_spot(ar, y, lut.size as nat, q));
        assert forall|c: int| 0 <= c < 3 implies is_exposure(ar, *lut, t, c, #[trigger] r@[c]) by {
            assert(is_cubic(
                ar,
                lut.data@,
                lut.size as nat,
                lut.size as nat,
                3,
                p,
                q,
                c,
                v@[c],
            ));
        }
    }
    r
}

/// `r` is the film exposure of each pixel of an image, when its colour is
/// `colour` of the pixel's three numbers.
pub open spec fn is_film_exposure<T: Sample, A: Arithmetic>(
    ar: &A,
    image: ImageBuf<T>,
    lut: TcLut,
    colour: spec_fn(Seq<Formula>) -> Seq<Formula>,
    r: ImageBuf<T>,
) -> bool {
    &&& r.width == image.width
    &&& r.height == image.height
    &&& r.valid()
    &&& forall|k: int|
        0 <= k < image.data@.len() / 3 ==> #[trigger] is_pixel_exposure(
            ar,
            lut,
            colour(
                pixel_leaves(image.data@[3 * k], image.data@[3 * k + 1], image.data@[3 * k + 2]),
            ),
            r.data@,
            k,
        )
}

/// The three exposures at pixel `k`.
pub open spec fn is_pixel_exposure<T: Sample, A: Arithmetic>(
    ar: &A,
    lut: TcLut,
    xyz: Seq<Formula>,
    data: Seq<T>,
    k: int,
) -> bool {
    exists|t: Chroma| #[trigger]
        is_chroma(ar, xyz, t) && is_exposure(ar, lut, t, 0, data[3 * k]) && is_exposure(
            ar,
            lut,
            t,
            1,
            data[3 * k + 1],
        ) && is_exposure(ar, lut, t, 2, data[3 * k + 2])
}

/// `e` holds the three exposures of a colour.
pub open spec fn pixel_exposes<T: Sample, A: Arithmetic>(
    ar: &A,
    lut: TcLut,
    xyz: Seq<Formula>,
    e: [T; 3],
) -> bool {
    exists|t: Chroma| #[trigger]
        is_chroma(ar, xyz, t) && is_exposure(ar, lut, t, 0, e@[0]) && is_exposure(
            ar,
            lut,
            t,
            1,
            e@[1],
        ) && is_exposure(ar, lut, t, 2, e@[2])
}

fn expose_pixel<T: Sample, A: Arithmetic>(
    ar: &A,
    lut: &TcLut,
    to_xyz: &[[Double; 3]; 3],
    adapt: &[[Double; 3]; 3],
    p0: T,
    p1: T,
    p2: T,
) -> (r: [T; 3])
    requires
        lut.valid(),
        lut.channels == 3,
        2 <= lut.size <= isize::MAX / 2,
    ensures
        pixel_exposes(ar, *lut, by_two(*to_xyz, *adapt)(pixel_leaves(p0, p1, p2)), r),
{
    let px = fetch3(ar, p0, p1, p2);
    let native = times_vector(ar, to_xyz, px);
    let xyz = times_vector(ar, adapt, native);
    let t = chroma_of(ar, xyz);
    let e: [T; 3] = exposures(ar, lut, t);
    proof {
        assert(is_exposure(ar, *lut, t, 0, e@[0]));
        assert(is_exposure(ar, *lut, t, 1, e@[1]));
        assert(is_exposure(ar, *lut, t, 2, e@[2]));
        assert(is_chroma(ar, formulas(xyz@), t));
    }
    e
}

/// The colour of a pixel by two matrices, one after the other.
pub open spec fn by_two(first: [[Double; 3]; 3], then_by: [[Double; 3]; 3]) -> spec_fn(
    Seq<Formula>,
) -> Seq<Formula> {
    |v: Seq<Formula>| transform(then_by, transform(first, v))
}

/// `r` is the exposure that a film takes from an image: every pixel to XYZ,
/// adapted to the white of the illuminant's spectrum, and looked up by its
/// chromaticity.
pub open spec fn is_taken<T: Sample, A: Arithmetic>(
    ar: &A,
    image: ImageBuf<T>,
    lut: TcLut,
    space: ColorSpace,
    illuminant: Seq<Single>,
    r: ImageBuf<T>,
) -> bool {
    exists|
        to_xyz: [[Double; 3]; 3],
        src: [Double; 3],
        dst: [Double; 3],
        adapt: [[Double; 3]; 3],
    |
        {
            &&& decoded(to_xyz_bits(space), to_xyz)
            &&& is_white(ar, white_chromaticity(space).0, white_chromaticity(space).1, src)
            &&& is_white_by_spectrum(ar, illuminant, dst)
            &&& #[trigger] is_adaptation(ar, src, dst, adapt)
            &&& #[trigger] is_film_exposure(ar, image, lut, by_two(to_xyz, adapt), r)
        }
}

/// Film exposure of an image under an illuminant, by its spectrum.
pub fn hanatos2025_rgb_to_raw<T: Sample, A: Arithmetic>(
    ar: &A,
    image: &ImageBuf<T>,
    tc_lut: &TcLut,
    space: ColorSpace,
    illuminant: &[Single],
) -> (r: ImageBuf<T>)
    requires
        image.valid(),
        tc_lut.valid(),
        tc_lut.channels == 3,
        2 <= tc_lut.size <= isize::MAX / 2,
    ensures
        is_taken(ar, *image, *tc_lut, space, illuminant@, r),
{
    let to_xyz = colorspace_to_xyz_f64(space);
    let src = colorspace_white_xyz_f64(ar, space);
    let dst = illuminant_xyz_f64(ar, illuminant);
    let adapt = chromatic_adaptation_matrix_f64(ar, src, dst);
    let ghost colour = by_two(to_xyz, adapt);
    let total: usize = image.data.len();
    let n: usize = total / 3;
    let mut pixels: Vec<[T; 3]> = Vec::new();
    let mut k: usize = 0;
    while k < n
        invariant
            k <= n,
            3 * n == total,
            total == image.data@.len(),
            tc_lut.valid(),
            tc_lut.channels == 3,
            2 <= tc_lut.size <= isize::MAX / 2,
            colour == by_two(to_xyz, adapt),
            pixels@.len() == k,
            forall|j: int|
                0 <= j < k ==> pixel_exposes(
                    ar,
                    *tc_lut,
                    colour(
                        pixel_leaves(
                            image.data@[3 * j],
                            image.data@[3 * j + 1],
                            image.data@[3 * j + 2],
                        ),
                    ),
                    #[trigger] pixels@[j],
                ),
        decreases n - k,
    {
        let e = expose_pixel(
            ar,
            tc_lut,
            &to_xyz,
            &adapt,
            image.data[3 * k],
            image.data[3 * k + 1],
            image.data[3 * k + 2],
        );
        pixels.push(e);
        k += 1;
    }
    let r = ImageBuf::from_pixels(image.width, image.height, pixels.as_slice());
    proof {
        assert forall|j: int| 0 <= j < image.data@.len() / 3 implies #[trigger] is_pixel_exposure(
            ar,
            *tc_lut,
            colour(
                pixel_leaves(
                    image.data@[3 * j],
                    image.data@[3 * j + 1],
                    image.data@[3 * j + 2],
                ),
            ),
            r.data@,
            j,
        ) by {
            assert(pixel_exposes(
                ar,
                *tc_lut,
                colour(
                    pixel_leaves(
                        image.data@[3 * j],
                        image.data@[3 * j + 1],
                        image.data@[3 * j + 2],
                    ),
                ),
                pixels@[j],
            ));
        }
        assert(is_adaptation(ar, src, dst, adapt));
        assert(is_film_exposure(ar, *image, *tc_lut, by_two(to_xyz, adapt), r));
    }
    r
}

/// The chromaticity and brightness of one colour, under a reference
/// illuminant.
pub fn rgb_to_tc_b<T: Sample, A: Arithmetic>(
    ar: &A,
    rgb: [T; 3],
    space: ColorSpace,
    illuminant: &[Single],
) -> (r: Chroma)
    ensures
        exists|
            to_xyz: [[Double; 3]; 3],
            src: [Double; 3],
            dst: [Double; 3],
            adapt: [[Double; 3]; 3],
        |
            {
                &&& #[trigger] decoded(to_xyz_bits(space), to_xyz)
                &&& is_white(ar, white_chromaticity(space).0, white_chromaticity(space).1, src)
                &&& is_white_by_spectrum(ar, illuminant@, dst)
                &&& #[trigger] is_adaptation(ar, src, dst, adapt)
                &&& is_chroma(
                    ar,
                    by_two(to_xyz, adapt)(pixel_leaves(rgb@[0], rgb@[1], rgb@[2])),
                    r,
                )
            },
{
    let to_xyz = colorspace_to_xyz_f64(space);
    let src = colorspace_white_xyz_f64(ar, space);
    let dst = illuminant_xyz_f64(ar, illuminant);
    let adapt = chromatic_adaptation_matrix_f64(ar, src, dst);
    let px = fetch3(ar, rgb[0], rgb[1], rgb[2]);
    let xyz = times_vector(ar, &adapt, times_vector(ar, &to_xyz, px));
    proof {
        assert(decoded(to_xyz_bits(space), to_xyz));
        assert(is_adaptation(ar, src, dst, adapt));
    }
    chroma_of(ar, xyz)
}

/// `e` holds the exposures of a colour by one matrix; nothing where it is
/// dark.
pub open spec fn matrix_exposes<T: Sample, A: Arithmetic>(
    ar: &A,
    lut: TcLut,
    xyz: Seq<Formula>,
    e0: T,
    e1: T,
    e2: T,
) -> bool {
    exists|t: Chroma| #[trigger]
        is_chroma(ar, xyz, t) && if t.b.rank() == 0 {
            &&& evaluates(ar, T::stored(constant(0)), e0.number())
            &&& evaluates(ar, T::stored(constant(0)), e1.number())
            &&& evaluates(ar, T::stored(constant(0)), e2.number())
        } else {
            &&& is_exposure(ar, lut, t, 0, e0)
            &&& is_exposure(ar, lut, t, 1, e1)
            &&& is_exposure(ar, lut, t, 2, e2)
        }
}

fn expose_by_matrix<T: Sample, A: Arithmetic>(
    ar: &A,
    lut: &TcLut,
    m: &[[Double; 3]; 3],
    p0: T,
    p1: T,
    p2: T,
) -> (r: [T; 3])
    requires
        lut.valid(),
        lut.channels == 3,
        2 <= lut.size <= isize::MAX / 2,
    ensures
        matrix_exposes(ar, *lut, transform(*m, pixel_leaves(p0, p1, p2)), r@[0], r@[1], r@[2]),
{
    let px = fetch3(ar, p0, p1, p2);
    let xyz = times_vector(ar, m, px);
    let t = chroma_of(ar, xyz);
    assert(is_chroma(ar, transform(*m, pixel_leaves(p0, p1, p2)), t));
    if t.b.is_zero() {
        let none: Traced<Double> = Traced::constant(ar, 0);
        let dark: T = T::store(ar, none).value;
        return [dark, dark, dark];
    }
    let e: [T; 3] = exposures(ar, lut, t);
    proof {
        assert(is_exposure(ar, *lut, t, 0, e@[0]));
        assert(is_exposure(ar, *lut, t, 1, e@[1]));
        assert(is_exposure(ar, *lut, t, 2, e@[2]));
    }
    e
}

/// Pixel `k` of `r` holds the exposures of pixel `k` by one matrix.
pub open spec fn is_matrix_exposure<T: Sample, A: Arithmetic>(
    ar: &A,
    image: ImageBuf<T>,
    lut: TcLut,
    m: [[Double; 3]; 3],
    r: Seq<T>,
    k: int,
) -> bool {
    matrix_exposes(
        ar,
        lut,
        transform(
            m,
            pixel_leaves(image.data@[3 * k], image.data@[3 * k + 1], image.data@[3 * k + 2]),
        ),
        r[3 * k],
        r[3 * k + 1],
        r[3 * k + 2],
    )
}

/// Film exposure of an image, with one matrix from its colours to the XYZ
/// under the reference illuminant.
pub fn hanatos2025_rgb_to_raw_with_matrix<T: Sample, A: Arithmetic>(
    ar: &A,
    image: &ImageBuf<T>,
    tc_lut: &TcLut,
    rgb_to_adapted_xyz: &[[Double; 3]; 3],
) -> (r: ImageBuf<T>)
    requires
        image.valid(),
        tc_lut.valid(),
        tc_lut.channels == 3,
        2 <= tc_lut.size <= isize::MAX / 2,
    ensures
        r.width == image.width,
        r.height == image.height,
        r.valid(),
        forall|k: int|
            0 <= k < image.data@.len() / 3 ==> #[trigger] is_matrix_exposure(
                ar,
                *image,
                *tc_lut,
                *rgb_to_adapted_xyz,
                r.data@,
                k,
            ),
{
    let total: usize = image.data.len();
    let n: usize = total / 3;
    let mut pixels: Vec<[T; 3]> = Vec::new();
    let mut k: usize = 0;
    while k < n
        invariant
            k <= n,
            3 * n == total,
            total == image.data@.len(),
            tc_lut.valid(),
            tc_lut.channels == 3,
            2 <= tc_lut.size <= isize::MAX / 2,
            pixels@.len() == k,
            forall|j: int|
                0 <= j < k ==> matrix_exposes(
                    ar,
                    *tc_lut,
                    transform(
                        *rgb_to_adapted_xyz,
                        pixel_leaves(
                            image.data@[3 * j],
                            image.data@[3 * j + 1],
                            image.data@[3 * j + 2],
                        ),
                    ),
                    (#[trigger] pixels@[j])@[0],
                    pixels@[j]@[1],
                    pixels@[j]@[2],
                ),
        decreases n - k,
    {
        let e = expose_by_matrix(
            ar,
            tc_lut,
            rgb_to_adapted_xyz,
            image.data[3 * k],
            image.data[3 * k + 1],
            image.data[3 * k + 2],
        );
        pixels.push(e);
        k += 1;
    }
    let r = ImageBuf::from_pixels(image.width, image.height, pixels.as_slice());
    proof {
        assert forall|j: int| 0 <= j < image.data@.len() / 3 implies #[trigger] is_matrix_exposure(
            ar,
            *image,
            *tc_lut,
            *rgb_to_adapted_xyz,
            r.data@,
            j,
        ) by {
            assert(pixels@[j]@[0] == r.data@[3 * j]);
        }
    }
    r
}

/// `r` is the chromaticity of a colour in single precision.
pub open spec fn is_short_xy<A: Arithmetic>(ar: &A, xyz: [Single; 3], r: (Single, Single)) -> bool {
    exists|sum: Single| #[trigger]
        is_single(
            ar,
            plus(plus(single(xyz@[0]), single(xyz@[1])), single(xyz@[2])),
            sum,
        ) && if sum.at_most(Single { bits: 0 }) {
            // 0.3127 and 0.3290
            r.0.bits == 0x3ea0_1a37u32 && r.1.bits == 0x3ea8_72b0u32
        } else {
            is_single(ar, over(single(xyz@[0]), single(sum)), r.0) && is_single(
                ar,
                over(single(xyz@[1]), single(sum)),
                r.1,
            )
        }
}

/// Chromaticity of a colour in single precision.
pub fn xyz_to_xy<A: Arithmetic>(ar: &A, xyz: [Single; 3]) -> (r: (Single, Single))
    ensures
        is_short_xy(ar, xyz, r),
{
    let x: Traced<Single> = Traced::new(ar, xyz[0]);
    let y: Traced<Single> = Traced::new(ar, xyz[1]);
    let z: Traced<Single> = Traced::new(ar, xyz[2]);
    let sum = x.plus(ar, y).plus(ar, z).value;
    proof {
        assert(is_single(
            ar,
            plus(plus(single(xyz@[0]), single(xyz@[1])), single(xyz@[2])),
            sum,
        ));
    }
    if sum.is_at_most(Single { bits: 0 }) {
        return (Single { bits: 0x3ea0_1a37 }, Single { bits: 0x3ea8_72b0 });
    }
    let s: Traced<Single> = Traced::new(ar, sum);
    (x.over(ar, s).value, y.over(ar, s).value)
}

// ── Tables of singles ────────────────────────────────────────────────────

/// The sample under tap `n` of a table whose rows come first.
pub open spec fn short_sample_at(
    data: Seq<Single>,
    width: nat,
    height: nat,
    channels: nat,
    x: int,
    y: int,
    c: int,
    n: int,
) -> Single {
    data[table_index(
        width as int,
        channels as int,
        reflected(y + n / 4 - 1, height as int),
        reflected(x + n % 4 - 1, width as int),
        c,
    )]
}

/// The weight of tap `n`, row by row.
pub open spec fn row_weight(wx: [Double; 4], wy: [Double; 4], n: int) -> Formula {
    times(double(wx@[n % 4]), double(wy@[n / 4]))
}

/// The weights of the first `n` taps, added up row by row.
pub open spec fn row_weight_total(wx: [Double; 4], wy: [Double; 4], n: int) -> Formula {
    sum_from(constant(0), |k: int| row_weight(wx, wy, k), n)
}

/// The weighted samples of the first `n` taps, added up row by row.
pub open spec fn short_sample_total(
    data: Seq<Single>,
    width: nat,
    height: nat,
    channels: nat,
    x: int,
    y: int,
    c: int,
    wx: [Double; 4],
    wy: [Double; 4],
    n: int,
) -> Formula {
    sum_from(
        constant(0),
        |k: int|
            times(
                row_weight(wx, wy, k),
                widen(single(short_sample_at(data, width, height, channels, x, y, c, k))),
            ),
        n,
    )
}

/// `r` is a channel of a table of singles, read between its samples: their
/// weighted sum over the sum of the weights, and 0 where that is 0.
pub open spec fn is_short_cubic<A: Arithmetic>(
    ar: &A,
    data: Seq<Single>,
    width: nat,
    height: nat,
    channels: nat,
    x: Spot,
    y: Spot,
    c: int,
    r: Single,
) -> bool {
    exists|wx: [Double; 4], wy: [Double; 4], whole: Double, part: Double|
        {
            &&& #[trigger] are_weights(ar, x.fraction, wx)
            &&& #[trigger] are_weights(ar, y.fraction, wy)
            &&& #[trigger] is_double(ar, row_weight_total(wx, wy, 16), whole)
            &&& #[trigger] is_double(
                ar,
                short_sample_total(
                    data,
                    width,
                    height,
                    channels,
                    x.base as int,
                    y.base as int,
                    c,
                    wx,
                    wy,
                    16,
                ),
                part,
            )
            &&& if whole.rank() == 0 {
                r.bits == 0
            } else {
                is_single(ar, narrow(over(double(part), double(whole))), r)
            }
        }
}

fn short_cubic<A: Arithmetic>(
    ar: &A,
    data: &[Single],
    width: usize,
    height: usize,
    channels: usize,
    x: Spot,
    y: Spot,
    c: usize,
) -> (r: Single)
    requires
        data@.len() == height * width * channels,
        2 <= width <= isize::MAX / 2,
        2 <= height <= isize::MAX / 2,
        x.base + 1 < width,
        y.base + 1 < height,
        c < channels,
    ensures
        is_short_cubic(
            ar,
            data@,
            width as nat,
            height as nat,
            channels as nat,
            x,
            y,
            c as int,
            r,
        ),
{
    let wx = weights(ar, x.fraction);
    let wy = weights(ar, y.fraction);
    let xs = stencil(x.base, width);
    let ys = stencil(y.base, height);
    let len: usize = data.len();
    let mut whole: Traced<Double> = Traced::constant(ar, 0);
    let mut part: Traced<Double> = Traced::constant(ar, 0);
    let mut n: usize = 0;
    while n < 16
        invariant
            n <= 16,
            len == data@.len(),
            data@.len() == height * width * channels,
            c < channels,
            forall|k: int|
                0 <= k < 4 ==> (#[trigger] xs@[k]) < width && xs@[k] == reflected(
                    x.base + k - 1,
                    width as int,
                ),
            forall|k: int|
                0 <= k < 4 ==> (#[trigger] ys@[k]) < height && ys@[k] == reflected(
                    y.base + k - 1,
                    height as int,
                ),
            whole.holds(ar),
            part.holds(ar),
            whole.formula@ == row_weight_total(wx, wy, n as int),
            part.formula@ == short_sample_total(
                data@,
                width as nat,
                height as nat,
                channels as nat,
                x.base as int,
                y.base as int,
                c as int,
                wx,
                wy,
                n as int,
            ),
        decreases 16 - n,
    {
        let i: usize = n / 4;
        let j: usize = n % 4;
        let row: usize = ys[i];
        let col: usize = xs[j];
        proof {
            lemma_table_bound(
                height as int,
                width as int,
                channels as int,
                row as int,
                col as int,
                c as int,
            );
            assert(row * width >= 0) by (nonlinear_arith);
            assert((row * width + col) * channels >= row * width + col) by (nonlinear_arith)
                requires
                    row * width + col >= 0,
                    1 <= channels,
            ;
        }
        let at: usize = (row * width + col) * channels + c;
        let a: Traced<Double> = Traced::new(ar, wx[j]);
        let w = a.times(ar, Traced::new(ar, wy[i]));
        let v: Traced<Single> = Traced::new(ar, data[at]);
        whole = whole.plus(ar, w);
        part = part.plus(ar, w.times(ar, v.widen(ar)));
        n += 1;
    }
    proof {
        assert(is_double(ar, row_weight_total(wx, wy, 16), whole.value));
        assert(is_double(
            ar,
            short_sample_total(
                data@,
                width as nat,
                height as nat,
                channels as nat,
                x.base as int,
                y.base as int,
                c as int,
                wx,
                wy,
                16,
            ),
            part.value,
        ));
        assert(are_weights(ar, x.fraction, wx));
        assert(are_weights(ar, y.fraction, wy));
    }
    if whole.value.is_zero() {
        Single { bits: 0 }
    } else {
        let p: Traced<Double> = Traced::new(ar, part.value);
        p.over(ar, Traced::new(ar, whole.value)).narrow(ar).value
    }
}

/// Reads every channel of a table of singles between its samples; its rows
/// come first.
pub fn bicubic_2d<A: Arithmetic>(
    ar: &A,
    data: &[Single],
    width: usize,
    height: usize,
    channels: usize,
    x: Single,
    y: Single,
) -> (r: Vec<Single>)
    requires
        data@.len() == height * width * channels,
        2 <= width <= isize::MAX / 2,
        2 <= height <= isize::MAX / 2,
    ensures
        r@.len() == channels,
        exists|px: Double, py: Double, p: Spot, q: Spot|
            {
                &&& #[trigger] is_double(ar, widen(single(x)), px)
                &&& #[trigger] is_double(ar, widen(single(y)), py)
                &&& #[trigger] is_spot(ar, px, width as nat, p)
                &&& #[trigger] is_spot(ar, py, height as nat, q)
                &&& forall|c: int|
                    0 <= c < channels ==> is_short_cubic(
                        ar,
                        data@,
                        width as nat,
                        height as nat,
                        channels as nat,
                        p,
                        q,
                        c,
                        #[trigger] r@[c],
                    )
            },
{
    let xt: Traced<Single> = Traced::new(ar, x);
    let yt: Traced<Single> = Traced::new(ar, y);
    let px = xt.widen(ar).value;
    let py = yt.widen(ar).value;
    let p = spot(ar, px, width);
    let q = spot(ar, py, height);
    let mut r: Vec<Single> = Vec::new();
    let mut c: usize = 0;
    while c < channels
        invariant
            c <= channels,
            data@.len() == height * width * channels,
            2 <= width <= isize::MAX / 2,
            2 <= height <= isize::MAX / 2,
            p.base + 1 < width,
            q.base + 1 < height,
            r@.len() == c,
            forall|k: int|
                0 <= k < c ==> is_short_cubic(
                    ar,
                    data@,
                    width as nat,
                    height as nat,
                    channels as nat,
                    p,
                    q,
                    k,
                    #[trigger] r@[k],
                ),
        decreases channels - c,
    {
        let v = short_cubic(ar, data, width, height, channels, p, q, c);
        r.push(v);
        c += 1;
    }
    proof {
        assert(is_double(ar, widen(single(x)), px));
        assert(is_double(ar, widen(single(y)), py));
        assert(is_spot(ar, px, width as nat, p));
        assert(is_spot(ar, py, height as nat, q));
    }
    r
}

} // verus!
