//! What tables and colours promise: a table gives back its samples, matrices
//! that are multiplied act one after the other, and a white has the
//! chromaticity that it is made from.

use vstd::prelude::*;

use crate::arith::{at_most, constant, double, evaluates, is_double, is_single, minus, over};
use crate::arith::{plus, single, times, Arithmetic, Formula, Sample, Unary};
use crate::bits::{Double, Single};
use crate::colorspace::{is_product, is_white, product_entry};
use crate::density_curves::ONE;
use crate::emulsion::dye_density;
use crate::exact::{double_value, exact, finite_leaves, lemma_one_values, lemma_sum_scaled};
use crate::exact::{lemma_small_numbers, lemma_zero_values, single_value, Functions};
use crate::gamma::{number_finite, value_of};
use crate::hanatos::{is_xy, sample_at, sample_total, tap_weight, weight_total};
use crate::illuminants::is_white_of;
use crate::interp::{blend, num};
use crate::lossless::{lemma_lossless, lemma_lossless_double, lemma_lossless_single};
use crate::lossless::{lemma_sum_leaves, lossless};
use crate::lut::{mixed_corners, Corners};
use crate::meter_laws::lemma_grouped;
use crate::numpy_rng::{coordinate, distance_squared, polar_factor};
use crate::rounding::lemma_order;
use crate::stats::{binomial_mean, binomial_variance};
use crate::tables::{axis_scale, grid_coordinate, table_coordinate};

verus! {

// ── Tables ───────────────────────────────────────────────────────────────

/// The samples of an axis go from its lower to its upper bound, and a density
/// at a sample is looked up at that sample: without rounding, its coordinate is
/// the sample's number.
pub proof fn lemma_sample_looked_up<T: Sample, A: Arithmetic>(
    ar: &A,
    g: Functions,
    low: Double,
    high: Double,
    steps: int,
    i: int,
    x: T,
    scale: Double,
    at: Double,
)
    requires
        lossless(ar, g),
        low.finite() && high.finite(),
        double_value(low) < double_value(high),
        2 <= steps <= u64::MAX,
        0 <= i < steps,
        evaluates(ar, T::stored(grid_coordinate(low, high, i, steps)), x.number()),
        is_double(ar, axis_scale(low, high, steps), scale),
        is_double(ar, table_coordinate(x, low, scale), at),
    ensures
        i == 0 ==> value_of(x) == double_value(low),
        i == steps - 1 ==> value_of(x) == double_value(high),
        double_value(at) == i as real,
{
    let f = grid_coordinate(low, high, i, steps);
    reveal_with_fuel(exact, 5);
    reveal_with_fuel(finite_leaves, 5);
    x.lemma_forms(g, f);
    T::lemma_stored(g, f);
    lemma_lossless(ar, g, T::stored(f), x.number());
    lemma_lossless_double(ar, g, axis_scale(low, high, steps), scale);
    lemma_lossless_double(ar, g, table_coordinate(x, low, scale), at);
    let d = double_value(high) - double_value(low);
    let (k, n) = (i as u64 as real, (steps - 1) as u64 as real);
    lemma_coordinate(d, k, n);
}

proof fn lemma_coordinate(d: real, k: real, n: real)
    requires
        0real < d,
        0real < n,
    ensures
        ((d * k) / n) * (n / d) == k,
        k == 0real ==> (d * k) / n == 0real,
        k == n ==> (d * k) / n == d,
{
    let (p, q) = ((d * k) / n, n / d);
    lemma_parts(d * k, n);
    lemma_parts(n, d);
    lemma_grouped(p, q, d);
    assert(d * k == k * d) by (nonlinear_arith);
    lemma_same_factor(p * q, k, d);
    if k == 0real {
        assert(p * n == 0real * n) by (nonlinear_arith)
            requires
                p * n == d * k,
                k == 0real,
        ;
        lemma_same_factor(p, 0real, n);
    }
    if k == n {
        lemma_same_factor(p, d, n);
    }
}

/// A quotient times its divisor.
proof fn lemma_parts(a: real, v: real)
    by (nonlinear_arith)
    requires
        v != 0real,
    ensures
        (a / v) * v == a,
{
}

proof fn lemma_same_factor(a: real, b: real, v: real)
    by (nonlinear_arith)
    requires
        0real < v,
        a * v == b * v,
    ensures
        a == b,
{
}

/// A cube gives back its entries: without rounding, a share of nothing is the
/// near corner, a share of one the far corner, and corners that are alike give
/// their value everywhere.
pub proof fn lemma_cube_corners<A: Arithmetic>(
    ar: &A,
    g: Functions,
    v: Corners<Single>,
    r: Single,
    h: Single,
    b: Single,
    o: Single,
)
    requires
        lossless(ar, g),
        v.c000.finite() && v.c100.finite() && v.c010.finite() && v.c110.finite(),
        v.c001.finite() && v.c101.finite() && v.c011.finite() && v.c111.finite(),
        r.finite() && h.finite() && b.finite(),
        is_single(ar, mixed_corners(v, r, h, b), o),
    ensures
        ({
            let (x, y, z) = (single_value(r), single_value(h), single_value(b));
            let s = single_value(o);
            &&& x == 0real && y == 0real && z == 0real ==> s == single_value(v.c000)
            &&& x == 1real && y == 0real && z == 0real ==> s == single_value(v.c100)
            &&& x == 0real && y == 1real && z == 0real ==> s == single_value(v.c010)
            &&& x == 1real && y == 1real && z == 0real ==> s == single_value(v.c110)
            &&& x == 0real && y == 0real && z == 1real ==> s == single_value(v.c001)
            &&& x == 1real && y == 0real && z == 1real ==> s == single_value(v.c101)
            &&& x == 0real && y == 1real && z == 1real ==> s == single_value(v.c011)
            &&& x == 1real && y == 1real && z == 1real ==> s == single_value(v.c111)
        }),
        forall|e: real|
            e == single_value(v.c000) && e == single_value(v.c100) && e == single_value(v.c010) && e
                == single_value(v.c110) && e == single_value(v.c001) && e == single_value(v.c101)
                && e == single_value(v.c011) && e == single_value(v.c111) ==> single_value(o)
                == #[trigger] kept(e),
{
    let (fr, fg, fb) = (single(r), single(h), single(b));
    let c00 = blend(single(v.c000), fr, single(v.c100));
    let c10 = blend(single(v.c010), fr, single(v.c110));
    let c01 = blend(single(v.c001), fr, single(v.c101));
    let c11 = blend(single(v.c011), fr, single(v.c111));
    lemma_blend(g, single(v.c000), fr, single(v.c100));
    lemma_blend(g, single(v.c010), fr, single(v.c110));
    lemma_blend(g, single(v.c001), fr, single(v.c101));
    lemma_blend(g, single(v.c011), fr, single(v.c111));
    lemma_blend(g, c00, fg, c10);
    lemma_blend(g, c01, fg, c11);
    lemma_blend(g, blend(c00, fg, c10), fb, blend(c01, fg, c11));
    lemma_lossless_single(ar, g, mixed_corners(v, r, h, b), o);
}

pub open spec fn kept(e: real) -> real {
    e
}

proof fn lemma_blend(g: Functions, a: Formula, t: Formula, b: Formula)
    ensures
        finite_leaves(a) && finite_leaves(t) && finite_leaves(b) ==> finite_leaves(blend(a, t, b)),
        exact(g, t) == 0real ==> exact(g, blend(a, t, b)) == exact(g, a),
        exact(g, t) == 1real ==> exact(g, blend(a, t, b)) == exact(g, b),
        exact(g, a) == exact(g, b) ==> exact(g, blend(a, t, b)) == exact(g, a),
{
    reveal_with_fuel(exact, 3);
    reveal_with_fuel(finite_leaves, 3);
    let (x, k, y) = (exact(g, a), exact(g, t), exact(g, b));
    assert(0real * (y - x) == 0real && 1real * (y - x) == y - x && k * 0real == 0real)
        by (nonlinear_arith);
}

/// A table whose samples are alike has their value everywhere: without
/// rounding, the weights of the sixteen samples share it out and no more.
pub proof fn lemma_even_table<A: Arithmetic>(
    ar: &A,
    g: Functions,
    data: Seq<Double>,
    first: nat,
    second: nat,
    channels: nat,
    x: int,
    y: int,
    c: int,
    wx: [Double; 4],
    wy: [Double; 4],
    whole: Double,
    part: Double,
    r: Double,
    v: real,
)
    requires
        lossless(ar, g),
        forall|k: int| 0 <= k < 4 ==> (#[trigger] wx@[k]).finite(),
        forall|k: int| 0 <= k < 4 ==> (#[trigger] wy@[k]).finite(),
        forall|k: int|
            0 <= k < 16 ==> (#[trigger] sample_at(
                data,
                first,
                second,
                channels,
                x,
                y,
                c,
                k,
            )).finite() && double_value(sample_at(data, first, second, channels, x, y, c, k)) == v,
        is_double(ar, weight_total(wx, wy, 16), whole),
        is_double(ar, sample_total(data, first, second, channels, x, y, c, wx, wy, 16), part),
        is_double(ar, over(double(part), double(whole)), r),
        double_value(whole) != 0real,
    ensures
        double_value(part) == v * double_value(whole),
        double_value(r) == v,
{
    let weights = |k: int| tap_weight(wx, wy, k);
    let terms = |k: int|
        times(
            tap_weight(wx, wy, k),
            double(sample_at(data, first, second, channels, x, y, c, k)),
        );
    lemma_zero_values();
    assert forall|k: int| 0 <= k < 16 implies finite_leaves(#[trigger] weights(k)) by {
        assert(wx@[k / 4].finite() && wy@[k % 4].finite());
        reveal_with_fuel(finite_leaves, 2);
    }
    assert forall|k: int| 0 <= k < 16 implies finite_leaves(#[trigger] terms(k)) && exact(
        g,
        terms(k),
    ) == v * exact(g, weights(k)) by {
        assert(finite_leaves(weights(k)));
        assert(sample_at(data, first, second, channels, x, y, c, k).finite());
        reveal_with_fuel(finite_leaves, 3);
        reveal_with_fuel(exact, 3);
        let w = exact(g, weights(k));
        assert(w * v == v * w) by (nonlinear_arith);
    }
    lemma_sum_leaves(constant(0), weights, 16);
    lemma_sum_leaves(constant(0), terms, 16);
    lemma_sum_scaled(g, constant(0), terms, weights, v, 16);
    lemma_lossless_double(ar, g, weight_total(wx, wy, 16), whole);
    lemma_lossless_double(
        ar,
        g,
        sample_total(data, first, second, channels, x, y, c, wx, wy, 16),
        part,
    );
    reveal_with_fuel(finite_leaves, 2);
    reveal_with_fuel(exact, 2);
    lemma_lossless_double(ar, g, over(double(part), double(whole)), r);
    let w = double_value(whole);
    lemma_parts(v * w, w);
    let q = (v * w) / w;
    assert(q == v) by (nonlinear_arith)
        requires
            q * w == v * w,
            w != 0real,
    ;
}

// ── Colours ──────────────────────────────────────────────────────────────

/// Row `i` of a matrix times a colour.
pub open spec fn through<T: Sample>(m: [[T; 3]; 3], v: (real, real, real), i: int) -> real {
    value_of(m@[i]@[0]) * v.0 + value_of(m@[i]@[1]) * v.1 + value_of(m@[i]@[2]) * v.2
}

pub open spec fn finite_square<T: Sample>(m: [[T; 3]; 3]) -> bool {
    forall|i: int, j: int| 0 <= i < 3 && 0 <= j < 3 ==> number_finite((#[trigger] m@[i]@[j]).number())
}

/// A product of matrices acts as the second and then the first: without
/// rounding, on every colour.
pub proof fn lemma_product_acts<T: Sample, A: Arithmetic>(
    ar: &A,
    g: Functions,
    a: [[T; 3]; 3],
    b: [[T; 3]; 3],
    r: [[T; 3]; 3],
    v: (real, real, real),
    i: int,
)
    requires
        lossless(ar, g),
        finite_square(a),
        finite_square(b),
        is_product(ar, a, b, r),
        0 <= i < 3,
    ensures
        through(r, v, i) == through(a, (through(b, v, 0), through(b, v, 1), through(b, v, 2)), i),
{
    assert forall|j: int| 0 <= j < 3 implies value_of(#[trigger] r@[i]@[j]) == value_of(a@[i]@[0])
        * value_of(b@[0]@[j]) + value_of(a@[i]@[1]) * value_of(b@[1]@[j]) + value_of(a@[i]@[2])
        * value_of(b@[2]@[j]) by {
        assert(number_finite(a@[i]@[0].number()) && number_finite(a@[i]@[1].number())
            && number_finite(a@[i]@[2].number()));
        assert(number_finite(b@[0]@[j].number()) && number_finite(b@[1]@[j].number())
            && number_finite(b@[2]@[j].number()));
        let f = product_entry(a, b, i, j);
        assert(evaluates(ar, f, r@[i]@[j].number()));
        reveal_with_fuel(exact, 4);
        reveal_with_fuel(finite_leaves, 4);
        lemma_lossless(ar, g, f, r@[i]@[j].number());
    }
    let (p, q, s) = (value_of(a@[i]@[0]), value_of(a@[i]@[1]), value_of(a@[i]@[2]));
    let e = |k: int, j: int| value_of(b@[k]@[j]);
    assert(value_of(r@[i]@[0]) == p * e(0, 0) + q * e(1, 0) + s * e(2, 0));
    assert(value_of(r@[i]@[1]) == p * e(0, 1) + q * e(1, 1) + s * e(2, 1));
    assert(value_of(r@[i]@[2]) == p * e(0, 2) + q * e(1, 2) + s * e(2, 2));
    lemma_column(p, q, s, e(0, 0), e(1, 0), e(2, 0), v.0);
    lemma_column(p, q, s, e(0, 1), e(1, 1), e(2, 1), v.1);
    lemma_column(p, q, s, e(0, 2), e(1, 2), e(2, 2), v.2);
    lemma_row(p, e(0, 0) * v.0, e(0, 1) * v.1, e(0, 2) * v.2);
    lemma_row(q, e(1, 0) * v.0, e(1, 1) * v.1, e(1, 2) * v.2);
    lemma_row(s, e(2, 0) * v.0, e(2, 1) * v.1, e(2, 2) * v.2);
}

proof fn lemma_column(p: real, q: real, s: real, a: real, b: real, c: real, v: real)
    ensures
        (p * a + q * b + s * c) * v == p * (a * v) + q * (b * v) + s * (c * v),
{
    lemma_grouped(p, a, v);
    lemma_grouped(q, b, v);
    lemma_grouped(s, c, v);
    lemma_spread_out(p * a, q * b, s * c, v);
}

proof fn lemma_spread_out(a: real, b: real, c: real, v: real)
    by (nonlinear_arith)
    ensures
        (a + b + c) * v == a * v + b * v + c * v,
{
}

proof fn lemma_row(p: real, a: real, b: real, c: real)
    by (nonlinear_arith)
    ensures
        p * (a + b + c) == p * a + p * b + p * c,
{
}

/// A white has the chromaticity that it is made from: without rounding, X and Y
/// are its shares of the sum of the three, and Y is one.
pub proof fn lemma_white_chromaticity<T: Sample, A: Arithmetic>(
    ar: &A,
    g: Functions,
    x: T,
    y: T,
    r: [T; 3],
)
    requires
        lossless(ar, g),
        number_finite(x.number()) && number_finite(y.number()),
        0real < value_of(y),
        is_white(ar, x, y, r),
    ensures
        value_of(r@[1]) == 1real,
        value_of(r@[0]) == value_of(x) * (value_of(r@[0]) + value_of(r@[1]) + value_of(r@[2])),
        value_of(r@[1]) == value_of(y) * (value_of(r@[0]) + value_of(r@[1]) + value_of(r@[2])),
{
    T::lemma_zero();
    T::lemma_one();
    y.lemma_places(T::zero_value());
    assert(!at_most(y, T::zero_value()));
    reveal_with_fuel(exact, 4);
    reveal_with_fuel(finite_leaves, 4);
    lemma_lossless(ar, g, over(num(x), num(y)), r@[0].number());
    lemma_lossless(
        ar,
        g,
        over(minus(minus(num(T::one_value()), num(x)), num(y)), num(y)),
        r@[2].number(),
    );
    lemma_white_sum(value_of(x), value_of(y), value_of(r@[0]), value_of(r@[2]));
}

proof fn lemma_white_sum(x: real, y: real, p: real, q: real)
    requires
        0real < y,
        p == x / y,
        q == (1real - x - y) / y,
    ensures
        p == x * (p + 1real + q),
        1real == y * (p + 1real + q),
{
    let t = p + 1real + q;
    lemma_parts(x, y);
    lemma_parts(1real - x - y, y);
    lemma_spread_out(p, 1real, q, y);
    assert(1real * y == y && t * y == y * t) by (nonlinear_arith);
    lemma_grouped(p, y, t);
    assert(p * 1real == p) by (nonlinear_arith);
}

/// Chromaticity has nothing to do with brightness: without rounding, a colour
/// and one that is `k` times as bright have the same, and its shares are those
/// of X and Y among the three.
pub proof fn lemma_same_chromaticity<A: Arithmetic>(
    ar: &A,
    g: Functions,
    colours: ([Double; 3], [Double; 3]),
    k: real,
    r: ((Double, Double), (Double, Double)),
)
    requires
        lossless(ar, g),
        finite_three(colours.0) && finite_three(colours.1),
        0real < k,
        0real < sum_of(colours.0),
        double_value(colours.1@[0]) == k * double_value(colours.0@[0]),
        double_value(colours.1@[1]) == k * double_value(colours.0@[1]),
        double_value(colours.1@[2]) == k * double_value(colours.0@[2]),
        is_xy(ar, colours.0, r.0),
        is_xy(ar, colours.1, r.1),
    ensures
        double_value(r.0.0) * sum_of(colours.0) == double_value(colours.0@[0]),
        double_value(r.0.1) * sum_of(colours.0) == double_value(colours.0@[1]),
        double_value(r.1.0) == double_value(r.0.0),
        double_value(r.1.1) == double_value(r.0.1),
{
    let (a, b) = (sum_of(colours.0), sum_of(colours.1));
    lemma_row(
        k,
        double_value(colours.0@[0]),
        double_value(colours.0@[1]),
        double_value(colours.0@[2]),
    );
    assert(b == k * a);
    assert(0real < k * a) by (nonlinear_arith)
        requires
            0real < k,
            0real < a,
    ;
    lemma_shares(ar, g, colours.0, r.0);
    lemma_shares(ar, g, colours.1, r.1);
    lemma_unscaled(double_value(r.0.0), double_value(r.1.0), k, a);
    lemma_unscaled(double_value(r.0.1), double_value(r.1.1), k, a);
}

pub open spec fn finite_three(v: [Double; 3]) -> bool {
    v@[0].finite() && v@[1].finite() && v@[2].finite()
}

pub open spec fn sum_of(v: [Double; 3]) -> real {
    double_value(v@[0]) + double_value(v@[1]) + double_value(v@[2])
}

proof fn lemma_shares<A: Arithmetic>(ar: &A, g: Functions, v: [Double; 3], r: (Double, Double))
    requires
        lossless(ar, g),
        finite_three(v),
        0real < sum_of(v),
        is_xy(ar, v, r),
    ensures
        double_value(r.0) * sum_of(v) == double_value(v@[0]),
        double_value(r.1) * sum_of(v) == double_value(v@[1]),
{
    let f = plus(plus(double(v@[0]), double(v@[1])), double(v@[2]));
    let zero = Double { bits: 0 };
    let sum = choose|sum: Double| #[trigger]
        is_double(ar, f, sum) && if sum.at_most(zero) {
            // 0.3127 and 0.3290
            r.0.bits == 0x3fd4_0346_dc5d_6388u64 && r.1.bits == 0x3fd5_0e56_0418_9375u64
        } else {
            is_double(ar, over(double(v@[0]), double(sum)), r.0) && is_double(
                ar,
                over(double(v@[1]), double(sum)),
                r.1,
            )
        };
    lemma_zero_values();
    reveal_with_fuel(exact, 3);
    reveal_with_fuel(finite_leaves, 3);
    lemma_lossless_double(ar, g, f, sum);
    lemma_order(sum, zero);
    lemma_lossless_double(ar, g, over(double(v@[0]), double(sum)), r.0);
    lemma_lossless_double(ar, g, over(double(v@[1]), double(sum)), r.1);
    lemma_parts(double_value(v@[0]), double_value(sum));
    lemma_parts(double_value(v@[1]), double_value(sum));
}

proof fn lemma_unscaled(p: real, q: real, k: real, a: real)
    requires
        0real < k,
        0real < a,
        q * (k * a) == k * (p * a),
    ensures
        q == p,
{
    assert(k * (p * a) == p * (k * a)) by (nonlinear_arith);
    assert(0real < k * a) by (nonlinear_arith)
        requires
            0real < k,
            0real < a,
    ;
    lemma_same_factor(q, p, k * a);
}

/// The white of a spectrum is what the observer sees of it: without rounding,
/// X, Y and Z are to each other as the light in the three responses, and Y is
/// one.
pub proof fn lemma_white_of_light<A: Arithmetic>(
    ar: &A,
    g: Functions,
    x: Double,
    y: Double,
    z: Double,
    sum: Double,
    r: [Double; 3],
)
    requires
        lossless(ar, g),
        x.finite() && y.finite() && z.finite(),
        0real < double_value(y),
        is_double(ar, plus(plus(double(x), double(y)), double(z)), sum),
        0real < double_value(x) + double_value(y) + double_value(z),
        is_white_of(ar, x, y, sum, r),
    ensures
        double_value(r@[1]) == 1real,
        double_value(r@[0]) * double_value(y) == double_value(x),
        double_value(r@[2]) * double_value(y) == double_value(z),
{
    let zero = Double { bits: 0 };
    lemma_zero_values();
    lemma_one_values();
    reveal_with_fuel(exact, 4);
    reveal_with_fuel(finite_leaves, 4);
    lemma_lossless_double(ar, g, plus(plus(double(x), double(y)), double(z)), sum);
    lemma_order(sum, zero);
    let grey = seq![Double { bits: ONE }, Double { bits: ONE }, Double { bits: ONE }];
    let (cx, cy) = choose|cx: Double, cy: Double|
        {
            &&& #[trigger] is_double(ar, over(double(x), double(sum)), cx)
            &&& #[trigger] is_double(ar, over(double(y), double(sum)), cy)
            &&& if cy.at_most(zero) {
                r@ == grey
            } else {
                &&& is_double(ar, over(double(cx), double(cy)), r@[0])
                &&& r@[1].bits == ONE
                &&& is_double(
                    ar,
                    over(minus(minus(constant(ONE), double(cx)), double(cy)), double(cy)),
                    r@[2],
                )
            }
        };
    lemma_lossless_double(ar, g, over(double(x), double(sum)), cx);
    lemma_lossless_double(ar, g, over(double(y), double(sum)), cy);
    let (a, b, t) = (double_value(cx), double_value(cy), double_value(sum));
    lemma_parts(double_value(x), t);
    lemma_parts(double_value(y), t);
    assert(0real < b) by (nonlinear_arith)
        requires
            b * t == double_value(y),
            0real < double_value(y),
            0real < t,
    ;
    lemma_order(cy, zero);
    let last = over(minus(minus(constant(ONE), double(cx)), double(cy)), double(cy));
    lemma_lossless_double(ar, g, over(double(cx), double(cy)), r@[0]);
    lemma_lossless_double(ar, g, last, r@[2]);
    assert(r@[1] == Double { bits: ONE });
    let (p, q) = (double_value(r@[0]), double_value(r@[2]));
    lemma_parts(a, b);
    lemma_parts(1real - a - b, b);
    lemma_grouped(p, b, t);
    lemma_grouped(q, b, t);
    assert((1real - a - b) * t == t - a * t - b * t) by (nonlinear_arith);
}

// ── Dyes ─────────────────────────────────────────────────────────────────

pub open spec fn base_value(base: Option<Single>) -> real {
    match base {
        Some(b) => single_value(b),
        None => 0real,
    }
}

/// Dyes add to the base, each by itself: without rounding, where three pixels
/// are such that the third has the dyes of the two others, what it has above
/// the base is what the two have above it, and a pixel without dyes has the
/// base.
pub proof fn lemma_dyes_add<T: Sample>(
    g: Functions,
    a: [T; 3],
    b: [T; 3],
    c: [T; 3],
    row: [Single; 3],
    base: Option<Single>,
)
    requires
        value_of(c@[0]) == value_of(a@[0]) + value_of(b@[0]),
        value_of(c@[1]) == value_of(a@[1]) + value_of(b@[1]),
        value_of(c@[2]) == value_of(a@[2]) + value_of(b@[2]),
    ensures
        exact(g, dye_density(c@[0], c@[1], c@[2], row, base)) - base_value(base) == (exact(
            g,
            dye_density(a@[0], a@[1], a@[2], row, base),
        ) - base_value(base)) + (exact(g, dye_density(b@[0], b@[1], b@[2], row, base))
            - base_value(base)),
        value_of(a@[0]) == 0real && value_of(a@[1]) == 0real && value_of(a@[2]) == 0real ==> exact(
            g,
            dye_density(a@[0], a@[1], a@[2], row, base),
        ) == base_value(base),
        value_of(a@[0]) == 1real && value_of(a@[1]) == 0real && value_of(a@[2]) == 0real ==> exact(
            g,
            dye_density(a@[0], a@[1], a@[2], row, base),
        ) == base_value(base) + single_value(row@[0]),
        value_of(a@[0]) == 0real && value_of(a@[1]) == 1real && value_of(a@[2]) == 0real ==> exact(
            g,
            dye_density(a@[0], a@[1], a@[2], row, base),
        ) == base_value(base) + single_value(row@[1]),
        value_of(a@[0]) == 0real && value_of(a@[1]) == 0real && value_of(a@[2]) == 1real ==> exact(
            g,
            dye_density(a@[0], a@[1], a@[2], row, base),
        ) == base_value(base) + single_value(row@[2]),
{
    lemma_dyes(g, a, row, base);
    lemma_dyes(g, b, row, base);
    lemma_dyes(g, c, row, base);
    let (x, y, z) = (single_value(row@[0]), single_value(row@[1]), single_value(row@[2]));
    lemma_two_parts(value_of(a@[0]), value_of(b@[0]), x);
    lemma_two_parts(value_of(a@[1]), value_of(b@[1]), y);
    lemma_two_parts(value_of(a@[2]), value_of(b@[2]), z);
    assert(0real * x == 0real && 0real * y == 0real && 0real * z == 0real) by (nonlinear_arith);
    assert(1real * x == x && 1real * y == y && 1real * z == z) by (nonlinear_arith);
}

proof fn lemma_dyes<T: Sample>(g: Functions, a: [T; 3], row: [Single; 3], base: Option<Single>)
    ensures
        exact(g, dye_density(a@[0], a@[1], a@[2], row, base)) == base_value(base) + (value_of(
            a@[0],
        ) * single_value(row@[0]) + value_of(a@[1]) * single_value(row@[1]) + value_of(a@[2])
            * single_value(row@[2])),
{
    a@[0].lemma_forms(g, constant(0));
    a@[1].lemma_forms(g, constant(0));
    a@[2].lemma_forms(g, constant(0));
    reveal_with_fuel(exact, 5);
}

proof fn lemma_two_parts(a: real, b: real, v: real)
    by (nonlinear_arith)
    ensures
        (a + b) * v == a * v + b * v,
{
}

// ── Chances ──────────────────────────────────────────────────────────────

/// Of `n` trials, those that succeed and those that fail share the spread:
/// without rounding, `n` times the variance is the mean of the ones times that
/// of the others.
pub proof fn lemma_binomial_spread(g: Functions, n: u32, p: Double)
    ensures
        (n as real) * exact(g, binomial_variance(n, p)) == exact(g, binomial_mean(n, p)) * (
        n as real - exact(g, binomial_mean(n, p))),
{
    lemma_one_values();
    reveal_with_fuel(exact, 4);
    let (k, x) = (n as u64 as real, double_value(p));
    lemma_spread(k, x);
}

proof fn lemma_spread(k: real, x: real)
    ensures
        k * ((k * x) * (1real - x)) == (k * x) * (k - k * x),
{
    let (m, s) = (k * x, 1real - x);
    assert(k * s == k - k * x) by (nonlinear_arith)
        requires
            s == 1real - x,
    ;
    assert(k * (m * s) == m * (k * s)) by (nonlinear_arith);
}

/// Two samples of the polar method lie as far out as the logarithm of the
/// point's distance says: without rounding, their squares add up to minus twice
/// the logarithm, and they are to each other as the coordinates.
pub proof fn lemma_polar_point(g: Functions, seed: u32, n: nat, r2: Double)
    requires
        double_value(r2) == exact(g, distance_squared(seed, n)),
        0real < double_value(r2),
        ({
            let v = (-2real * (g.unary)(Unary::Ln, double_value(r2))) / double_value(r2);
            let s = (g.unary)(Unary::SquareRoot, v);
            s * s == v
        }),
    ensures
        ({
            let keep = exact(g, times(polar_factor(r2), coordinate(seed, n)));
            let give = exact(g, times(polar_factor(r2), coordinate(seed, n + 2)));
            &&& keep * keep + give * give == -2real * (g.unary)(Unary::Ln, double_value(r2))
            &&& keep * exact(g, coordinate(seed, n + 2)) == give * exact(g, coordinate(seed, n))
        }),
{
    lemma_small_numbers();
    let (a, b) = (coordinate(seed, n), coordinate(seed, n + 2));
    let (x, y) = (exact(g, a), exact(g, b));
    assert(exact(g, distance_squared(seed, n)) == x * x + y * y) by {
        reveal_with_fuel(exact, 3);
    }
    let l = -2real * (g.unary)(Unary::Ln, double_value(r2));
    let d = double_value(r2);
    assert(exact(g, polar_factor(r2)) == (g.unary)(Unary::SquareRoot, l / d)) by {
        reveal_with_fuel(exact, 5);
    }
    let s = exact(g, polar_factor(r2));
    assert(exact(g, times(polar_factor(r2), a)) == s * x);
    assert(exact(g, times(polar_factor(r2), b)) == s * y);
    lemma_parts(l, d);
    assert((s * x) * (s * x) == (s * s) * (x * x)) by (nonlinear_arith);
    assert((s * y) * (s * y) == (s * s) * (y * y)) by (nonlinear_arith);
    let q = s * s;
    let (u, w) = (x * x, y * y);
    assert(q * u + q * w == q * (u + w)) by (nonlinear_arith);
    assert((s * x) * y == (s * y) * x) by (nonlinear_arith);
}

} // verus!
