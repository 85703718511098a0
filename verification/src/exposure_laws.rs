//! What exposure does to numbers: stops double them, logarithms can be undone,
//! and meters weigh the middle of a picture most.

use vstd::arithmetic::power2::{lemma2_to64, lemma2_to64_rest, lemma_pow2_adds};
use vstd::prelude::*;

use crate::arith::{constant, double, evaluates, is_double, is_single, larger, minus, over};
use crate::arith::{plus, power, times, unary, Arithmetic, Formula};
use crate::arith::{Sample, Unary};
use crate::bits::{Double, Single};
use crate::curve_laws::{is_on_curve, lemma_read, on_line, rises};
use crate::density_curves::{column, gamma_distance, is_extreme, is_gamma_axis, is_read, key_of};
use crate::density_curves::{keys_of, least_at, lowest_finite, normalized, GAMMA_TOLERANCE};
use crate::enlarger::{grey, let_through, HUNDRED};
use crate::exact::{double_value, exact, finite_leaves, lemma_one_values, lemma_small_numbers};
use crate::exact::{lemma_zero_values, single_value, size_of_real, Functions};
use crate::filming::{bell_rate, ev_factor, is_logarithm, is_scaled, log_exposure, longer};
use crate::filming::{meter_weight, pixel_size};
use crate::gamma::{number_finite, value_of};
use crate::gaussian::fixed;
use crate::image::ImageBuf;
use crate::interp::num;
use crate::lossless::{lemma_lossless, lemma_lossless_double, lemma_lossless_single};
use crate::lossless::{lemma_sum_leaves, lossless};
use crate::meter_laws::{finite_image, lemma_grouped, lemma_scaled, lemma_sum_between};
use crate::meter_laws::{lemma_sum_positive, lemma_swapped};
use crate::print_laws::{exposure_of, finite_numbers, finite_rows, has_tens, lemma_constants, ten};
use crate::print_laws::tens_grow;
use crate::printing::{is_midgray, middle_weight, weight_at, weight_sum, weighted_density};
use crate::rounding::lemma_order;
use crate::spectral_service::SMALLEST_SUM;

verus! {

// ── Stops ────────────────────────────────────────────────────────────────

/// One more stop is twice the power of two, and none is one.
pub open spec fn has_doubling(g: Functions) -> bool {
    &&& (g.power)(2real, 0real) == 1real
    &&& forall|y: real| #[trigger] (g.power)(2real, y + 1real) == 2real * (g.power)(2real, y)
}

/// Exposure compensation counts in stops: without rounding, a value that is
/// higher by one doubles every number, and a value of nothing leaves them.
pub proof fn lemma_stop_doubles<T: Sample, A: Arithmetic>(
    ar: &A,
    g: Functions,
    image: ImageBuf<T>,
    evs: (Single, Single),
    r: (ImageBuf<T>, ImageBuf<T>),
    i: int,
)
    requires
        lossless(ar, g),
        has_doubling(g),
        finite_image(image),
        evs.0.finite() && evs.1.finite(),
        single_value(evs.1) == single_value(evs.0) + 1real,
        is_scaled(ar, image, ev_factor::<T>(evs.0), r.0),
        is_scaled(ar, image, ev_factor::<T>(evs.1), r.1),
        0 <= i < image.data@.len(),
    ensures
        value_of(r.1.data@[i]) == 2real * value_of(r.0.data@[i]),
        single_value(evs.0) == 0real ==> value_of(r.0.data@[i]) == value_of(image.data@[i]),
{
    lemma_scaled(ar, g, image, evs.0, r.0, i);
    lemma_scaled(ar, g, image, evs.1, r.1, i);
    let v = value_of(image.data@[i]);
    let k = (g.power)(2real, single_value(evs.0));
    assert((g.power)(2real, single_value(evs.0) + 1real) == 2real * k);
    lemma_grouped(2real, k, v);
    assert(1real * v == v) by (nonlinear_arith);
}

/// A grey card in a scene that is brighter by a stop reflects twice as much.
pub proof fn lemma_brighter_card<A: Arithmetic>(
    ar: &A,
    g: Functions,
    evs: (Single, Single),
    cards: (Double, Double),
)
    requires
        lossless(ar, g),
        has_doubling(g),
        evs.0.finite() && evs.1.finite(),
        single_value(evs.1) == single_value(evs.0) + 1real,
        is_double(ar, grey(Some(evs.0)), cards.0),
        is_double(ar, grey(Some(evs.1)), cards.1),
    ensures
        double_value(cards.1) == 2real * double_value(cards.0),
        single_value(evs.0) == 0real ==> forall|plain: Double| #[trigger]
            is_double(ar, grey(None), plain) ==> double_value(cards.0) == double_value(plain),
{
    lemma_small_numbers();
    reveal_with_fuel(finite_leaves, 4);
    reveal_with_fuel(exact, 4);
    lemma_lossless_double(ar, g, grey(Some(evs.0)), cards.0);
    lemma_lossless_double(ar, g, grey(Some(evs.1)), cards.1);
    let k = (g.power)(2real, single_value(evs.0));
    assert((g.power)(2real, single_value(evs.0) + 1real) == 2real * k);
    let c = exact(g, grey(None));
    lemma_swapped(c, 2real, k);
    assert(c * 1real == c) by (nonlinear_arith);
    assert forall|plain: Double| #[trigger] is_double(ar, grey(None), plain) && single_value(evs.0)
        == 0real implies double_value(cards.0) == double_value(plain) by {
        lemma_lossless_double(ar, g, grey(None), plain);
    }
}

// ── Logarithms ───────────────────────────────────────────────────────────

/// The logarithm of an image can be undone: without rounding, ten to its power
/// is the exposure and a little more, and there is no exposure below zero.
pub proof fn lemma_logarithm_undone<T: Sample, A: Arithmetic>(
    ar: &A,
    g: Functions,
    img: ImageBuf<T>,
    r: ImageBuf<T>,
    i: int,
)
    requires
        lossless(ar, g),
        has_tens(g),
        finite_image(img),
        is_logarithm(ar, img, r),
        0 <= i < img.data@.len(),
    ensures
        number_finite(r.data@[i].number()),
        exposure_of(g, value_of(r.data@[i])) == if value_of(img.data@[i]) < 0real {
            0real
        } else {
            value_of(img.data@[i])
        },
{
    lemma_constants();
    lemma_zero_values();
    let x = img.data@[i];
    let f = log_exposure(x);
    assert(evaluates(ar, f, r.data@[i].number()));
    x.lemma_forms(g, constant(0));
    x.lemma_forms(g, constant(SMALLEST_SUM));
    T::lemma_stored(g, constant(0));
    T::lemma_stored(g, constant(SMALLEST_SUM));
    let kept = larger(num(x), fixed::<T>(0));
    let sum = plus(kept, fixed::<T>(SMALLEST_SUM));
    reveal_with_fuel(finite_leaves, 2);
    reveal_with_fuel(exact, 2);
    assert(finite_leaves(kept));
    assert(finite_leaves(sum));
    assert(exact(g, kept) == if value_of(x) < 0real {
        0real
    } else {
        value_of(x)
    });
    assert(exact(g, sum) > 0real);
    lemma_lossless(ar, g, f, r.data@[i].number());
}

// ── Pixels on film ───────────────────────────────────────────────────────

/// The pixels of the longer side fill the film's longer side.
pub proof fn lemma_pixels_fill_film<A: Arithmetic>(
    ar: &A,
    g: Functions,
    format_mm: Single,
    w: u32,
    h: u32,
    r: Single,
)
    requires
        lossless(ar, g),
        format_mm.finite(),
        w > 0 || h > 0,
        is_single(ar, pixel_size(format_mm, w, h), r),
    ensures
        w >= h ==> single_value(r) * (w as real) == 1000real * single_value(format_mm),
        h >= w ==> single_value(r) * (h as real) == 1000real * single_value(format_mm),
{
    lemma2_to64();
    lemma2_to64_rest();
    let k = Single { bits: 0x447a_0000 };
    assert(single_value(k) == (0xfa_0000int as real) / (0x4000int as real));
    reveal_with_fuel(finite_leaves, 4);
    reveal_with_fuel(exact, 4);
    lemma_lossless_single(ar, g, pixel_size(format_mm, w, h), r);
    let n = longer(w, h) as real;
    let um = single_value(format_mm) * 1000real;
    assert((um / n) * n == um) by (nonlinear_arith)
        requires
            n > 0real,
    ;
}

// ── The middle of a picture ──────────────────────────────────────────────

/// The exponential function grows, and is above zero.
pub open spec fn exp_grows(g: Functions, x: real, y: real) -> bool {
    x <= y ==> (g.unary)(Unary::Exp, x) <= (g.unary)(Unary::Exp, y)
}

pub open spec fn has_exp(g: Functions) -> bool {
    &&& forall|x: real, y: real| #[trigger] exp_grows(g, x, y)
    &&& forall|x: real| 0real < #[trigger] (g.unary)(Unary::Exp, x)
}

/// The meter weighs a pixel further from the middle no more.
pub proof fn lemma_meter_weighs_middle(
    g: Functions,
    near: (Formula, Formula),
    far: (Formula, Formula),
)
    requires
        has_exp(g),
        exact(g, near.0) + exact(g, near.1) <= exact(g, far.0) + exact(g, far.1),
    ensures
        0real < exact(g, meter_weight(far.0, far.1)),
        exact(g, meter_weight(far.0, far.1)) <= exact(g, meter_weight(near.0, near.1)),
{
    lemma_bell_rate(g);
    reveal_with_fuel(exact, 4);
    let k = exact(g, bell_rate());
    let (a, b) = (
        -(exact(g, near.0) + exact(g, near.1)),
        -(exact(g, far.0) + exact(g, far.1)),
    );
    assert(b * k <= a * k) by (nonlinear_arith)
        requires
            b <= a,
            0real < k,
    ;
    assert(exp_grows(g, b * k, a * k));
}

proof fn lemma_bell_rate(g: Functions)
    ensures
        0real < exact(g, bell_rate()),
{
    lemma2_to64();
    lemma2_to64_rest();
    lemma_one_values();
    let s = Single { bits: 0x3e4c_cccd };
    assert(single_value(s) == (0xcc_cccdint as real) / (0x400_0000int as real));
    assert(single_value(Single { bits: 0x4000_0000 }) == (0x80_0000int as real) / (
    0x40_0000int as real));
    reveal_with_fuel(exact, 4);
    let v = single_value(s);
    assert(0real < (2real * v) * v && 0real < 1real / ((2real * v) * v)) by (nonlinear_arith)
        requires
            0real < v,
    {
        assert(0real < (2real * v) * v);
        assert((1real / ((2real * v) * v)) * ((2real * v) * v) == 1real);
    }
}

/// The middle of the picture weighs most in the density that a print is
/// exposed by.
pub proof fn lemma_print_weighs_middle(
    g: Functions,
    near: (Formula, Formula),
    far: (Formula, Formula),
)
    requires
        has_exp(g),
        exact(g, near.0) * exact(g, near.0) + exact(g, near.1) * exact(g, near.1) <= exact(g, far.0)
            * exact(g, far.0) + exact(g, far.1) * exact(g, far.1),
    ensures
        0real < exact(g, middle_weight(far.0, far.1)),
        exact(g, middle_weight(far.0, far.1)) <= exact(g, middle_weight(near.0, near.1)),
{
    lemma2_to64();
    lemma2_to64_rest();
    let q = Single { bits: 0x3e80_0000 };
    assert(single_value(q) == (0x80_0000int as real) / (0x200_0000int as real));
    assert(single_value(Single { bits: 0x4000_0000 }) == (0x80_0000int as real) / (
    0x40_0000int as real));
    reveal_with_fuel(exact, 6);
    let two = single_value(Single { bits: 0x4000_0000 });
    let k = (two * single_value(q)) * single_value(q);
    let v = single_value(q);
    assert(0real < k) by (nonlinear_arith)
        requires
            two == 2real,
            v == 1real / 4real,
            k == (two * v) * v,
    ;
    let a = -(exact(g, near.0) * exact(g, near.0) + exact(g, near.1) * exact(g, near.1));
    let b = -(exact(g, far.0) * exact(g, far.0) + exact(g, far.1) * exact(g, far.1));
    assert(b / k <= a / k) by (nonlinear_arith)
        requires
            b <= a,
            0real < k,
    {
        assert((b / k) * k == b);
        assert((a / k) * k == a);
    }
    assert(exp_grows(g, b / k, a / k));
}

/// The density of the middle of a picture is a mean: where every pixel has a
/// density from `low` to `high`, so has the middle.
pub proof fn lemma_midgray_is_a_mean<T: Sample, A: Arithmetic>(
    ar: &A,
    g: Functions,
    img: ImageBuf<T>,
    mid: [Double; 3],
    c: int,
    low: real,
    high: real,
)
    requires
        lossless(ar, g),
        has_exp(g),
        finite_image(img),
        img.data@.len() >= 3,
        is_midgray(ar, img, mid),
        0 <= c < 3,
        forall|k: int|
            0 <= k < img.data@.len() / 3 ==> low <= #[trigger] channel_value(img, k, c) <= high,
    ensures
        mid@[c].finite(),
        low <= double_value(mid@[c]) <= high,
{
    let n = (img.data@.len() / 3) as int;
    lemma_zero_values();
    let f = |k: int| times(img.data@[3 * k + c].fetched(), weight_at(img.width, img.height, k));
    let h = |k: int| weight_at(img.width, img.height, k);
    assert forall|k: int| 0 <= k < n implies 0real < exact(g, #[trigger] h(k)) && finite_leaves(
        h(k),
    ) by {
        lemma_weight_leaves(g, img.width, img.height, k);
    }
    assert forall|k: int| 0 <= k < n implies low * exact(g, #[trigger] h(k)) <= exact(g, f(k))
        <= high * exact(g, h(k)) by {
        let x = img.data@[3 * k + c];
        x.lemma_forms(g, constant(0));
        let (v, w) = (channel_value(img, k, c), exact(g, h(k)));
        assert(exact(g, f(k)) == v * w) by {
            reveal_with_fuel(exact, 2);
        }
        assert(low * w <= v * w <= high * w) by (nonlinear_arith)
            requires
                low <= v <= high,
                0real < w,
        ;
    }
    assert forall|k: int| 0 <= k < n implies finite_leaves(#[trigger] f(k)) by {
        img.data@[3 * k + c].lemma_forms(g, constant(0));
        lemma_weight_leaves(g, img.width, img.height, k);
        reveal_with_fuel(finite_leaves, 2);
    }
    lemma_sum_between(g, constant(0), f, h, low, high, n);
    lemma_sum_positive(g, constant(0), h, n);
    lemma_sum_leaves(constant(0), f, n);
    lemma_sum_leaves(constant(0), h, n);
    let (num_f, den_f) = (weighted_density(img, c, n), weight_sum(img.width, img.height, n));
    assert(is_double(ar, over(num_f, den_f), mid@[c]));
    reveal_with_fuel(finite_leaves, 2);
    reveal_with_fuel(exact, 2);
    lemma_lossless_double(ar, g, over(num_f, den_f), mid@[c]);
    let (l, w) = (exact(g, num_f), exact(g, den_f));
    assert(low <= l / w <= high) by (nonlinear_arith)
        requires
            low * w <= l <= high * w,
            0real < w,
    {
        assert((l / w) * w == l);
    }
}

/// Channel `c` of pixel `k`.
pub open spec fn channel_value<T: Sample>(img: ImageBuf<T>, k: int, c: int) -> real {
    value_of(img.data@[3 * k + c])
}

proof fn lemma_weight_leaves(g: Functions, w: u32, h: u32, k: int)
    requires
        has_exp(g),
    ensures
        0real < exact(g, weight_at(w, h, k)),
        finite_leaves(weight_at(w, h, k)),
{
    reveal_with_fuel(finite_leaves, 12);
    reveal_with_fuel(exact, 3);
}

// ── Curves ───────────────────────────────────────────────────────────────

/// Taking the lowest densities off leaves what lies between densities, and
/// the lowest one at nothing.
pub proof fn lemma_lowest_is_nothing<A: Arithmetic>(
    ar: &A,
    g: Functions,
    curves: Seq<[Double; 3]>,
    low: [Double; 3],
    r: Seq<[Double; 3]>,
    i: int,
    j: int,
    c: int,
)
    requires
        lossless(ar, g),
        finite_rows(curves),
        normalized(ar, curves, low, r),
        0 <= i < curves.len(),
        0 <= j < curves.len(),
        0 <= c < 3,
    ensures
        double_value(r[i]@[c]) - double_value(r[j]@[c]) == double_value(curves[i]@[c])
            - double_value(curves[j]@[c]),
        0real <= double_value(r[i]@[c]),
        exists|k: int| 0 <= k < curves.len() && #[trigger] double_value(r[k]@[c]) == 0real,
{
    let col = column(curves, c);
    let keys = keys_of(col, lowest_finite());
    assert(curves[i]@[c].finite() && curves[j]@[c].finite());
    assert(is_extreme(col, lowest_finite(), low@[c]));
    assert(key_of(col[i], lowest_finite()) is Some);
    let k = choose|k: int| #[trigger] least_at(keys, k) && low@[c] == col[k];
    assert(curves[k]@[c].finite());
    assert(keys[i] is Some && keys[k] is Some);
    lemma_order(col[k], col[i]);
    lemma_taken_off(ar, g, curves, low, r, i, c);
    lemma_taken_off(ar, g, curves, low, r, j, c);
    lemma_taken_off(ar, g, curves, low, r, k, c);
}

proof fn lemma_taken_off<A: Arithmetic>(
    ar: &A,
    g: Functions,
    curves: Seq<[Double; 3]>,
    low: [Double; 3],
    r: Seq<[Double; 3]>,
    i: int,
    c: int,
)
    requires
        lossless(ar, g),
        normalized(ar, curves, low, r),
        0 <= i < curves.len(),
        0 <= c < 3,
        curves[i]@[c].finite(),
        low@[c].finite(),
    ensures
        double_value(r[i]@[c]) == double_value(curves[i]@[c]) - double_value(low@[c]),
{
    let f = minus(double(curves[i]@[c]), double(low@[c]));
    assert(is_double(ar, f, r[i]@[c]));
    reveal_with_fuel(finite_leaves, 2);
    reveal_with_fuel(exact, 2);
    lemma_lossless_double(ar, g, f, r[i]@[c]);
}

/// A gamma stretches exposures: without rounding, what is read at an exposure
/// with a gamma is what the curve has at the exposure times the gamma.
pub proof fn lemma_gamma_stretches<T: Sample, A: Arithmetic>(
    ar: &A,
    g: Functions,
    img: ImageBuf<T>,
    axis: Seq<Double>,
    gamma: Double,
    drawn: Seq<Double>,
    curves: Seq<[Double; 3]>,
    r: ImageBuf<T>,
    i: int,
)
    requires
        lossless(ar, g),
        finite_image(img),
        finite_numbers(axis),
        finite_numbers(column(curves, i % 3)),
        axis.len() == curves.len(),
        axis.len() > 0,
        gamma.finite(),
        0real < double_value(gamma),
        1real / 1000000000real <= size_of_real(double_value(gamma) - 1real),
        rises(|k: int| double_value(axis[k]), axis.len() as int),
        is_gamma_axis(ar, axis, gamma, drawn),
        is_read(ar, img, drawn, curves, r),
        0 <= i < img.data@.len(),
    ensures
        is_on_curve(
            axis.len() as int,
            |k: int| double_value(axis[k]),
            |k: int| double_value(curves[k]@[i % 3]),
            value_of(img.data@[i]) * double_value(gamma),
            value_of(r.data@[i]),
        ),
{
    let n = axis.len() as int;
    let v = double_value(gamma);
    lemma_drawn(ar, g, axis, gamma, drawn);
    let xs = |k: int| double_value(axis[k]);
    let ds = |k: int| double_value(drawn[k]);
    assert forall|k: int| 0 <= k < n implies (#[trigger] drawn[k]).finite() && double_value(
        drawn[k],
    ) * v == double_value(axis[k]) by {}
    assert forall|a: int, b: int| 0 <= a < b < n implies #[trigger] ds(a) < #[trigger] ds(b) by {
        assert(xs(a) < xs(b));
        assert(drawn[a].finite() && drawn[b].finite());
        let (p, q) = (ds(a), ds(b));
        assert(p < q) by (nonlinear_arith)
            requires
                p * v < q * v,
                0real < v,
        ;
    }
    lemma_read(ar, g, img, drawn, curves, r, i);
    let cs = |k: int| double_value(curves[k]@[i % 3]);
    let (q, w) = (value_of(img.data@[i]), value_of(r.data@[i]));
    assert(drawn[0].finite() && drawn[n - 1].finite());
    lemma_same_side(ds(0), q, v);
    lemma_same_side(q, ds(n - 1), v);
    lemma_same_side(q, ds(0), v);
    lemma_same_side(ds(n - 1), q, v);
    assert forall|j: int| 0 <= j < n - 1 implies #[trigger] on_line(xs, cs, q * v, w, j) by {
        assert(on_line(ds, cs, q, w, j));
        assert(drawn[j].finite() && drawn[j + 1].finite());
        lemma_same_side(ds(j), q, v);
        lemma_same_side(q, ds(j + 1), v);
        lemma_stretched(w - cs(j), ds(j + 1), ds(j), q, cs(j + 1) - cs(j), v);
    }
}

proof fn lemma_same_side(a: real, b: real, v: real)
    by (nonlinear_arith)
    requires
        0real < v,
    ensures
        a * v <= b * v <==> a <= b,
{
}

proof fn lemma_stretched(d: real, hi: real, lo: real, q: real, h: real, v: real)
    by (nonlinear_arith)
    requires
        0real < v,
    ensures
        d * (hi - lo) == (q - lo) * h ==> d * (hi * v - lo * v) == (q * v - lo * v) * h,
{
    assert(d * (hi * v - lo * v) == (d * (hi - lo)) * v);
    assert((q * v - lo * v) * h == ((q - lo) * h) * v);
}

proof fn lemma_drawn<A: Arithmetic>(
    ar: &A,
    g: Functions,
    axis: Seq<Double>,
    gamma: Double,
    drawn: Seq<Double>,
)
    requires
        lossless(ar, g),
        finite_numbers(axis),
        gamma.finite(),
        0real < double_value(gamma),
        1real / 1000000000real <= size_of_real(double_value(gamma) - 1real),
        is_gamma_axis(ar, axis, gamma, drawn),
    ensures
        drawn.len() == axis.len(),
        forall|k: int|
            0 <= k < axis.len() ==> (#[trigger] drawn[k]).finite() && double_value(drawn[k])
                * double_value(gamma) == double_value(axis[k]),
{
    let v = double_value(gamma);
    let d = choose|d: Double|
        #[trigger] is_double(ar, gamma_distance(gamma), d) && if d.below(
            Double { bits: GAMMA_TOLERANCE },
        ) {
            drawn == axis
        } else {
            &&& drawn.len() == axis.len()
            &&& forall|i: int|
                0 <= i < axis.len() ==> is_double(
                    ar,
                    over(double(axis[i]), double(gamma)),
                    #[trigger] drawn[i],
                )
        };
    lemma_one_values();
    lemma_tolerance();
    reveal_with_fuel(finite_leaves, 3);
    reveal_with_fuel(exact, 3);
    lemma_lossless_double(ar, g, gamma_distance(gamma), d);
    lemma_order(d, Double { bits: GAMMA_TOLERANCE });
    assert forall|k: int| 0 <= k < axis.len() implies (#[trigger] drawn[k]).finite()
        && double_value(drawn[k]) * v == double_value(axis[k]) by {
        let f = over(double(axis[k]), double(gamma));
        assert(is_double(ar, f, drawn[k]));
        lemma_lossless_double(ar, g, f, drawn[k]);
        let a = double_value(axis[k]);
        assert((a / v) * v == a) by (nonlinear_arith)
            requires
                0real < v,
        ;
    }
}

proof fn lemma_tolerance()
    ensures
        (Double { bits: GAMMA_TOLERANCE }).finite(),
        double_value(Double { bits: GAMMA_TOLERANCE }) < 1real / 1000000000real,
{
    lemma2_to64();
    lemma2_to64_rest();
    lemma_pow2_adds(46, 46);
    assert(double_value(Double { bits: GAMMA_TOLERANCE }) == (0x11_9799_812d_ea11int as real) / (
    0x1000_0000_0000_0000_0000_0000int as real));
}

// ── Filters of the enlarger ──────────────────────────────────────────────

/// A filter that is not turned in lets all of the light through.
pub proof fn lemma_no_filter(g: Functions, full: Double, cc: Double)
    requires
        has_tens(g),
        double_value(cc) == 0real,
    ensures
        exact(g, let_through(full, cc)) == 1real,
{
    lemma_through(g, full, cc);
    lemma_filter_steps(g, cc, cc);
    assert(-0real / 100real == 0real);
    let w = 1real - double_value(full);
    assert(w * 0real == 0real) by (nonlinear_arith);
}

/// A filter that is turned in further lets no more light through, where what it
/// lets through at its full density is no more than all.
pub proof fn lemma_filter_dims(g: Functions, full: Double, less: Double, more: Double)
    requires
        has_tens(g),
        double_value(full) <= 1real,
        double_value(less) <= double_value(more),
    ensures
        exact(g, let_through(full, more)) <= exact(g, let_through(full, less)),
{
    lemma_through(g, full, less);
    lemma_through(g, full, more);
    lemma_filter_steps(g, less, more);
    let w = 1real - double_value(full);
    let (a, b) = (
        1real - ten(g, -double_value(less) / 100real),
        1real - ten(g, -double_value(more) / 100real),
    );
    assert(w * a <= w * b) by (nonlinear_arith)
        requires
            a <= b,
            0real <= w,
    ;
}

proof fn lemma_filter_steps(g: Functions, less: Double, more: Double)
    requires
        has_tens(g),
        double_value(less) <= double_value(more),
    ensures
        ten(g, -double_value(more) / 100real) <= ten(g, -double_value(less) / 100real),
{
    assert(tens_grow(
        g,
        -double_value(more) / 100real,
        -double_value(less) / 100real,
    ));
}

proof fn lemma_through(g: Functions, full: Double, cc: Double)
    ensures
        exact(g, let_through(full, cc)) == 1real - (1real - double_value(full)) * (1real - ten(
            g,
            -double_value(cc) / 100real,
        )),
{
    lemma_constants();
    lemma_one_values();
    lemma_hundred();
    reveal_with_fuel(exact, 8);
}

proof fn lemma_hundred()
    ensures
        double_value(Double { bits: HUNDRED }) == 100real,
{
    lemma2_to64();
    lemma2_to64_rest();
    assert(double_value(Double { bits: HUNDRED }) == (
    0x19_0000_0000_0000int as real) / (0x4000_0000_0000int as real));
}

} // verus!
