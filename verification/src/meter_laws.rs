//! What metering is for: the picture that comes out of it has the brightness
//! that was asked for.

use vstd::arithmetic::power2::{lemma2_to64, lemma2_to64_rest};
use vstd::prelude::*;

use crate::arith::{constant, double, is_double, is_single, power, rounds_to, single, sum_from, times};
use crate::arith::{unary, Arithmetic, Formula, Rounding, Sample, Unary};
use crate::bits::{Double, Single};
use crate::colorspace::{short_decoded, short_to_xyz_bits};
use crate::exact::{exact, finite_leaves, lemma_factor_out, lemma_sum_scaled, lemma_zero_values};
use crate::exact::{single_value, Functions};
use crate::filming::{cell_light, cell_weight, ev_factor, is_autoexposure, is_compensation};
use crate::filming::{is_meter_map, is_metered, is_nearest, is_scaled, longer, luminance};
use crate::filming::{meter_scale, metered_exposure, row_light, row_weight, source_index};
use crate::filming::{total_light, total_weight, METER_SIZE};
use crate::gamma::{number_finite, value_of};
use crate::image::ImageBuf;
use crate::interp::num;
use crate::lossless::{lemma_lossless, lemma_lossless_single, lemma_sum_leaves, lossless};
use crate::rounding::lemma_short_order;
use crate::spectral::ColorSpace;

verus! {

/// Powers of two and logarithms to the base two undo each other, powers of
/// two are above one for numbers above zero and below one for those below, and
/// the exponential function is above zero.
pub open spec fn has_stops(g: Functions) -> bool {
    &&& forall|x: real|
        0real < x ==> (g.power)(2real, #[trigger] (g.unary)(Unary::Log2, x)) == x
    &&& forall|y: real| (g.power)(2real, -y) * #[trigger] (g.power)(2real, y) == 1real
    &&& forall|y: real| 1real < #[trigger] (g.power)(2real, y) <==> 0real < y
    &&& forall|y: real| #[trigger] (g.power)(2real, y) < 1real <==> y < 0real
    &&& forall|x: real| 0real < #[trigger] (g.unary)(Unary::Exp, x)
}

/// Every number of an image is finite.
pub open spec fn finite_image<T: Sample>(image: ImageBuf<T>) -> bool {
    forall|i: int| 0 <= i < image.data@.len() ==> number_finite((#[trigger] image.data@[i]).number())
}

pub open spec fn finite_row(row: [Single; 3]) -> bool {
    row@[0].finite() && row@[1].finite() && row@[2].finite()
}

/// Pixels of a picture that are metered.
pub open spec fn inside<T: Sample>(image: ImageBuf<T>, ix: Seq<usize>, iy: Seq<usize>) -> bool {
    &&& image.valid()
    &&& forall|x: int| 0 <= x < ix.len() ==> #[trigger] ix[x] < image.width
    &&& forall|y: int| 0 <= y < iy.len() ==> #[trigger] iy[y] < image.height
}

/// The luminance of the pixel that starts at `at`, by the shares of the three
/// channels.
pub open spec fn pixel_luminance<T: Sample>(image: ImageBuf<T>, y_row: [Single; 3], at: int) -> real {
    single_value(y_row@[0]) * value_of(image.data@[at]) + single_value(y_row@[1]) * value_of(
        image.data@[at + 1],
    ) + single_value(y_row@[2]) * value_of(image.data@[at + 2])
}

/// The luminance that is metered: that of the pixels, by their weights.
pub open spec fn mean_light<T: Sample>(
    g: Functions,
    image: ImageBuf<T>,
    y_row: [Single; 3],
    ix: Seq<usize>,
    iy: Seq<usize>,
) -> real {
    exact(g, total_light(image, y_row, ix, iy, iy.len() as int)) / exact(
        g,
        total_weight(ix.len() as int, iy.len() as int, iy.len() as int),
    )
}

// ── Sums ─────────────────────────────────────────────────────────────────

/// Sums of terms that lie between multiples of other terms.
pub proof fn lemma_sum_between(
    g: Functions,
    start: Formula,
    f: spec_fn(int) -> Formula,
    h: spec_fn(int) -> Formula,
    low: real,
    high: real,
    n: int,
)
    requires
        exact(g, start) == 0real,
        forall|i: int|
            0 <= i < n ==> low * exact(g, #[trigger] h(i)) <= exact(g, f(i)) <= high * exact(
                g,
                h(i),
            ),
    ensures
        low * exact(g, sum_from(start, h, n)) <= exact(g, sum_from(start, f, n)) <= high * exact(
            g,
            sum_from(start, h, n),
        ),
    decreases n,
{
    if n <= 0 {
        lemma_factor_out(low, 0real, 0real);
        lemma_factor_out(high, 0real, 0real);
    } else {
        lemma_sum_between(g, start, f, h, low, high, n - 1);
        let (a, b) = (exact(g, sum_from(start, h, n - 1)), exact(g, h(n - 1)));
        lemma_factor_out(low, a, b);
        lemma_factor_out(high, a, b);
    }
}

/// A sum of terms above zero.
pub proof fn lemma_sum_positive(g: Functions, start: Formula, f: spec_fn(int) -> Formula, n: int)
    requires
        exact(g, start) == 0real,
        forall|i: int| 0 <= i < n ==> 0real < exact(g, #[trigger] f(i)),
    ensures
        0real <= exact(g, sum_from(start, f, n)),
        0 < n ==> 0real < exact(g, sum_from(start, f, n)),
    decreases n,
{
    if n > 0 {
        lemma_sum_positive(g, start, f, n - 1);
        assert(0real < exact(g, f(n - 1)));
    }
}

// ── The meter ────────────────────────────────────────────────────────────

proof fn lemma_weight_positive(g: Functions, sw: int, sh: int, x: int, y: int)
    requires
        has_stops(g),
    ensures
        0real < exact(g, cell_weight(sw, sh, x, y)),
        finite_leaves(cell_weight(sw, sh, x, y)),
{
    reveal_with_fuel(exact, 3);
    reveal_with_fuel(finite_leaves, 12);
}

proof fn lemma_total_weight(g: Functions, sw: int, sh: int, n: int)
    requires
        has_stops(g),
        0 < sw,
        0 < n,
    ensures
        0real < exact(g, total_weight(sw, sh, n)),
        finite_leaves(total_weight(sw, sh, n)),
{
    lemma_zero_values();
    let rows = |y: int| row_weight(sw, sh, y, sw);
    assert forall|y: int| 0 <= y < n implies 0real < exact(g, #[trigger] rows(y)) && finite_leaves(
        rows(y),
    ) by {
        let cells = |x: int| cell_weight(sw, sh, x, y);
        assert forall|x: int| 0 <= x < sw implies 0real < exact(g, #[trigger] cells(x))
            && finite_leaves(cells(x)) by {
            lemma_weight_positive(g, sw, sh, x, y);
        }
        lemma_sum_positive(g, constant(0), cells, sw);
        lemma_sum_leaves(constant(0), cells, sw);
    }
    lemma_sum_positive(g, constant(0), rows, n);
    lemma_sum_leaves(constant(0), rows, n);
}

proof fn lemma_inside<T: Sample>(image: ImageBuf<T>, ix: Seq<usize>, iy: Seq<usize>, x: int, y: int)
    requires
        inside(image, ix, iy),
        0 <= x < ix.len(),
        0 <= y < iy.len(),
    ensures
        0 <= source_index(image.width, ix, iy, x, y),
        source_index(image.width, ix, iy, x, y) + 2 < image.data@.len(),
{
    let (a, b, w, h) = (ix[x] as int, iy[y] as int, image.width as int, image.height as int);
    assert(0 <= b * w && b * w + a < w * h) by (nonlinear_arith)
        requires
            0 <= a < w,
            0 <= b < h,
    ;
    assert(image.data@.len() == w * h * 3);
}

/// The light of a metered pixel is its luminance times its weight.
proof fn lemma_cell<T: Sample>(
    g: Functions,
    image: ImageBuf<T>,
    y_row: [Single; 3],
    ix: Seq<usize>,
    iy: Seq<usize>,
    x: int,
    y: int,
)
    requires
        has_stops(g),
        inside(image, ix, iy),
        finite_image(image),
        finite_row(y_row),
        0 <= x < ix.len(),
        0 <= y < iy.len(),
    ensures
        exact(g, cell_light(image, y_row, ix, iy, x, y)) == pixel_luminance(
            image,
            y_row,
            source_index(image.width, ix, iy, x, y),
        ) * exact(g, cell_weight(ix.len() as int, iy.len() as int, x, y)),
        finite_leaves(cell_light(image, y_row, ix, iy, x, y)),
{
    let at = source_index(image.width, ix, iy, x, y);
    lemma_inside(image, ix, iy, x, y);
    let (p, q, s) = (image.data@[at], image.data@[at + 1], image.data@[at + 2]);
    p.lemma_forms(g, constant(0));
    q.lemma_forms(g, constant(0));
    s.lemma_forms(g, constant(0));
    lemma_weight_positive(g, ix.len() as int, iy.len() as int, x, y);
    reveal_with_fuel(exact, 5);
    reveal_with_fuel(finite_leaves, 5);
    let l = luminance(y_row, p, q, s);
    assert(exact(g, l) == pixel_luminance(image, y_row, at));
    assert(finite_leaves(l));
}

/// The metered light lies between the lights of the pixels: where every
/// metered pixel has a luminance from `low` to `high`, so has the picture.
pub proof fn lemma_meter_is_a_mean<T: Sample>(
    g: Functions,
    image: ImageBuf<T>,
    y_row: [Single; 3],
    ix: Seq<usize>,
    iy: Seq<usize>,
    low: real,
    high: real,
)
    requires
        has_stops(g),
        inside(image, ix, iy),
        finite_image(image),
        finite_row(y_row),
        0 < ix.len(),
        0 < iy.len(),
        forall|x: int, y: int|
            0 <= x < ix.len() && 0 <= y < iy.len() ==> low <= pixel_luminance(
                image,
                y_row,
                #[trigger] source_index(image.width, ix, iy, x, y),
            ) <= high,
    ensures
        low <= mean_light(g, image, y_row, ix, iy) <= high,
{
    lemma_zero_values();
    let (sw, sh) = (ix.len() as int, iy.len() as int);
    let lights = |y: int| row_light(image, y_row, ix, iy, y, sw);
    let weights = |y: int| row_weight(sw, sh, y, sw);
    assert forall|y: int| 0 <= y < sh implies low * exact(g, #[trigger] weights(y)) <= exact(
        g,
        lights(y),
    ) <= high * exact(g, weights(y)) by {
        let f = |x: int| cell_light(image, y_row, ix, iy, x, y);
        let h = |x: int| cell_weight(sw, sh, x, y);
        assert forall|x: int| 0 <= x < sw implies low * exact(g, #[trigger] h(x)) <= exact(g, f(x))
            <= high * exact(g, h(x)) by {
            lemma_cell(g, image, y_row, ix, iy, x, y);
            lemma_weight_positive(g, sw, sh, x, y);
            let at = source_index(image.width, ix, iy, x, y);
            lemma_between(low, pixel_luminance(image, y_row, at), high, exact(g, h(x)));
        }
        lemma_sum_between(g, constant(0), f, h, low, high, sw);
    }
    lemma_sum_between(g, constant(0), lights, weights, low, high, sh);
    lemma_total_weight(g, sw, sh, sh);
    let (l, w) = (
        exact(g, total_light(image, y_row, ix, iy, sh)),
        exact(g, total_weight(sw, sh, sh)),
    );
    lemma_ratio_between(low, l, high, w);
}

/// The formula of the meter holds finite numbers, and is the metered light
/// relative to a grey.
proof fn lemma_meter<T: Sample>(
    g: Functions,
    image: ImageBuf<T>,
    y_row: [Single; 3],
    ix: Seq<usize>,
    iy: Seq<usize>,
)
    requires
        has_stops(g),
        inside(image, ix, iy),
        finite_image(image),
        finite_row(y_row),
        0 < ix.len(),
        0 < iy.len(),
    ensures
        finite_leaves(metered_exposure(image, y_row, ix, iy)),
        exact(g, metered_exposure(image, y_row, ix, iy)) == mean_light(g, image, y_row, ix, iy)
            / single_value(Single { bits: 0x3e3c_6a7f }),
{
    let (sw, sh) = (ix.len() as int, iy.len() as int);
    let lights = |y: int| row_light(image, y_row, ix, iy, y, sw);
    assert forall|y: int| 0 <= y < sh implies finite_leaves(#[trigger] lights(y)) by {
        let f = |x: int| cell_light(image, y_row, ix, iy, x, y);
        assert forall|x: int| 0 <= x < sw implies finite_leaves(#[trigger] f(x)) by {
            lemma_cell(g, image, y_row, ix, iy, x, y);
        }
        lemma_sum_leaves(constant(0), f, sw);
    }
    lemma_sum_leaves(constant(0), lights, sh);
    lemma_total_weight(g, sw, sh, sh);
    reveal_with_fuel(finite_leaves, 4);
    reveal_with_fuel(exact, 4);
}

/// A picture with `k` times the light is metered `k` times as bright.
pub proof fn lemma_meter_scales<T: Sample>(
    g: Functions,
    image: ImageBuf<T>,
    r: ImageBuf<T>,
    k: real,
    y_row: [Single; 3],
    ix: Seq<usize>,
    iy: Seq<usize>,
)
    requires
        has_stops(g),
        inside(image, ix, iy),
        inside(r, ix, iy),
        image.width == r.width,
        image.height == r.height,
        finite_image(image),
        finite_image(r),
        finite_row(y_row),
        0 < ix.len(),
        0 < iy.len(),
        forall|i: int|
            0 <= i < r.data@.len() ==> value_of(#[trigger] r.data@[i]) == k * value_of(
                image.data@[i],
            ),
    ensures
        mean_light(g, r, y_row, ix, iy) == k * mean_light(g, image, y_row, ix, iy),
{
    lemma_zero_values();
    let (sw, sh) = (ix.len() as int, iy.len() as int);
    let before = |y: int| row_light(image, y_row, ix, iy, y, sw);
    let after = |y: int| row_light(r, y_row, ix, iy, y, sw);
    assert forall|y: int| 0 <= y < sh implies exact(g, #[trigger] after(y)) == k * exact(
        g,
        before(y),
    ) by {
        let f = |x: int| cell_light(r, y_row, ix, iy, x, y);
        let h = |x: int| cell_light(image, y_row, ix, iy, x, y);
        assert forall|x: int| 0 <= x < sw implies exact(g, #[trigger] f(x)) == k * exact(
            g,
            h(x),
        ) by {
            lemma_cell(g, image, y_row, ix, iy, x, y);
            lemma_cell(g, r, y_row, ix, iy, x, y);
            lemma_inside(image, ix, iy, x, y);
            let at = source_index(image.width, ix, iy, x, y);
            assert(value_of(r.data@[at]) == k * value_of(image.data@[at]));
            assert(value_of(r.data@[at + 1]) == k * value_of(image.data@[at + 1]));
            assert(value_of(r.data@[at + 2]) == k * value_of(image.data@[at + 2]));
            lemma_luminance_scales(
                k,
                (single_value(y_row@[0]), single_value(y_row@[1]), single_value(y_row@[2])),
                (
                    value_of(image.data@[at]),
                    value_of(image.data@[at + 1]),
                    value_of(image.data@[at + 2]),
                ),
                exact(g, cell_weight(sw, sh, x, y)),
            );
        }
        lemma_sum_scaled(g, constant(0), f, h, k, sw);
    }
    lemma_sum_scaled(g, constant(0), after, before, k, sh);
    lemma_total_weight(g, sw, sh, sh);
    lemma_ratio_scales(
        k,
        exact(g, total_light(image, y_row, ix, iy, sh)),
        exact(g, total_weight(sw, sh, sh)),
    );
}

proof fn lemma_luminance_scales(k: real, a: (real, real, real), p: (real, real, real), w: real)
    ensures
        (a.0 * (k * p.0) + a.1 * (k * p.1) + a.2 * (k * p.2)) * w == k * ((a.0 * p.0 + a.1 * p.1
            + a.2 * p.2) * w),
{
    lemma_swapped(a.0, k, p.0);
    lemma_swapped(a.1, k, p.1);
    lemma_swapped(a.2, k, p.2);
    lemma_factor_out(k, a.0 * p.0, a.1 * p.1);
    lemma_factor_out(k, a.0 * p.0 + a.1 * p.1, a.2 * p.2);
    lemma_grouped(k, a.0 * p.0 + a.1 * p.1 + a.2 * p.2, w);
}

/// A factor moved to the front.
pub proof fn lemma_swapped(a: real, k: real, p: real)
    by (nonlinear_arith)
    ensures
        a * (k * p) == k * (a * p),
{
}

/// Factors grouped in two ways.
pub proof fn lemma_grouped(k: real, s: real, w: real)
    by (nonlinear_arith)
    ensures
        (k * s) * w == k * (s * w),
{
}

proof fn lemma_ratio_scales(k: real, l: real, w: real)
    by (nonlinear_arith)
    requires
        0real < w,
    ensures
        (k * l) / w == k * (l / w),
{
}

// ── The picture after metering ───────────────────────────────────────────

/// The number that the grey is held as.
proof fn lemma_grey_value()
    ensures
        184real / 1000real <= single_value(Single { bits: 0x3e3c_6a7f }) <= 1840000004real
            / 10000000000real,
        single_value(Single { bits: 0x4000_0000 }) == 2real,
{
    lemma2_to64();
    lemma2_to64_rest();
    assert(single_value(Single { bits: 0x3e3c_6a7f }) == (0xbc_6a7fint as real) / (
    0x400_0000int as real));
    assert(single_value(Single { bits: 0x4000_0000 }) == (0x80_0000int as real) / (
    0x40_0000int as real));
}

/// What an exposure value does to an exposure: scaled by two to its power,
/// the exposure is one.
proof fn lemma_compensated<A: Arithmetic>(ar: &A, g: Functions, exposure: Single, ev: Single)
    requires
        lossless(ar, g),
        has_stops(g),
        exposure.finite(),
        0real < single_value(exposure),
        is_compensation(ar, exposure, ev),
    ensures
        ev.finite(),
        (g.power)(2real, single_value(ev)) * single_value(exposure) == 1real,
{
    lemma_zero_values();
    lemma_short_order(exposure, Single { bits: 0 });
    let f = unary(Unary::Negate, unary(Unary::Log2, single(exposure)));
    assert(is_single(ar, f, ev));
    reveal_with_fuel(finite_leaves, 4);
    reveal_with_fuel(exact, 4);
    lemma_lossless_single(ar, g, f, ev);
    let l = (g.unary)(Unary::Log2, single_value(exposure));
    assert((g.power)(2real, -l) * (g.power)(2real, l) == 1real);
}

/// Two to the power of an exposure value is what a picture is scaled by.
pub proof fn lemma_scaled<T: Sample, A: Arithmetic>(
    ar: &A,
    g: Functions,
    image: ImageBuf<T>,
    ev: Single,
    r: ImageBuf<T>,
    i: int,
)
    requires
        lossless(ar, g),
        finite_image(image),
        ev.finite(),
        is_scaled(ar, image, ev_factor::<T>(ev), r),
        0 <= i < image.data@.len(),
    ensures
        number_finite(r.data@[i].number()),
        value_of(r.data@[i]) == (g.power)(2real, single_value(ev)) * value_of(image.data@[i]),
{
    let two = Single { bits: 0x4000_0000 };
    let f = power(single(two), single(ev));
    let x = image.data@[i];
    x.lemma_forms(g, f);
    lemma_grey_value();
    reveal_with_fuel(finite_leaves, 4);
    reveal_with_fuel(exact, 4);
    assert(exact(g, f) == (g.power)(2real, single_value(ev)));
    assert(finite_leaves(f));
    lemma_lossless(ar, g, times(num(x), ev_factor::<T>(ev)), r.data@[i].number());
    lemma_commutes(value_of(x), exact(g, f));
}

proof fn lemma_commutes(a: real, b: real)
    by (nonlinear_arith)
    ensures
        a * b == b * a,
{
}

/// Metering meets its target: without rounding, a picture that is scaled by
/// two to the power of its automatic exposure value is metered at 0.184, where
/// it was metered above zero before.
pub proof fn lemma_metering_meets_target<T: Sample, A: Arithmetic>(
    ar: &A,
    g: Functions,
    image: ImageBuf<T>,
    y_row: [Single; 3],
    ev: Single,
    r: ImageBuf<T>,
) -> (maps: (Seq<usize>, Seq<usize>))
    requires
        lossless(ar, g),
        has_stops(g),
        image.valid(),
        image.width > 0,
        image.height > 0,
        finite_image(image),
        finite_row(y_row),
        is_autoexposure(ar, image, y_row, ev),
        is_scaled(ar, image, ev_factor::<T>(ev), r),
        forall|ix: Seq<usize>, iy: Seq<usize>|
            is_meter_map(ar, image.width, longer(image.width, image.height), ix) && is_meter_map(
                ar,
                image.height,
                longer(image.width, image.height),
                iy,
            ) ==> 0 < ix.len() && 0 < iy.len() && 0real < #[trigger] mean_light(
                g,
                image,
                y_row,
                ix,
                iy,
            ),
    ensures
        is_meter_map(ar, image.width, longer(image.width, image.height), maps.0),
        is_meter_map(ar, image.height, longer(image.width, image.height), maps.1),
        ev.finite(),
        184real / 1000real <= mean_light(g, r, y_row, maps.0, maps.1) <= 1840000004real
            / 10000000000real,
        mean_light(g, r, y_row, maps.0, maps.1) == (g.power)(2real, single_value(ev)) * mean_light(
            g,
            image,
            y_row,
            maps.0,
            maps.1,
        ),
        mean_light(g, image, y_row, maps.0, maps.1) < 184real / 1000real ==> 0real < single_value(
            ev,
        ),
        mean_light(g, image, y_row, maps.0, maps.1) > 1840000004real / 10000000000real
            ==> single_value(ev) < 0real,
{
    let side = longer(image.width, image.height);
    let (ix, iy, exposure) = choose|ix: Seq<usize>, iy: Seq<usize>, exposure: Single|
        {
            &&& is_meter_map(ar, image.width, side, ix)
            &&& is_meter_map(ar, image.height, side, iy)
            &&& #[trigger] is_single(ar, metered_exposure(image, y_row, ix, iy), exposure)
            &&& is_compensation(ar, exposure, ev)
        };
    let m = mean_light(g, image, y_row, ix, iy);
    assert(0real < m);
    lemma_map_inside(ar, image.width, side, ix);
    lemma_map_inside(ar, image.height, side, iy);
    lemma_meter(g, image, y_row, ix, iy);
    lemma_lossless_single(ar, g, metered_exposure(image, y_row, ix, iy), exposure);
    lemma_grey_value();
    let t = single_value(Single { bits: 0x3e3c_6a7f });
    let e = single_value(exposure);
    lemma_ratio_back(m, t);
    lemma_compensated(ar, g, exposure, ev);
    let k = (g.power)(2real, single_value(ev));
    assert forall|i: int| 0 <= i < r.data@.len() implies value_of(#[trigger] r.data@[i]) == k
        * value_of(image.data@[i]) && number_finite(r.data@[i].number()) by {
        lemma_scaled(ar, g, image, ev, r, i);
    }
    lemma_meter_scales(g, image, r, k, y_row, ix, iy);
    lemma_grouped(k, e, t);
    lemma_against_one(k, e);
    lemma_below_grey(m, t);
    (ix, iy)
}

proof fn lemma_against_one(k: real, e: real)
    by (nonlinear_arith)
    requires
        0real < e,
        k * e == 1real,
    ensures
        e < 1real ==> 1real < k,
        1real < e ==> k < 1real,
{
}

proof fn lemma_below_grey(m: real, t: real)
    by (nonlinear_arith)
    requires
        0real < m,
        0real < t,
    ensures
        m < t ==> m / t < 1real,
        t < m ==> 1real < m / t,
{
    assert((m / t) * t == m);
}

proof fn lemma_map_inside<A: Arithmetic>(ar: &A, len: u32, side: u32, map: Seq<usize>)
    requires
        is_meter_map(ar, len, side, map),
        0 < len <= side,
    ensures
        forall|i: int| 0 <= i < map.len() ==> #[trigger] map[i] < len,
{
    if side > METER_SIZE {
        let (scale, n) = choose|scale: Double, n: i64|
            {
                &&& is_double(ar, meter_scale(side), scale)
                &&& #[trigger] rounds_to(
                    ar,
                    Rounding::Nearest,
                    times(Formula::Whole(len as u64), double(scale)),
                    n,
                )
                &&& map.len() == (if n < 0 || len == 0 {
                    0
                } else if n > METER_SIZE {
                    METER_SIZE as int
                } else {
                    n as int
                })
                &&& forall|i: int|
                    0 <= i < map.len() ==> is_nearest(ar, i, scale, len, #[trigger] map[i])
            };
        assert forall|i: int| 0 <= i < map.len() implies #[trigger] map[i] < len by {
            assert(is_nearest(ar, i, scale, len, map[i]));
        }
    }
}

/// A picture of one grey comes out of metering as 0.184 of a luminance,
/// whatever its brightness was, and whatever the colour space.
pub proof fn lemma_grey_is_metered<T: Sample, A: Arithmetic>(
    ar: &A,
    g: Functions,
    image: ImageBuf<T>,
    grey: real,
    space: ColorSpace,
    r: ImageBuf<T>,
    i: int,
)
    requires
        lossless(ar, g),
        has_stops(g),
        image.valid(),
        image.width > 0,
        image.height > 0,
        finite_image(image),
        0real < grey,
        forall|k: int| 0 <= k < image.data@.len() ==> value_of(#[trigger] image.data@[k]) == grey,
        is_metered(ar, image, true, space, r),
        forall|m: [[Single; 3]; 3]| #[trigger]
            short_decoded(short_to_xyz_bits(space), m) ==> finite_row(m@[1]) && 0real
                < row_total(m@[1]),
        forall|map: Seq<usize>| #[trigger]
            is_meter_map(ar, image.width, longer(image.width, image.height), map) ==> 0
                < map.len(),
        forall|map: Seq<usize>| #[trigger]
            is_meter_map(ar, image.height, longer(image.width, image.height), map) ==> 0
                < map.len(),
        0 <= i < image.data@.len(),
    ensures
        number_finite(r.data@[i].number()),
        exists|m: [[Single; 3]; 3]| #[trigger]
            short_decoded(short_to_xyz_bits(space), m) && 184real / 1000real <= value_of(
                r.data@[i],
            ) * row_total(m@[1]) <= 1840000004real / 10000000000real,
{
    let (m, ev) = choose|m: [[Single; 3]; 3], ev: Single|
        {
            &&& #[trigger] short_decoded(short_to_xyz_bits(space), m)
            &&& #[trigger] is_autoexposure(ar, image, m@[1], ev)
            &&& is_scaled(ar, image, ev_factor::<T>(ev), r)
        };
    let y_row = m@[1];
    let side = longer(image.width, image.height);
    let level = grey * row_total(y_row);
    lemma_positive_product(grey, row_total(y_row));
    assert forall|ix: Seq<usize>, iy: Seq<usize>|
        is_meter_map(ar, image.width, side, ix) && is_meter_map(
            ar,
            image.height,
            side,
            iy,
        ) implies 0 < ix.len() && 0 < iy.len() && #[trigger] mean_light(g, image, y_row, ix, iy)
        == level by {
        lemma_map_inside(ar, image.width, side, ix);
        lemma_map_inside(ar, image.height, side, iy);
        assert forall|x: int, y: int|
            0 <= x < ix.len() && 0 <= y < iy.len() implies pixel_luminance(
            image,
            y_row,
            #[trigger] source_index(image.width, ix, iy, x, y),
        ) == level by {
            lemma_inside(image, ix, iy, x, y);
            lemma_row_total(y_row, grey);
        }
        lemma_meter_is_a_mean(g, image, y_row, ix, iy, level, level);
    }
    let maps = lemma_metering_meets_target(ar, g, image, y_row, ev, r);
    let k = (g.power)(2real, single_value(ev));
    assert(mean_light(g, image, y_row, maps.0, maps.1) == level);
    lemma_scaled(ar, g, image, ev, r, i);
    lemma_grouped(k, grey, row_total(y_row));
}

/// The shares of the three channels in the luminance, added up.
pub open spec fn row_total(row: [Single; 3]) -> real {
    single_value(row@[0]) + single_value(row@[1]) + single_value(row@[2])
}

proof fn lemma_row_total(row: [Single; 3], v: real)
    ensures
        single_value(row@[0]) * v + single_value(row@[1]) * v + single_value(row@[2]) * v == v
            * row_total(row),
{
    lemma_commutes(single_value(row@[0]), v);
    lemma_commutes(single_value(row@[1]), v);
    lemma_commutes(single_value(row@[2]), v);
    lemma_factor_out(v, single_value(row@[0]), single_value(row@[1]));
    lemma_factor_out(v, single_value(row@[0]) + single_value(row@[1]), single_value(row@[2]));
}

proof fn lemma_positive_product(a: real, b: real)
    by (nonlinear_arith)
    requires
        0real < a,
        0real < b,
    ensures
        0real < a * b,
{
}

proof fn lemma_ratio_back(m: real, t: real)
    by (nonlinear_arith)
    requires
        0real < m,
        0real < t,
    ensures
        (m / t) * t == m,
        0real < m / t,
{
}

proof fn lemma_between(low: real, v: real, high: real, w: real)
    by (nonlinear_arith)
    requires
        low <= v <= high,
        0real < w,
    ensures
        low * w <= v * w <= high * w,
{
}

proof fn lemma_ratio_between(low: real, l: real, high: real, w: real)
    by (nonlinear_arith)
    requires
        low * w <= l <= high * w,
        0real < w,
    ensures
        low <= l / w <= high,
{
    assert((l / w) * w == l);
}

} // verus!
