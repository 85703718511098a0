//! What the last steps do to a picture: levels, sharpening, glare and light
//! that strays in the film.

use vstd::arithmetic::power2::{lemma2_to64, lemma2_to64_rest};
use vstd::prelude::*;

use crate::arith::{below, constant, double, evaluates, is_double, is_single, minus, over, plus};
use crate::arith::{single, sum_from, times, unary, Arithmetic, Sample, Unary};
use crate::bits::{Double, Single};
use crate::coupler_laws::finite_wide;
use crate::couplers::{mixture, Couplings};
use crate::density_curves::ONE;
use crate::diffusion::{are_shares, bounce_sum, is_bounced, is_mix, is_renormalized, sharpened};
use crate::diffusion::{pixel_width, total_of};
use crate::exact::{double_value, exact, finite_leaves, lemma_factor_out, lemma_one_values};
use crate::exact::{lemma_small_numbers, lemma_zero_values, single_value, Functions};
use crate::gamma::{number_finite, value_of};
use crate::gaussian::fixed;
use crate::glare::{glared, is_glared, log_mean, log_variance, log_width, relative_mean};
use crate::glare::{relative_variance, relative_width};
use crate::grain_laws::finite_samples;
use crate::image::ImageBuf;
use crate::interp::num;
use crate::lossless::{lemma_lossless, lemma_lossless_double, lemma_lossless_single};
use crate::lossless::{lemma_sum_leaves, lossless};
use crate::meter_laws::{finite_image, lemma_grouped};
use crate::params::HalationParams;
use crate::pchip::HALF;
use crate::print_laws::lemma_constants;
use crate::rounding::lemma_order;
use crate::scanning::{are_sharpened, brightest, darkest, is_leveled, is_rescaled, is_target};
use crate::scanning::{leveled, smallest_range};
use crate::spectral_service::{is_midgray_factor, midgray_sum, SMALLEST_SUM};

verus! {

// ── Sharpening ───────────────────────────────────────────────────────────

/// Sharpening drives numbers away from their blur: without rounding, the
/// distance grows by the amount, so that an even part stays as it is.
pub proof fn lemma_sharpening<T: Sample, A: Arithmetic>(
    ar: &A,
    g: Functions,
    xs: Seq<T>,
    b: Seq<T>,
    amount: Single,
    r: Seq<T>,
    i: int,
)
    requires
        lossless(ar, g),
        finite_samples(xs),
        finite_samples(b),
        amount.finite(),
        xs.len() == b.len(),
        are_sharpened(ar, xs, b, amount, r),
        0 <= i < xs.len(),
    ensures
        number_finite(r[i].number()),
        value_of(r[i]) - value_of(b[i]) == (1real + single_value(amount)) * (value_of(xs[i])
            - value_of(b[i])),
{
    let f = sharpened(xs[i], b[i], amount);
    assert(evaluates(ar, f, r[i].number()));
    xs[i].lemma_forms(g, single(amount));
    assert(number_finite(b[i].number()));
    reveal_with_fuel(finite_leaves, 4);
    reveal_with_fuel(exact, 4);
    lemma_lossless(ar, g, f, r[i].number());
    let (a, d) = (single_value(amount), value_of(xs[i]) - value_of(b[i]));
    assert(d + a * d == (1real + a) * d) by (nonlinear_arith);
}

// ── Levels ───────────────────────────────────────────────────────────────

/// The correction of black and white is a stretch: without rounding, the lowest
/// number comes to the bottom, a number one range above it to the top, and
/// those between keep their shares.
pub proof fn lemma_levels<T: Sample, A: Arithmetic>(
    ar: &A,
    g: Functions,
    img: ImageBuf<T>,
    low: T,
    range: T,
    bottom: T,
    top: T,
    r: ImageBuf<T>,
    i: int,
)
    requires
        lossless(ar, g),
        finite_image(img),
        number_finite(low.number()) && number_finite(range.number()),
        number_finite(bottom.number()) && number_finite(top.number()),
        0real < value_of(range),
        below(smallest_range(), range),
        is_rescaled(ar, img, low, range, bottom, top, r),
        0 <= i < img.data@.len(),
    ensures
        number_finite(r.data@[i].number()),
        (value_of(r.data@[i]) - value_of(bottom)) * value_of(range) == (value_of(img.data@[i])
            - value_of(low)) * (value_of(top) - value_of(bottom)),
        value_of(img.data@[i]) == value_of(low) ==> value_of(r.data@[i]) == value_of(bottom),
        value_of(img.data@[i]) == value_of(low) + value_of(range) ==> value_of(r.data@[i])
            == value_of(top),
{
    let x = img.data@[i];
    let f = leveled(x, low, range, bottom, top);
    assert(evaluates(ar, f, r.data@[i].number()));
    reveal_with_fuel(finite_leaves, 5);
    reveal_with_fuel(exact, 5);
    lemma_lossless(ar, g, f, r.data@[i].number());
    let (d, s, w) = (
        value_of(x) - value_of(low),
        value_of(top) - value_of(bottom),
        value_of(range),
    );
    let t = value_of(r.data@[i]) - value_of(bottom);
    assert(t == d * (s / w));
    lemma_level_share(d, s, w, t);
}

proof fn lemma_level_share(d: real, s: real, w: real, t: real)
    by (nonlinear_arith)
    requires
        0real < w,
        t == d * (s / w),
    ensures
        t * w == d * s,
        d == 0real ==> t == 0real,
        d == w ==> t == s,
{
    let q = s / w;
    assert(q * w == s);
}

/// The darkest number of a picture comes to the black level and the brightest
/// to the white level, each where its correction is asked for; where it is not,
/// it stays.
pub proof fn lemma_level_ends<T: Sample, A: Arithmetic>(
    ar: &A,
    g: Functions,
    img: ImageBuf<T>,
    levels: (Single, Single),
    on: (bool, bool),
    r: ImageBuf<T>,
    i: int,
)
    requires
        lossless(ar, g),
        finite_image(img),
        levels.0.finite() && levels.1.finite(),
        number_finite(darkest(img.data@).number()),
        number_finite(brightest(img.data@).number()),
        number_finite(smallest_range::<T>().number()),
        0real <= value_of(smallest_range::<T>()),
        value_of(smallest_range::<T>()) < value_of(brightest(img.data@)) - value_of(
            darkest(img.data@),
        ),
        is_leveled(ar, img, levels.0, levels.1, on.0, on.1, r),
        0 <= i < img.data@.len(),
    ensures
        value_of(img.data@[i]) == value_of(darkest(img.data@)) ==> value_of(r.data@[i]) == (
        if on.1 {
            single_value(levels.1)
        } else {
            value_of(img.data@[i])
        }),
        value_of(img.data@[i]) == value_of(brightest(img.data@)) ==> value_of(r.data@[i]) == (
        if on.0 {
            single_value(levels.0)
        } else {
            value_of(img.data@[i])
        }),
{
    let (low, high) = (darkest(img.data@), brightest(img.data@));
    let (bottom, top, range) = choose|bottom: T, top: T, range: T|
        {
            &&& #[trigger] is_target(ar, on.1, levels.1, low, bottom)
            &&& #[trigger] is_target(ar, on.0, levels.0, high, top)
            &&& evaluates(ar, minus(num(high), num(low)), range.number())
            &&& #[trigger] is_rescaled(ar, img, low, range, bottom, top, r)
        };
    reveal_with_fuel(exact, 2);
    reveal_with_fuel(finite_leaves, 2);
    lemma_lossless(ar, g, minus(num(high), num(low)), range.number());
    lemma_target(ar, g, on.1, levels.1, low, bottom);
    lemma_target(ar, g, on.0, levels.0, high, top);
    smallest_range::<T>().lemma_places(range);
    range.lemma_places(range);
    lemma_levels(ar, g, img, low, range, bottom, top, r, i);
}

proof fn lemma_target<T: Sample, A: Arithmetic>(
    ar: &A,
    g: Functions,
    corrected: bool,
    level: Single,
    found: T,
    r: T,
)
    requires
        lossless(ar, g),
        level.finite(),
        number_finite(found.number()),
        is_target(ar, corrected, level, found, r),
    ensures
        number_finite(r.number()),
        corrected ==> value_of(r) == single_value(level),
        !corrected ==> r == found,
{
    if corrected {
        let f = single(level);
        found.lemma_forms(g, f);
        lemma_lossless(ar, g, T::extended(f), r.number());
    }
}

// ── Glare ────────────────────────────────────────────────────────────────

/// Glare adds light of one colour: without rounding, a black pixel becomes its
/// share of that colour, and what lies between two pictures stays.
pub proof fn lemma_glare_adds<T: Sample, A: Arithmetic>(
    ar: &A,
    g: Functions,
    images: (ImageBuf<T>, ImageBuf<T>),
    amount: Seq<T>,
    colour: [T; 3],
    r: (ImageBuf<T>, ImageBuf<T>),
    i: int,
)
    requires
        lossless(ar, g),
        finite_image(images.0),
        finite_image(images.1),
        images.0.data@.len() == images.1.data@.len(),
        finite_samples(amount),
        3 * amount.len() >= images.0.data@.len(),
        number_finite(colour@[0].number()),
        number_finite(colour@[1].number()),
        number_finite(colour@[2].number()),
        is_glared(ar, images.0, amount, colour, r.0),
        is_glared(ar, images.1, amount, colour, r.1),
        0 <= i < images.0.data@.len(),
    ensures
        value_of(r.0.data@[i]) - value_of(r.1.data@[i]) == value_of(images.0.data@[i]) - value_of(
            images.1.data@[i],
        ),
        value_of(images.0.data@[i]) == 0real ==> value_of(r.0.data@[i]) == value_of(amount[i / 3])
            * value_of(colour@[i % 3]),
{
    assert(number_finite(amount[i / 3].number()));
    assert(number_finite(images.0.data@[i].number()));
    assert(number_finite(images.1.data@[i].number()));
    let c = colour@[i % 3];
    assert(number_finite(c.number()));
    let f = glared(images.0.data@[i], amount[i / 3], c);
    let h = glared(images.1.data@[i], amount[i / 3], c);
    assert(evaluates(ar, f, r.0.data@[i].number()));
    assert(evaluates(ar, h, r.1.data@[i].number()));
    reveal_with_fuel(finite_leaves, 3);
    reveal_with_fuel(exact, 3);
    lemma_lossless(ar, g, f, r.0.data@[i].number());
    lemma_lossless(ar, g, h, r.1.data@[i].number());
}

/// The exponential function undoes the natural logarithm, and squares undo
/// roots.
pub open spec fn has_ln(g: Functions) -> bool {
    &&& forall|x: real| 0real < x ==> (g.unary)(Unary::Exp, #[trigger] (g.unary)(Unary::Ln, x)) == x
    &&& forall|x: real| 1real <= x ==> 0real <= #[trigger] (g.unary)(Unary::Ln, x)
    &&& forall|x: real|
        0real <= x ==> {
            let v = #[trigger] (g.unary)(Unary::SquareRoot, x);
            v * v == x
        }
}

/// The glare is drawn as it is asked for: without rounding, a number whose
/// logarithm has the mean and the width that are computed has the mean `percent`,
/// and `roughness` times as much for its width.
pub proof fn lemma_glare_distribution(g: Functions, percent: Single, roughness: Single)
    requires
        has_ln(g),
        0real < single_value(percent),
    ensures
        ({
            let (m, s) = (
                exact(g, log_mean(percent, roughness)),
                exact(g, log_width(percent, roughness)),
            );
            let (p, q) = (single_value(percent), single_value(roughness) * single_value(percent));
            &&& (g.unary)(Unary::Exp, m + (s * s) / 2real) == p
            &&& ((g.unary)(Unary::Exp, s * s) - 1real) * (p * p) == q * q
        }),
{
    lemma_small_numbers();
    reveal_with_fuel(exact, 8);
    let (p, q) = (single_value(percent), single_value(roughness) * single_value(percent));
    let t = (q * q) / (p * p);
    assert(0real < p * p && 0real <= q * q) by (nonlinear_arith)
        requires
            0real < p,
    ;
    let (a, b) = (q * q, p * p);
    assert(0real <= a / b && (a / b) * b == a) by (nonlinear_arith)
        requires
            0real <= a,
            0real < b,
    {
        assert((a / b) * b == a);
    }
    let v = (g.unary)(Unary::Ln, 1real + t);
    assert(exact(g, log_variance(percent, roughness)) == v);
    let s = exact(g, log_width(percent, roughness));
    assert(s == (g.unary)(Unary::SquareRoot, v));
    assert(s * s == v);
    assert(exact(g, log_mean(percent, roughness)) == (g.unary)(Unary::Ln, p) - v / 2real);
    assert((g.unary)(Unary::Exp, v) == 1real + t);
}

/// The glare that the device draws is the same: without rounding, the mean and
/// the width of its logarithm are the ones that are computed here, where the
/// logarithm of one plus a number is what it says.
pub proof fn lemma_same_glare(g: Functions, percent: Single, roughness: Single)
    requires
        0real < single_value(percent),
        forall|x: real| #[trigger]
            (g.unary)(Unary::LnOnePlus, x) == (g.unary)(Unary::Ln, 1real + x),
    ensures
        exact(g, relative_mean(percent, roughness)) == exact(g, log_mean(percent, roughness)),
        exact(g, relative_width(percent, roughness)) == exact(g, log_width(percent, roughness)),
{
    lemma_small_numbers();
    lemma_half();
    reveal_with_fuel(exact, 8);
    let (p, q) = (single_value(percent), single_value(roughness) * single_value(percent));
    reveal_with_fuel(crate::exact::whole_power_of, 3);
    let t = q / p;
    assert(t * p == q) by (nonlinear_arith)
        requires
            t == q / p,
            0real < p,
    ;
    assert((t * t) * (p * p) == (t * p) * (t * p)) by (nonlinear_arith);
    assert(0real < p * p) by (nonlinear_arith)
        requires
            0real < p,
    ;
    let (a, b) = (q * q, p * p);
    assert(t * t == a / b) by (nonlinear_arith)
        requires
            (t * t) * b == a,
            0real < b,
    {
        assert((a / b) * b == a);
    }
    assert(t * 1real == t) by (nonlinear_arith);
    let v = (g.unary)(Unary::Ln, 1real + a / b);
    assert(exact(g, relative_variance(percent, roughness)) == v);
    assert(exact(g, log_variance(percent, roughness)) == v);
}

proof fn lemma_half()
    ensures
        double_value(Double { bits: HALF }) == 1real / 2real,
{
    lemma2_to64();
    lemma2_to64_rest();
    assert(double_value(Double { bits: HALF }) == (0x10_0000_0000_0000int as real) / (
    0x20_0000_0000_0000int as real));
}

// ── Mixtures ─────────────────────────────────────────────────────────────

/// A mixture lies `weight` of the way from the one to the other: without
/// rounding, nothing of the weight is the one, all of it is the other, and two
/// that are alike stay.
pub proof fn lemma_mix<T: Sample, A: Arithmetic>(
    ar: &A,
    g: Functions,
    weight: Double,
    a: Seq<T>,
    b: Seq<T>,
    r: Seq<T>,
    i: int,
)
    requires
        lossless(ar, g),
        weight.finite(),
        finite_samples(a),
        finite_samples(b),
        a.len() == b.len(),
        is_mix(ar, weight, a, b, r),
        0 <= i < a.len(),
    ensures
        number_finite(r[i].number()),
        value_of(r[i]) - value_of(a[i]) == double_value(weight) * (value_of(b[i]) - value_of(
            a[i],
        )),
{
    let f = mixture(weight, a[i], b[i]);
    assert(evaluates(ar, f, r[i].number()));
    assert(number_finite(a[i].number()) && number_finite(b[i].number()));
    lemma_one_values();
    let one = crate::couplers::constant_one();
    a[i].lemma_forms(g, one);
    a[i].lemma_forms(g, double(weight));
    T::lemma_stored(g, one);
    T::lemma_stored(g, double(weight));
    reveal_with_fuel(finite_leaves, 4);
    reveal_with_fuel(exact, 4);
    lemma_lossless(ar, g, f, r[i].number());
    let (w, x, y) = (double_value(weight), value_of(a[i]), value_of(b[i]));
    assert((1real - w) * x + w * y == x + w * (y - x)) by (nonlinear_arith);
}

// ── Halation ─────────────────────────────────────────────────────────────

/// The shares of the bounces, added up.
pub open spec fn shares_total(d: Seq<Double>, n: int) -> real
    decreases n,
{
    if n <= 0 {
        0real
    } else {
        shares_total(d, n - 1) + double_value(d[n - 1])
    }
}

/// The bounces take shares that add up to all of the light that strays, and
/// each share is the decay times the one before.
pub proof fn lemma_shares_add_up<A: Arithmetic>(
    ar: &A,
    g: Functions,
    p: HalationParams,
    d: Seq<Double>,
)
    requires
        lossless(ar, g),
        p.halation_n_bounces > 0,
        p.halation_bounce_decay.finite(),
        0real <= double_value(p.halation_bounce_decay),
        are_shares(ar, p, d),
    ensures
        d.len() == p.halation_n_bounces,
        shares_total(d, d.len() as int) == 1real,
        forall|k: int|
            0 <= k < d.len() - 1 ==> double_value(d[k + 1]) == double_value(
                p.halation_bounce_decay,
            ) * double_value(#[trigger] d[k]),
        forall|k: int| 0 <= k < d.len() ==> (#[trigger] d[k]).finite() && 0real <= double_value(d[k]),
{
    let (powers, whole) = choose|powers: Seq<Double>, whole: Double|
        {
            &&& powers.len() == p.halation_n_bounces
            &&& forall|k: int|
                0 <= k < powers.len() ==> is_double(
                    ar,
                    crate::arith::whole_power(double(p.halation_bounce_decay), k as u32),
                    #[trigger] powers[k],
                )
            &&& #[trigger] is_double(ar, total_of(powers), whole)
            &&& d.len() == powers.len()
            &&& forall|k: int|
                0 <= k < powers.len() ==> is_double(
                    ar,
                    over(double(powers[k]), double(whole)),
                    #[trigger] d[k],
                )
        };
    let n = powers.len() as int;
    let decay = double_value(p.halation_bounce_decay);
    assert forall|k: int| 0 <= k < n implies (#[trigger] powers[k]).finite() && double_value(
        powers[k],
    ) == crate::exact::whole_power_of(decay, k as nat) && 0real <= double_value(powers[k]) by {
        let f = crate::arith::whole_power(double(p.halation_bounce_decay), k as u32);
        assert(is_double(ar, f, powers[k]));
        reveal_with_fuel(finite_leaves, 2);
        reveal_with_fuel(exact, 2);
        lemma_lossless_double(ar, g, f, powers[k]);
        lemma_power_not_negative(decay, k as nat);
    }
    let terms = |k: int| double(powers[k]);
    lemma_zero_values();
    assert forall|k: int| 0 <= k < n implies finite_leaves(#[trigger] terms(k)) by {
        assert(powers[k].finite());
    }
    lemma_sum_leaves(constant(0), terms, n);
    lemma_lossless_double(ar, g, total_of(powers), whole);
    lemma_total_of(g, powers, n);
    assert(powers[0].finite());
    assert(double_value(powers[0]) == 1real);
    lemma_total_positive(powers, n);
    let w = double_value(whole);
    assert forall|k: int| 0 <= k < n implies (#[trigger] d[k]).finite() && double_value(d[k]) * w
        == double_value(powers[k]) && 0real <= double_value(d[k]) by {
        assert(powers[k].finite());
        let f = over(double(powers[k]), double(whole));
        assert(is_double(ar, f, d[k]));
        reveal_with_fuel(finite_leaves, 2);
        reveal_with_fuel(exact, 2);
        lemma_lossless_double(ar, g, f, d[k]);
        let x = double_value(powers[k]);
        assert((x / w) * w == x && 0real <= x / w) by (nonlinear_arith)
            requires
                0real < w,
                0real <= x,
        {
            assert((x / w) * w == x);
        }
    }
    lemma_shares_scaled(d, powers, w, n);
    let t = shares_total(d, n);
    assert(t == 1real) by (nonlinear_arith)
        requires
            t * w == w,
            0real < w,
    ;
    assert forall|k: int| 0 <= k < n - 1 implies double_value(d[k + 1]) == decay * double_value(
        #[trigger] d[k],
    ) by {
        assert(d[k].finite() && d[k + 1].finite());
        assert(powers[k].finite() && powers[k + 1].finite());
        let (x, y) = (double_value(d[k]), double_value(d[k + 1]));
        assert(y * w == decay * (x * w));
        lemma_grouped(decay, x, w);
        assert(y == decay * x) by (nonlinear_arith)
            requires
                y * w == (decay * x) * w,
                0real < w,
        ;
    }
}

proof fn lemma_power_not_negative(x: real, n: nat)
    requires
        0real <= x,
    ensures
        0real <= crate::exact::whole_power_of(x, n),
    decreases n,
{
    if n > 0 {
        lemma_power_not_negative(x, (n - 1) as nat);
        let y = crate::exact::whole_power_of(x, (n - 1) as nat);
        assert(0real <= x * y) by (nonlinear_arith)
            requires
                0real <= x,
                0real <= y,
        ;
    }
}

proof fn lemma_total_of(g: Functions, xs: Seq<Double>, n: int)
    requires
        0 <= n <= xs.len(),
    ensures
        exact(g, sum_from(constant(0), |k: int| double(xs[k]), n)) == shares_total(xs, n),
    decreases n,
{
    lemma_zero_values();
    reveal_with_fuel(exact, 2);
    if n > 0 {
        lemma_total_of(g, xs, n - 1);
    }
}

proof fn lemma_total_positive(xs: Seq<Double>, n: int)
    requires
        0 < n <= xs.len(),
        double_value(xs[0]) == 1real,
        forall|k: int| 0 <= k < n ==> 0real <= double_value(#[trigger] xs[k]),
    ensures
        1real <= shares_total(xs, n),
    decreases n,
{
    if n > 1 {
        lemma_total_positive(xs, n - 1);
        assert(0real <= double_value(xs[n - 1]));
    } else {
        reveal_with_fuel(shares_total, 2);
    }
}

proof fn lemma_shares_scaled(d: Seq<Double>, xs: Seq<Double>, w: real, n: int)
    requires
        0 <= n <= d.len(),
        n <= xs.len(),
        forall|k: int| 0 <= k < n ==> double_value(#[trigger] d[k]) * w == double_value(xs[k]),
    ensures
        shares_total(d, n) * w == shares_total(xs, n),
    decreases n,
{
    if n > 0 {
        lemma_shares_scaled(d, xs, w, n - 1);
        let (a, b) = (shares_total(d, n - 1), double_value(d[n - 1]));
        assert(b * w == double_value(xs[n - 1]));
        assert((a + b) * w == a * w + b * w) by (nonlinear_arith);
    } else {
        assert(0real * w == 0real) by (nonlinear_arith);
    }
}

/// Halation keeps an even part even: without rounding, where all bounces have
/// the light of the pixel itself, and their shares add up to one, the light is
/// that of the pixel times one plus the strength, and renormalised it is the
/// light of the pixel.
pub proof fn lemma_even_halation<T: Sample, A: Arithmetic>(
    ar: &A,
    g: Functions,
    strength: Double,
    d: Seq<Double>,
    b: Seq<Seq<T>>,
    plane: Seq<T>,
    bright: Seq<T>,
    r: Seq<T>,
    i: int,
)
    requires
        lossless(ar, g),
        strength.finite(),
        0real <= double_value(strength),
        shares_total(d, d.len() as int) == 1real,
        forall|k: int| 0 <= k < d.len() ==> (#[trigger] d[k]).finite(),
        b.len() == d.len(),
        finite_samples(plane),
        0 <= i < plane.len(),
        forall|k: int|
            0 <= k < b.len() ==> number_finite((#[trigger] b[k])[i].number()) && value_of(b[k][i])
                == value_of(plane[i]),
        is_bounced(ar, strength, d, b, plane, bright),
        is_renormalized(ar, strength, bright, r),
    ensures
        value_of(bright[i]) == (1real + double_value(strength)) * value_of(plane[i]),
        value_of(r[i]) == value_of(plane[i]),
{
    let n = d.len() as int;
    let x = value_of(plane[i]);
    let a = double_value(strength);
    lemma_bounce_sum(g, d, b, i, n, x);
    let sum = bounce_sum(d, b, i, n);
    let f = plus(num(plane[i]), times(T::stored(double(strength)), sum));
    assert(evaluates(ar, f, bright[i].number()));
    plane[i].lemma_forms(g, double(strength));
    plane[i].lemma_forms(g, constant(ONE));
    T::lemma_stored(g, double(strength));
    T::lemma_stored(g, constant(ONE));
    lemma_one_values();
    assert(1real * x == x) by (nonlinear_arith);
    reveal_with_fuel(finite_leaves, 3);
    reveal_with_fuel(exact, 3);
    lemma_lossless(ar, g, f, bright[i].number());
    assert(x + a * x == (1real + a) * x) by (nonlinear_arith);
    let h = over(num(bright[i]), plus(fixed::<T>(ONE), T::stored(double(strength))));
    assert(evaluates(ar, h, r[i].number()));
    lemma_lossless(ar, g, h, r[i].number());
    let k = 1real + a;
    assert((k * x) / k == x) by (nonlinear_arith)
        requires
            0real < k,
    {
        assert(((k * x) / k) * k == k * x);
    }
}

proof fn lemma_bounce_sum<T: Sample>(
    g: Functions,
    d: Seq<Double>,
    b: Seq<Seq<T>>,
    i: int,
    n: int,
    x: real,
)
    requires
        0 <= n <= d.len(),
        n <= b.len(),
        forall|k: int| 0 <= k < n ==> (#[trigger] d[k]).finite(),
        forall|k: int|
            0 <= k < n ==> number_finite((#[trigger] b[k])[i].number()) && value_of(b[k][i]) == x,
    ensures
        finite_leaves(bounce_sum(d, b, i, n)),
        exact(g, bounce_sum(d, b, i, n)) == shares_total(d, n) * x,
    decreases n,
{
    T::lemma_zero();
    reveal_with_fuel(finite_leaves, 3);
    reveal_with_fuel(exact, 3);
    if n > 0 {
        lemma_bounce_sum(g, d, b, i, n - 1, x);
        assert(d[n - 1].finite());
        assert(number_finite(b[n - 1][i].number()));
        b[n - 1][i].lemma_forms(g, double(d[n - 1]));
        T::lemma_stored(g, double(d[n - 1]));
        let (s, w) = (shares_total(d, n - 1), double_value(d[n - 1]));
        assert((s + w) * x == s * x + w * x) by (nonlinear_arith);
        let term = times(T::stored(double(d[n - 1])), num(b[n - 1][i]));
        assert(bounce_sum(d, b, i, n) == plus(bounce_sum(d, b, i, n - 1), term));
    } else {
        assert(0real * x == 0real) by (nonlinear_arith);
    }
}

// ── The couplers matrix ──────────────────────────────────────────────────

/// The matrix has a row for each donor and a column for each receiver: without
/// rounding, a layer acts on itself by its own gamma and the inhibition within
/// layers, and on the two others by the gammas towards them, in the order red,
/// green and blue, and the inhibition between layers.
pub proof fn lemma_couplers_matrix<A: Arithmetic>(
    ar: &A,
    g: Functions,
    k: Couplings,
    r: [[Double; 3]; 3],
)
    requires
        lossless(ar, g),
        k.inhibition_samelayer.finite() && k.inhibition_interlayer.finite(),
        forall|i: int| 0 <= i < 3 ==> (#[trigger] k.gamma_samelayer@[i]).finite(),
        forall|i: int| 0 <= i < 2 ==> (#[trigger] k.gamma_r_to_gb@[i]).finite(),
        forall|i: int| 0 <= i < 2 ==> (#[trigger] k.gamma_g_to_rb@[i]).finite(),
        forall|i: int| 0 <= i < 2 ==> (#[trigger] k.gamma_b_to_rg@[i]).finite(),
        forall|i: int, j: int|
            0 <= i < 3 && 0 <= j < 3 ==> is_double(ar, k.entry(i, j), #[trigger] r@[i]@[j]),
    ensures
        ({
            let (s, t) = (
                double_value(k.inhibition_samelayer),
                double_value(k.inhibition_interlayer),
            );
            let m = |i: int, j: int| double_value(r@[i]@[j]);
            &&& m(0, 0) == double_value(k.gamma_samelayer@[0]) * s
            &&& m(1, 1) == double_value(k.gamma_samelayer@[1]) * s
            &&& m(2, 2) == double_value(k.gamma_samelayer@[2]) * s
            &&& m(0, 1) == double_value(k.gamma_r_to_gb@[0]) * t
            &&& m(0, 2) == double_value(k.gamma_r_to_gb@[1]) * t
            &&& m(1, 0) == double_value(k.gamma_g_to_rb@[0]) * t
            &&& m(1, 2) == double_value(k.gamma_g_to_rb@[1]) * t
            &&& m(2, 0) == double_value(k.gamma_b_to_rg@[0]) * t
            &&& m(2, 1) == double_value(k.gamma_b_to_rg@[1]) * t
        }),
        finite_wide(r),
{
    assert forall|i: int, j: int| 0 <= i < 3 && 0 <= j < 3 implies (
    #[trigger] r@[i]@[j]).finite() && double_value(r@[i]@[j]) == exact(g, k.entry(i, j)) by {
        assert(is_double(ar, k.entry(i, j), r@[i]@[j]));
        assert(k.gamma_samelayer@[i].finite());
        assert(k.gamma_r_to_gb@[0].finite() && k.gamma_r_to_gb@[1].finite());
        assert(k.gamma_g_to_rb@[0].finite() && k.gamma_g_to_rb@[1].finite());
        assert(k.gamma_b_to_rg@[0].finite() && k.gamma_b_to_rg@[1].finite());
        reveal_with_fuel(finite_leaves, 2);
        lemma_lossless_double(ar, g, k.entry(i, j), r@[i]@[j]);
    }
    reveal_with_fuel(exact, 2);
    assert(r@[0]@[0].finite() && r@[0]@[1].finite() && r@[0]@[2].finite());
    assert(r@[1]@[0].finite() && r@[1]@[1].finite() && r@[1]@[2].finite());
    assert(r@[2]@[0].finite() && r@[2]@[1].finite() && r@[2]@[2].finite());
}

// ── The grey card ────────────────────────────────────────────────────────

/// What the green layer takes of a light.
pub open spec fn green_light(sensitivity: Seq<[Double; 3]>, light: Seq<Single>, n: int) -> real
    decreases n,
{
    if n <= 0 {
        0real
    } else {
        green_light(sensitivity, light, n - 1) + single_value(light[n - 1]) * double_value(
            sensitivity[n - 1]@[1],
        )
    }
}

/// A grey card exposes the green layer at one: without rounding, the factor
/// times what the card reflects of the light that the layer takes is one.
pub proof fn lemma_card_exposes_at_one<A: Arithmetic>(
    ar: &A,
    g: Functions,
    sensitivity: Seq<[Double; 3]>,
    light: Seq<Single>,
    r: Double,
)
    requires
        lossless(ar, g),
        sensitivity.len() == light.len(),
        forall|i: int| 0 <= i < light.len() ==> (#[trigger] light[i]).finite(),
        forall|i: int| 0 <= i < light.len() ==> (#[trigger] sensitivity[i])@[1].finite(),
        double_value(Double { bits: SMALLEST_SUM }) < double_value(
            Double { bits: 0x3fc7_8d4f_df3b_645a },
        ) * green_light(sensitivity, light, light.len() as int),
        is_midgray_factor(ar, sensitivity, light, r),
    ensures
        double_value(r) * (double_value(Double { bits: 0x3fc7_8d4f_df3b_645a }) * green_light(
            sensitivity,
            light,
            light.len() as int,
        )) == 1real,
{
    let n = light.len() as int;
    let grey = double_value(Double { bits: 0x3fc7_8d4f_df3b_645a });
    let green = choose|green: Double| #[trigger]
        is_double(ar, midgray_sum(sensitivity, light, 1, n), green) && if (Double {
            bits: SMALLEST_SUM,
        }).below(green) {
            is_double(ar, over(constant(ONE), double(green)), r)
        } else {
            r.bits == ONE
        };
    lemma_green_sum(g, sensitivity, light, n);
    lemma_lossless_double(ar, g, midgray_sum(sensitivity, light, 1, n), green);
    lemma_one_values();
    lemma_constants();
    lemma_order(Double { bits: SMALLEST_SUM }, green);
    let v = grey * green_light(sensitivity, light, n);
    reveal_with_fuel(exact, 2);
    reveal_with_fuel(finite_leaves, 2);
    lemma_lossless_double(ar, g, over(constant(ONE), double(green)), r);
    let q = double_value(r);
    assert(q * v == 1real) by (nonlinear_arith)
        requires
            q == 1real / v,
            0real < v,
    ;
}

proof fn lemma_green_sum(g: Functions, sensitivity: Seq<[Double; 3]>, light: Seq<Single>, n: int)
    requires
        n <= light.len() == sensitivity.len(),
        forall|i: int| 0 <= i < light.len() ==> (#[trigger] light[i]).finite(),
        forall|i: int| 0 <= i < light.len() ==> (#[trigger] sensitivity[i])@[1].finite(),
    ensures
        finite_leaves(midgray_sum(sensitivity, light, 1, n)),
        exact(g, midgray_sum(sensitivity, light, 1, n)) == double_value(
            Double { bits: 0x3fc7_8d4f_df3b_645a },
        ) * green_light(sensitivity, light, n),
    decreases n,
{
    lemma_zero_values();
    let grey = double_value(Double { bits: 0x3fc7_8d4f_df3b_645a });
    reveal_with_fuel(exact, 5);
    reveal_with_fuel(finite_leaves, 5);
    if n > 0 {
        lemma_green_sum(g, sensitivity, light, n - 1);
        assert(light[n - 1].finite() && sensitivity[n - 1]@[1].finite());
        let (a, b) = (single_value(light[n - 1]), double_value(sensitivity[n - 1]@[1]));
        assert((a * grey) * b == grey * (a * b)) by (nonlinear_arith);
        lemma_factor_out(grey, green_light(sensitivity, light, n - 1), a * b);
    } else {
        assert(grey * 0real == 0real) by (nonlinear_arith);
    }
}

// ── Widths ───────────────────────────────────────────────────────────────

/// A blur is as wide on the film as it is asked for: without rounding, its
/// width in pixels times the size of a pixel is the width in micrometres.
pub proof fn lemma_width_on_film<A: Arithmetic>(
    ar: &A,
    g: Functions,
    um: Single,
    pixel_um: Single,
    r: Single,
)
    requires
        lossless(ar, g),
        um.finite() && pixel_um.finite(),
        0real < single_value(pixel_um),
        is_single(ar, pixel_width(um, pixel_um), r),
    ensures
        single_value(r) * single_value(pixel_um) == single_value(um),
{
    reveal_with_fuel(exact, 2);
    reveal_with_fuel(finite_leaves, 2);
    lemma_lossless_single(ar, g, pixel_width(um, pixel_um), r);
    let (a, b, q) = (single_value(um), single_value(pixel_um), single_value(r));
    assert(q * b == a) by (nonlinear_arith)
        requires
            q == a / b,
            0real < b,
    ;
}

} // verus!
