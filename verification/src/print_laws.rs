//! What printing does to light: dyes dim it, the exposure factor scales it,
//! and the calibrated factor brings a grey card to the exposure that was asked
//! for.

use vstd::arithmetic::power2::{lemma2_to64, lemma2_to64_rest, lemma_pow2_adds};
use vstd::prelude::*;

use crate::arith::{constant, double, is_double, larger, plus, power, single, times, widen};
use crate::arith::{Arithmetic, Formula, Sample, Unary};
use crate::bits::{Double, Single};
use crate::colorspace::leaves3;
use crate::cpu_backend::{common, densities, is_printed_light, print_holds, print_value, safe_log};
use crate::enlarger::{card_exposure, is_spectrum, midgray_factor};
use crate::exact::{double_value, exact, finite_leaves, lemma_factor_out, lemma_small_numbers};
use crate::exact::{single_value, Functions};
use crate::gamma::value_of;
use crate::image::ImageBuf;
use crate::lossless::{lemma_lossless, lemma_lossless_double, lossless};
use crate::meter_laws::{finite_image, lemma_grouped, lemma_swapped};
use crate::printing::{are_exposures, base_at, exposure_through, is_paper_exposure};
use crate::printing::{light_through, normalization, paper_exposure, spectral_density, PrintInputs};
use crate::printing::TEN;
use crate::spectral_service::SMALLEST_SUM;

verus! {

/// A power of ten.
pub open spec fn ten(g: Functions, x: real) -> real {
    (g.power)(10real, x)
}

/// The powers of ten of a sum.
pub open spec fn tens_add(g: Functions, x: real, y: real) -> bool {
    ten(g, x + y) == ten(g, x) * ten(g, y)
}

/// Larger numbers have larger powers of ten.
pub open spec fn tens_grow(g: Functions, x: real, y: real) -> bool {
    x <= y ==> ten(g, x) <= ten(g, y)
}

/// Powers of ten and logarithms to the base ten are those of real numbers, and
/// so are cube roots.
pub open spec fn has_tens(g: Functions) -> bool {
    &&& ten(g, 0real) == 1real
    &&& forall|x: real| 0real < #[trigger] ten(g, x)
    &&& forall|x: real, y: real| #[trigger] tens_add(g, x, y)
    &&& forall|x: real, y: real| #[trigger] tens_grow(g, x, y)
    &&& forall|x: real| 0real < x ==> ten(g, #[trigger] (g.unary)(Unary::Log10, x)) == x
    &&& forall|x: real|
        cubed(#[trigger] (g.unary)(Unary::CubeRoot, x)) == x
}

pub open spec fn cubed(x: real) -> real {
    x * x * x
}

/// The exposure behind a logarithm, which is taken of a little more.
pub open spec fn exposure_of(g: Functions, log: real) -> real {
    ten(g, log) - double_value(Double { bits: SMALLEST_SUM })
}

/// Rows of finite numbers.
pub open spec fn finite_rows(rows: Seq<[Double; 3]>) -> bool {
    forall|i: int, c: int|
        0 <= i < rows.len() && 0 <= c < 3 ==> (#[trigger] rows[i]@[c]).finite()
}

pub open spec fn finite_numbers(xs: Seq<Double>) -> bool {
    forall|i: int| 0 <= i < xs.len() ==> (#[trigger] xs[i]).finite()
}

/// Light and sensitivities that are not below zero.
pub open spec fn is_bright(light: Seq<Double>, sensitivity: Seq<[Double; 3]>) -> bool {
    &&& forall|i: int| 0 <= i < light.len() ==> 0real <= double_value(#[trigger] light[i])
    &&& forall|i: int, c: int|
        0 <= i < sensitivity.len() && 0 <= c < 3 ==> 0real <= double_value(
            #[trigger] sensitivity[i]@[c],
        )
}

/// The tables hold finite numbers.
pub open spec fn finite_tables(
    dyes: Seq<[Double; 3]>,
    base: Seq<Double>,
    light: Seq<Double>,
    sensitivity: Seq<[Double; 3]>,
) -> bool {
    finite_rows(dyes) && finite_numbers(base) && finite_numbers(light) && finite_rows(sensitivity)
}

pub proof fn lemma_constants()
    ensures
        double_value(Double { bits: TEN }) == 10real,
        0real < double_value(Double { bits: SMALLEST_SUM }) <= 1real / 1000000000real,
        (Double { bits: SMALLEST_SUM }).finite(),
        (Double { bits: TEN }).finite(),
{
    lemma2_to64();
    lemma2_to64_rest();
    lemma_pow2_adds(43, 43);
    assert(double_value(Double { bits: TEN }) == (0x14_0000_0000_0000int as real) / (
    0x2_0000_0000_0000int as real));
    assert(double_value(Double { bits: SMALLEST_SUM }) == (0x1b_7cdf_d9d7_bdbbint as real) / (
    0x40_0000_0000_0000_0000_0000int as real));
}

// ── Light through dyes ───────────────────────────────────────────────────

/// The density of a film at a wavelength.
pub open spec fn density_at(
    v: (real, real, real),
    dyes: Seq<[Double; 3]>,
    base: Seq<Double>,
    all: int,
    wl: int,
) -> real {
    let d = v.0 * double_value(dyes[wl]@[0]) + v.1 * double_value(dyes[wl]@[1]) + v.2
        * double_value(dyes[wl]@[2]);
    if base.len() > 0 && base.len() >= all {
        d + double_value(base[wl])
    } else {
        d
    }
}

/// The light that a channel sees through a film.
pub open spec fn seen(
    g: Functions,
    density: spec_fn(int) -> real,
    light: Seq<Double>,
    sensitivity: Seq<[Double; 3]>,
    c: int,
    n: int,
) -> real
    decreases n,
{
    if n <= 0 {
        0real
    } else {
        seen(g, density, light, sensitivity, c, n - 1) + ten(g, -density(n - 1)) * double_value(
            light[n - 1],
        ) * double_value(sensitivity[n - 1]@[c])
    }
}

/// The light that a channel sees through three densities.
pub open spec fn seen_through(
    g: Functions,
    v: (real, real, real),
    dyes: Seq<[Double; 3]>,
    base: Seq<Double>,
    light: Seq<Double>,
    sensitivity: Seq<[Double; 3]>,
    c: int,
) -> real {
    let n = common(dyes, light, sensitivity);
    seen(g, |wl: int| density_at(v, dyes, base, n, wl), light, sensitivity, c, n)
}

proof fn lemma_spectral_density(
    g: Functions,
    d: Seq<Formula>,
    row: [Double; 3],
    base: Option<Double>,
)
    requires
        finite_leaves(d[0]) && finite_leaves(d[1]) && finite_leaves(d[2]),
        row@[0].finite() && row@[1].finite() && row@[2].finite(),
        base matches Some(b) ==> b.finite(),
    ensures
        finite_leaves(spectral_density(d, row, base)),
        exact(g, spectral_density(d, row, base)) == exact(g, d[0]) * double_value(row@[0]) + exact(
            g,
            d[1],
        ) * double_value(row@[1]) + exact(g, d[2]) * double_value(row@[2]) + (match base {
            Some(b) => double_value(b),
            None => 0real,
        }),
{
    reveal_with_fuel(finite_leaves, 5);
    reveal_with_fuel(exact, 5);
}

proof fn lemma_light_through(g: Functions, density: Formula, light: Double)
    requires
        finite_leaves(density),
        light.finite(),
    ensures
        finite_leaves(light_through(density, light)),
        exact(g, light_through(density, light)) == ten(g, -exact(g, density)) * double_value(light),
{
    lemma_constants();
    reveal_with_fuel(finite_leaves, 5);
    reveal_with_fuel(exact, 5);
}

/// The exposure through a film, as a real number.
pub proof fn lemma_exposure(
    g: Functions,
    d: Seq<Formula>,
    dyes: Seq<[Double; 3]>,
    base: Seq<Double>,
    light: Seq<Double>,
    sensitivity: Seq<[Double; 3]>,
    c: int,
    all: int,
    n: int,
)
    requires
        finite_leaves(d[0]) && finite_leaves(d[1]) && finite_leaves(d[2]),
        finite_tables(dyes, base, light, sensitivity),
        0 <= c < 3,
        n <= all <= dyes.len(),
        all <= light.len(),
        all <= sensitivity.len(),
    ensures
        finite_leaves(exposure_through(d, dyes, base, light, sensitivity, c, all, n)),
        exact(g, exposure_through(d, dyes, base, light, sensitivity, c, all, n)) == seen(
            g,
            |wl: int|
                density_at((exact(g, d[0]), exact(g, d[1]), exact(g, d[2])), dyes, base, all, wl),
            light,
            sensitivity,
            c,
            n,
        ),
    decreases n,
{
    let terms = |wl: int|
        times(
            light_through(
                spectral_density(d, dyes[wl], base_at(base, all, wl)),
                light[wl],
            ),
            double(sensitivity[wl]@[c]),
        );
    lemma_small_numbers();
    if n > 0 {
        lemma_exposure(g, d, dyes, base, light, sensitivity, c, all, n - 1);
        let wl = n - 1;
        assert(dyes[wl]@[0].finite() && dyes[wl]@[1].finite() && dyes[wl]@[2].finite());
        assert(sensitivity[wl]@[c].finite());
        let density = spectral_density(d, dyes[wl], base_at(base, all, wl));
        lemma_spectral_density(g, d, dyes[wl], base_at(base, all, wl));
        lemma_light_through(g, density, light[wl]);
        assert(exposure_through(d, dyes, base, light, sensitivity, c, all, n) == plus(
            exposure_through(d, dyes, base, light, sensitivity, c, all, n - 1),
            terms(wl),
        ));
        reveal_with_fuel(finite_leaves, 2);
        reveal_with_fuel(exact, 2);
        assert(finite_leaves(terms(wl)));
        assert(exact(g, terms(wl)) == exact(g, light_through(density, light[wl])) * double_value(
            sensitivity[wl]@[c],
        ));
    }
}

proof fn lemma_product_not_negative(a: real, b: real, c: real)
    by (nonlinear_arith)
    requires
        0real <= a,
        0real <= b,
        0real <= c,
    ensures
        0real <= a * b * c,
{
    assert(0real <= a * b);
}

/// No channel sees less than nothing.
pub proof fn lemma_seen_not_negative(
    g: Functions,
    density: spec_fn(int) -> real,
    light: Seq<Double>,
    sensitivity: Seq<[Double; 3]>,
    c: int,
    n: int,
)
    requires
        has_tens(g),
        is_bright(light, sensitivity),
        0 <= c < 3,
        n <= light.len(),
        n <= sensitivity.len(),
    ensures
        0real <= seen(g, density, light, sensitivity, c, n),
    decreases n,
{
    if n > 0 {
        lemma_seen_not_negative(g, density, light, sensitivity, c, n - 1);
        assert(0real < ten(g, -density(n - 1)));
        lemma_product_not_negative(
            ten(g, -density(n - 1)),
            double_value(light[n - 1]),
            double_value(sensitivity[n - 1]@[c]),
        );
    }
}

/// The logarithm that is kept above zero, undone.
pub proof fn lemma_safe_log(g: Functions, x: Formula)
    requires
        has_tens(g),
        finite_leaves(x),
    ensures
        finite_leaves(safe_log(x)),
        exposure_of(g, exact(g, safe_log(x))) == if exact(g, x) < 0real {
            0real
        } else {
            exact(g, x)
        },
{
    lemma_constants();
    lemma_small_numbers();
    reveal_with_fuel(finite_leaves, 5);
    reveal_with_fuel(exact, 5);
    let kept = larger(x, constant(0));
    assert(exact(g, plus(kept, constant(SMALLEST_SUM))) > 0real);
}

// ── The print ────────────────────────────────────────────────────────────

/// The densities of a pixel.
pub open spec fn pixel_density<T: Sample>(img: ImageBuf<T>, k: int) -> (real, real, real) {
    (value_of(img.data@[3 * k]), value_of(img.data@[3 * k + 1]), value_of(img.data@[3 * k + 2]))
}

/// What the paper gets behind a pixel: the light through the film times the
/// exposure factor.
proof fn lemma_print_value<T: Sample, A: Arithmetic>(
    ar: &A,
    g: Functions,
    density: ImageBuf<T>,
    dyes: Seq<[Double; 3]>,
    base: Seq<Double>,
    light: Seq<Double>,
    sensitivity: Seq<[Double; 3]>,
    factor: Double,
    r: ImageBuf<T>,
    k: int,
    c: int,
)
    requires
        lossless(ar, g),
        has_tens(g),
        density.valid(),
        finite_image(density),
        finite_tables(dyes, base, light, sensitivity),
        is_bright(light, sensitivity),
        factor.finite(),
        0real <= double_value(factor),
        is_printed_light(ar, density, dyes, base, light, sensitivity, factor, r),
        0 <= k < density.data@.len() / 3,
        0 <= c < 3,
    ensures
        exposure_of(g, value_of(r.data@[3 * k + c])) == seen(
            g,
            |wl: int|
                density_at(
                    pixel_density(density, k),
                    dyes,
                    base,
                    common(dyes, light, sensitivity),
                    wl,
                ),
            light,
            sensitivity,
            c,
            common(dyes, light, sensitivity),
        ) * double_value(factor),
        0real <= seen(
            g,
            |wl: int|
                density_at(
                    pixel_density(density, k),
                    dyes,
                    base,
                    common(dyes, light, sensitivity),
                    wl,
                ),
            light,
            sensitivity,
            c,
            common(dyes, light, sensitivity),
        ),
{
    let n = common(dyes, light, sensitivity);
    let d = densities(density.data@, k);
    let f = print_value(d, dyes, base, light, sensitivity, factor, c);
    assert(print_holds(ar, density, dyes, base, light, sensitivity, factor, r, k));
    let x = r.data@[3 * k + c];
    x.lemma_forms(g, f);
    T::lemma_stored(g, f);
    density.data@[3 * k].lemma_forms(g, f);
    density.data@[3 * k + 1].lemma_forms(g, f);
    density.data@[3 * k + 2].lemma_forms(g, f);
    lemma_exposure(g, d, dyes, base, light, sensitivity, c, n, n);
    let through = exposure_through(d, dyes, base, light, sensitivity, c, n, n);
    let density_of = |wl: int|
        density_at((exact(g, d[0]), exact(g, d[1]), exact(g, d[2])), dyes, base, n, wl);
    let same = |wl: int| density_at(pixel_density(density, k), dyes, base, n, wl);
    assert(density_of =~= same);
    let e = seen(g, same, light, sensitivity, c, n);
    lemma_seen_not_negative(g, same, light, sensitivity, c, n);
    reveal_with_fuel(finite_leaves, 2);
    reveal_with_fuel(exact, 2);
    lemma_safe_log(g, times(through, double(factor)));
    lemma_lossless(ar, g, T::stored(f), x.number());
    lemma_product_not_negative(e, double_value(factor), 1real);
    assert(exact(g, times(through, double(factor))) == e * double_value(factor));
    assert(e * double_value(factor) * 1real == e * double_value(factor)) by (nonlinear_arith);
}

/// The print follows its exposure factor: without rounding, the exposures by
/// two factors are to each other as the factors are.
pub proof fn lemma_print_follows_factor<T: Sample, A: Arithmetic>(
    ar: &A,
    g: Functions,
    density: ImageBuf<T>,
    dyes: Seq<[Double; 3]>,
    base: Seq<Double>,
    light: Seq<Double>,
    sensitivity: Seq<[Double; 3]>,
    factors: (Double, Double),
    r: (ImageBuf<T>, ImageBuf<T>),
    k: int,
    c: int,
)
    requires
        lossless(ar, g),
        has_tens(g),
        density.valid(),
        finite_image(density),
        finite_tables(dyes, base, light, sensitivity),
        is_bright(light, sensitivity),
        factors.0.finite() && 0real <= double_value(factors.0),
        factors.1.finite() && 0real <= double_value(factors.1),
        is_printed_light(ar, density, dyes, base, light, sensitivity, factors.0, r.0),
        is_printed_light(ar, density, dyes, base, light, sensitivity, factors.1, r.1),
        0 <= k < density.data@.len() / 3,
        0 <= c < 3,
    ensures
        exposure_of(g, value_of(r.0.data@[3 * k + c])) * double_value(factors.1) == exposure_of(
            g,
            value_of(r.1.data@[3 * k + c]),
        ) * double_value(factors.0),
{
    lemma_print_value(ar, g, density, dyes, base, light, sensitivity, factors.0, r.0, k, c);
    lemma_print_value(ar, g, density, dyes, base, light, sensitivity, factors.1, r.1, k, c);
    let e = seen(
        g,
        |wl: int|
            density_at(
                pixel_density(density, k),
                dyes,
                base,
                common(dyes, light, sensitivity),
                wl,
            ),
        light,
        sensitivity,
        c,
        common(dyes, light, sensitivity),
    );
    lemma_crossed(e, double_value(factors.0), double_value(factors.1));
}

proof fn lemma_crossed(e: real, a: real, b: real)
    by (nonlinear_arith)
    ensures
        (e * a) * b == (e * b) * a,
{
}

/// Clear film without a base lets all the light through: the exposure is the
/// sum over the wavelengths of light times sensitivity, times the factor.
pub proof fn lemma_clear_film<T: Sample, A: Arithmetic>(
    ar: &A,
    g: Functions,
    density: ImageBuf<T>,
    dyes: Seq<[Double; 3]>,
    light: Seq<Double>,
    sensitivity: Seq<[Double; 3]>,
    factor: Double,
    r: ImageBuf<T>,
    k: int,
    c: int,
)
    requires
        lossless(ar, g),
        has_tens(g),
        density.valid(),
        finite_image(density),
        finite_tables(dyes, Seq::empty(), light, sensitivity),
        is_bright(light, sensitivity),
        factor.finite(),
        0real <= double_value(factor),
        is_printed_light(ar, density, dyes, Seq::empty(), light, sensitivity, factor, r),
        0 <= k < density.data@.len() / 3,
        0 <= c < 3,
        pixel_density(density, k) == (0real, 0real, 0real),
    ensures
        exposure_of(g, value_of(r.data@[3 * k + c])) == light_total(
            light,
            sensitivity,
            c,
            common(dyes, light, sensitivity),
        ) * double_value(factor),
{
    let n = common(dyes, light, sensitivity);
    let base = Seq::<Double>::empty();
    lemma_print_value(ar, g, density, dyes, base, light, sensitivity, factor, r, k, c);
    let d = |wl: int| density_at(pixel_density(density, k), dyes, base, n, wl);
    lemma_seen_clear(g, d, light, sensitivity, c, n);
}

/// Light times sensitivity, added up.
pub open spec fn light_total(
    light: Seq<Double>,
    sensitivity: Seq<[Double; 3]>,
    c: int,
    n: int,
) -> real
    decreases n,
{
    if n <= 0 {
        0real
    } else {
        light_total(light, sensitivity, c, n - 1) + double_value(light[n - 1]) * double_value(
            sensitivity[n - 1]@[c],
        )
    }
}

/// Where there is no density, all the light is seen.
pub proof fn lemma_seen_clear(
    g: Functions,
    density: spec_fn(int) -> real,
    light: Seq<Double>,
    sensitivity: Seq<[Double; 3]>,
    c: int,
    n: int,
)
    requires
        has_tens(g),
        forall|wl: int| 0 <= wl < n ==> #[trigger] density(wl) == 0real,
    ensures
        seen(g, density, light, sensitivity, c, n) == light_total(light, sensitivity, c, n),
    decreases n,
{
    if n > 0 {
        lemma_seen_clear(g, density, light, sensitivity, c, n - 1);
        assert(density(n - 1) == 0real);
        let l = double_value(light[n - 1]);
        assert(ten(g, -density(n - 1)) == 1real);
        assert(1real * l == l) by (nonlinear_arith);
    }
}

/// A denser base holds light back: with `more` density at every wavelength,
/// ten to the power of it times the exposure is what it was before.
pub proof fn lemma_base_dims<T: Sample, A: Arithmetic>(
    ar: &A,
    g: Functions,
    density: ImageBuf<T>,
    dyes: Seq<[Double; 3]>,
    bases: (Seq<Double>, Seq<Double>),
    more: real,
    light: Seq<Double>,
    sensitivity: Seq<[Double; 3]>,
    factor: Double,
    r: (ImageBuf<T>, ImageBuf<T>),
    k: int,
    c: int,
)
    requires
        lossless(ar, g),
        has_tens(g),
        density.valid(),
        finite_image(density),
        finite_tables(dyes, bases.0, light, sensitivity),
        finite_tables(dyes, bases.1, light, sensitivity),
        is_bright(light, sensitivity),
        factor.finite(),
        0real <= double_value(factor),
        bases.0.len() == bases.1.len(),
        bases.0.len() >= common(dyes, light, sensitivity) > 0,
        forall|wl: int|
            0 <= wl < bases.0.len() ==> double_value(#[trigger] bases.1[wl]) == double_value(
                bases.0[wl],
            ) + more,
        is_printed_light(ar, density, dyes, bases.0, light, sensitivity, factor, r.0),
        is_printed_light(ar, density, dyes, bases.1, light, sensitivity, factor, r.1),
        0 <= k < density.data@.len() / 3,
        0 <= c < 3,
    ensures
        ten(g, more) * exposure_of(g, value_of(r.1.data@[3 * k + c])) == exposure_of(
            g,
            value_of(r.0.data@[3 * k + c]),
        ),
{
    let n = common(dyes, light, sensitivity);
    lemma_print_value(ar, g, density, dyes, bases.0, light, sensitivity, factor, r.0, k, c);
    lemma_print_value(ar, g, density, dyes, bases.1, light, sensitivity, factor, r.1, k, c);
    let v = pixel_density(density, k);
    let thin = |wl: int| density_at(v, dyes, bases.0, n, wl);
    let thick = |wl: int| density_at(v, dyes, bases.1, n, wl);
    assert forall|wl: int| 0 <= wl < n implies #[trigger] thick(wl) == thin(wl) + more by {
        assert(double_value(bases.1[wl]) == double_value(bases.0[wl]) + more);
    }
    lemma_seen_dimmed(g, thin, thick, more, light, sensitivity, c, n);
    lemma_grouped(
        ten(g, more),
        seen(g, thick, light, sensitivity, c, n),
        double_value(factor),
    );
}

/// More density everywhere dims the light by a power of ten.
proof fn lemma_seen_dimmed(
    g: Functions,
    thin: spec_fn(int) -> real,
    thick: spec_fn(int) -> real,
    more: real,
    light: Seq<Double>,
    sensitivity: Seq<[Double; 3]>,
    c: int,
    n: int,
)
    requires
        has_tens(g),
        forall|wl: int| 0 <= wl < n ==> #[trigger] thick(wl) == thin(wl) + more,
    ensures
        ten(g, more) * seen(g, thick, light, sensitivity, c, n) == seen(
            g,
            thin,
            light,
            sensitivity,
            c,
            n,
        ),
    decreases n,
{
    if n > 0 {
        lemma_seen_dimmed(g, thin, thick, more, light, sensitivity, c, n - 1);
        let wl = n - 1;
        assert(thick(wl) == thin(wl) + more);
        assert(tens_add(g, more, -thick(wl)));
        assert(more + -thick(wl) == -thin(wl));
        let (l, s) = (double_value(light[wl]), double_value(sensitivity[wl]@[c]));
        lemma_grouped(ten(g, more), ten(g, -thick(wl)), l);
        lemma_grouped(ten(g, more), ten(g, -thick(wl)) * l, s);
        lemma_factor_out(
            ten(g, more),
            seen(g, thick, light, sensitivity, c, n - 1),
            ten(g, -thick(wl)) * l * s,
        );
    } else {
        lemma_factor_out(ten(g, more), 0real, 0real);
    }
}

/// Denser film lets less light through: where the dyes absorb, a pixel that is
/// no thinner in any channel exposes the paper no more.
pub proof fn lemma_denser_film<T: Sample, A: Arithmetic>(
    ar: &A,
    g: Functions,
    images: (ImageBuf<T>, ImageBuf<T>),
    dyes: Seq<[Double; 3]>,
    base: Seq<Double>,
    light: Seq<Double>,
    sensitivity: Seq<[Double; 3]>,
    factor: Double,
    r: (ImageBuf<T>, ImageBuf<T>),
    k: (int, int),
    c: int,
)
    requires
        lossless(ar, g),
        has_tens(g),
        images.0.valid(),
        images.1.valid(),
        finite_image(images.0),
        finite_image(images.1),
        finite_tables(dyes, base, light, sensitivity),
        is_bright(light, sensitivity),
        is_bright(Seq::empty(), dyes),
        factor.finite(),
        0real <= double_value(factor),
        is_printed_light(ar, images.0, dyes, base, light, sensitivity, factor, r.0),
        is_printed_light(ar, images.1, dyes, base, light, sensitivity, factor, r.1),
        0 <= k.0 < images.0.data@.len() / 3,
        0 <= k.1 < images.1.data@.len() / 3,
        0 <= c < 3,
        pixel_density(images.0, k.0).0 <= pixel_density(images.1, k.1).0,
        pixel_density(images.0, k.0).1 <= pixel_density(images.1, k.1).1,
        pixel_density(images.0, k.0).2 <= pixel_density(images.1, k.1).2,
    ensures
        exposure_of(g, value_of(r.1.data@[3 * k.1 + c])) <= exposure_of(
            g,
            value_of(r.0.data@[3 * k.0 + c]),
        ),
{
    let n = common(dyes, light, sensitivity);
    lemma_print_value(ar, g, images.0, dyes, base, light, sensitivity, factor, r.0, k.0, c);
    lemma_print_value(ar, g, images.1, dyes, base, light, sensitivity, factor, r.1, k.1, c);
    let (v, w) = (pixel_density(images.0, k.0), pixel_density(images.1, k.1));
    let thin = |wl: int| density_at(v, dyes, base, n, wl);
    let thick = |wl: int| density_at(w, dyes, base, n, wl);
    assert forall|wl: int| 0 <= wl < n implies thin(wl) <= #[trigger] thick(wl) by {
        assert(0real <= double_value(dyes[wl]@[0]));
        assert(0real <= double_value(dyes[wl]@[1]));
        assert(0real <= double_value(dyes[wl]@[2]));
        lemma_grows(v.0, w.0, double_value(dyes[wl]@[0]));
        lemma_grows(v.1, w.1, double_value(dyes[wl]@[1]));
        lemma_grows(v.2, w.2, double_value(dyes[wl]@[2]));
    }
    lemma_seen_less(g, thin, thick, light, sensitivity, c, n);
    lemma_grows(
        seen(g, thick, light, sensitivity, c, n),
        seen(g, thin, light, sensitivity, c, n),
        double_value(factor),
    );
}

pub proof fn lemma_grows(a: real, b: real, k: real)
    by (nonlinear_arith)
    requires
        a <= b,
        0real <= k,
    ensures
        a * k <= b * k,
{
}

/// Through more density less is seen.
pub proof fn lemma_seen_less(
    g: Functions,
    thin: spec_fn(int) -> real,
    thick: spec_fn(int) -> real,
    light: Seq<Double>,
    sensitivity: Seq<[Double; 3]>,
    c: int,
    n: int,
)
    requires
        has_tens(g),
        is_bright(light, sensitivity),
        0 <= c < 3,
        n <= light.len(),
        n <= sensitivity.len(),
        forall|wl: int| 0 <= wl < n ==> thin(wl) <= #[trigger] thick(wl),
    ensures
        seen(g, thick, light, sensitivity, c, n) <= seen(g, thin, light, sensitivity, c, n),
    decreases n,
{
    if n > 0 {
        lemma_seen_less(g, thin, thick, light, sensitivity, c, n - 1);
        let wl = n - 1;
        assert(thin(wl) <= thick(wl));
        assert(tens_grow(g, -thick(wl), -thin(wl)));
        lemma_grows(ten(g, -thick(wl)), ten(g, -thin(wl)), double_value(light[wl]));
        lemma_grows(
            ten(g, -thick(wl)) * double_value(light[wl]),
            ten(g, -thin(wl)) * double_value(light[wl]),
            double_value(sensitivity[wl]@[c]),
        );
    }
}

/// A channel without dye leaves the light alone: pixels that differ in that
/// channel only expose the paper alike.
pub proof fn lemma_channel_without_dye<T: Sample, A: Arithmetic>(
    ar: &A,
    g: Functions,
    images: (ImageBuf<T>, ImageBuf<T>),
    dyes: Seq<[Double; 3]>,
    base: Seq<Double>,
    light: Seq<Double>,
    sensitivity: Seq<[Double; 3]>,
    factor: Double,
    r: (ImageBuf<T>, ImageBuf<T>),
    k: (int, int),
    c: int,
    without: int,
)
    requires
        lossless(ar, g),
        has_tens(g),
        images.0.valid(),
        images.1.valid(),
        finite_image(images.0),
        finite_image(images.1),
        finite_tables(dyes, base, light, sensitivity),
        is_bright(light, sensitivity),
        factor.finite(),
        0real <= double_value(factor),
        is_printed_light(ar, images.0, dyes, base, light, sensitivity, factor, r.0),
        is_printed_light(ar, images.1, dyes, base, light, sensitivity, factor, r.1),
        0 <= k.0 < images.0.data@.len() / 3,
        0 <= k.1 < images.1.data@.len() / 3,
        0 <= c < 3,
        0 <= without < 3,
        forall|wl: int|
            0 <= wl < dyes.len() ==> double_value((#[trigger] dyes[wl])@[without]) == 0real,
        without == 0 || pixel_density(images.0, k.0).0 == pixel_density(images.1, k.1).0,
        without == 1 || pixel_density(images.0, k.0).1 == pixel_density(images.1, k.1).1,
        without == 2 || pixel_density(images.0, k.0).2 == pixel_density(images.1, k.1).2,
    ensures
        exposure_of(g, value_of(r.1.data@[3 * k.1 + c])) == exposure_of(
            g,
            value_of(r.0.data@[3 * k.0 + c]),
        ),
{
    let n = common(dyes, light, sensitivity);
    lemma_print_value(ar, g, images.0, dyes, base, light, sensitivity, factor, r.0, k.0, c);
    lemma_print_value(ar, g, images.1, dyes, base, light, sensitivity, factor, r.1, k.1, c);
    let (v, w) = (pixel_density(images.0, k.0), pixel_density(images.1, k.1));
    let a = |wl: int| density_at(v, dyes, base, n, wl);
    let b = |wl: int| density_at(w, dyes, base, n, wl);
    assert forall|wl: int| 0 <= wl < n implies a(wl) <= #[trigger] b(wl) && b(wl) <= a(wl) by {
        assert(double_value(dyes[wl]@[without]) == 0real);
        lemma_grows(v.0, v.0, 0real);
        assert(v.0 * 0real == 0real && v.1 * 0real == 0real && v.2 * 0real == 0real);
        assert(w.0 * 0real == 0real && w.1 * 0real == 0real && w.2 * 0real == 0real);
    }
    lemma_seen_less(g, a, b, light, sensitivity, c, n);
    assert forall|wl: int| 0 <= wl < n implies b(wl) <= #[trigger] a(wl) by {
        assert(a(wl) <= b(wl) && b(wl) <= a(wl));
    }
    lemma_seen_less(g, b, a, light, sensitivity, c, n);
}

// ── Calibration ──────────────────────────────────────────────────────────

/// A product of three exposures, each scaled by one factor.
proof fn lemma_three_scaled(a: real, b: real, c: real, f: real)
    ensures
        (a * f) * (b * f) * (c * f) == (a * b * c) * cubed(f),
{
    lemma_swapped(a * f, b, f);
    lemma_grouped(a, f, f);
    assert((a * f) * (b * f) == (a * b) * (f * f)) by {
        lemma_swapped(a * f, b, f);
        lemma_grouped(a, f, f);
        lemma_swapped(b, a, f * f);
        lemma_grouped(a, b, f * f);
    }
    let (p, q) = (a * b, f * f);
    lemma_swapped(p * q, c, f);
    lemma_grouped(p, q, f);
    lemma_swapped(c, p, q * f);
    lemma_grouped(p, c, q * f);
}

proof fn lemma_quotient_cubed(pe: real, m: real)
    by (nonlinear_arith)
    requires
        0real < m,
    ensures
        (pe / m) * m == pe,
{
}

/// A number times a factor, where the factor is a quotient by its root.
proof fn lemma_root_undone(x: real, m: real, pe: real, f: real)
    requires
        x == cubed(m),
        f * m == pe,
    ensures
        x * cubed(f) == cubed(pe),
{
    lemma_three_scaled(m, m, m, f);
    assert(m * f == f * m) by (nonlinear_arith);
}

/// The exposures by which a print is calibrated are those that it gets.
proof fn lemma_exposures<A: Arithmetic>(
    ar: &A,
    g: Functions,
    density: [Double; 3],
    inputs: PrintInputs,
    raw: [Double; 3],
    c: int,
)
    requires
        lossless(ar, g),
        finite_tables(
            inputs.channel_density@,
            inputs.base_density@,
            inputs.illuminant@,
            inputs.sensitivity@,
        ),
        density@[0].finite() && density@[1].finite() && density@[2].finite(),
        are_exposures(ar, density, inputs, raw),
        0 <= c < 3,
    ensures
        raw@[c].finite(),
        double_value(raw@[c]) == seen(
            g,
            |wl: int|
                density_at(
                    (
                        double_value(density@[0]),
                        double_value(density@[1]),
                        double_value(density@[2]),
                    ),
                    inputs.channel_density@,
                    inputs.base_density@,
                    common(inputs.channel_density@, inputs.illuminant@, inputs.sensitivity@),
                    wl,
                ),
            inputs.illuminant@,
            inputs.sensitivity@,
            c,
            common(inputs.channel_density@, inputs.illuminant@, inputs.sensitivity@),
        ),
{
    let n = common(inputs.channel_density@, inputs.illuminant@, inputs.sensitivity@);
    let d = leaves3(density);
    lemma_exposure(
        g,
        d,
        inputs.channel_density@,
        inputs.base_density@,
        inputs.illuminant@,
        inputs.sensitivity@,
        c,
        n,
        n,
    );
    let f = exposure_through(
        d,
        inputs.channel_density@,
        inputs.base_density@,
        inputs.illuminant@,
        inputs.sensitivity@,
        c,
        n,
        n,
    );
    assert(is_double(ar, f, raw@[c]));
    lemma_lossless_double(ar, g, f, raw@[c]);
    let v = (double_value(density@[0]), double_value(density@[1]), double_value(density@[2]));
    assert((|wl: int|
        density_at(
            (exact(g, d[0]), exact(g, d[1]), exact(g, d[2])),
            inputs.channel_density@,
            inputs.base_density@,
            n,
            wl,
        )) =~= (|wl: int| density_at(v, inputs.channel_density@, inputs.base_density@, n, wl)));
}

/// The calibrated print lands where it should: without rounding, with the
/// factor that is computed for a density, the exposures of the three channels
/// behind that density have the print exposure for their geometric mean.
pub proof fn lemma_print_is_calibrated<T: Sample, A: Arithmetic>(
    ar: &A,
    g: Functions,
    mid: [Double; 3],
    inputs: PrintInputs,
    raw: [Double; 3],
    print_exposure: Single,
    density: ImageBuf<T>,
    r: ImageBuf<T>,
    k: int,
)
    requires
        lossless(ar, g),
        has_tens(g),
        density.valid(),
        finite_image(density),
        finite_tables(
            inputs.channel_density@,
            inputs.base_density@,
            inputs.illuminant@,
            inputs.sensitivity@,
        ),
        is_bright(inputs.illuminant@, inputs.sensitivity@),
        mid@[0].finite() && mid@[1].finite() && mid@[2].finite(),
        print_exposure.finite(),
        0real <= single_value(print_exposure),
        are_exposures(ar, mid, inputs, raw),
        is_double(ar, normalization(print_exposure, raw), inputs.factor),
        double_value(Double { bits: SMALLEST_SUM }) < (g.unary)(
            Unary::CubeRoot,
            double_value(raw@[0]) * double_value(raw@[1]) * double_value(raw@[2]),
        ),
        is_printed_light(
            ar,
            density,
            inputs.channel_density@,
            inputs.base_density@,
            inputs.illuminant@,
            inputs.sensitivity@,
            inputs.factor,
            r,
        ),
        0 <= k < density.data@.len() / 3,
        pixel_density(density, k) == (
            double_value(mid@[0]),
            double_value(mid@[1]),
            double_value(mid@[2]),
        ),
    ensures
        exposure_of(g, value_of(r.data@[3 * k])) * exposure_of(g, value_of(r.data@[3 * k + 1]))
            * exposure_of(g, value_of(r.data@[3 * k + 2])) == cubed(single_value(print_exposure)),
{
    lemma_constants();
    lemma_exposures(ar, g, mid, inputs, raw, 0);
    lemma_exposures(ar, g, mid, inputs, raw, 1);
    lemma_exposures(ar, g, mid, inputs, raw, 2);
    let f = normalization(print_exposure, raw);
    reveal_with_fuel(finite_leaves, 7);
    reveal_with_fuel(exact, 7);
    lemma_lossless_double(ar, g, f, inputs.factor);
    let (a, b, c) = (double_value(raw@[0]), double_value(raw@[1]), double_value(raw@[2]));
    let m = (g.unary)(Unary::CubeRoot, a * b * c);
    let pe = single_value(print_exposure);
    assert(exact(g, f) == pe / m);
    lemma_quotient_cubed(pe, m);
    lemma_quotient_not_negative(pe, m);
    let v = double_value(inputs.factor);
    lemma_print_value(
        ar,
        g,
        density,
        inputs.channel_density@,
        inputs.base_density@,
        inputs.illuminant@,
        inputs.sensitivity@,
        inputs.factor,
        r,
        k,
        0,
    );
    lemma_print_value(
        ar,
        g,
        density,
        inputs.channel_density@,
        inputs.base_density@,
        inputs.illuminant@,
        inputs.sensitivity@,
        inputs.factor,
        r,
        k,
        1,
    );
    lemma_print_value(
        ar,
        g,
        density,
        inputs.channel_density@,
        inputs.base_density@,
        inputs.illuminant@,
        inputs.sensitivity@,
        inputs.factor,
        r,
        k,
        2,
    );
    lemma_three_scaled(a, b, c, v);
    lemma_root_undone(a * b * c, m, pe, v);
}

proof fn lemma_quotient_not_negative(pe: real, m: real)
    by (nonlinear_arith)
    requires
        0real <= pe,
        0real < m,
    ensures
        0real <= pe / m,
{
    assert((pe / m) * m == pe);
}

/// The exposure by a card of a spectral density.
proof fn lemma_card_exposure<A: Arithmetic>(
    ar: &A,
    g: Functions,
    dyes: Seq<[Double; 3]>,
    base: Seq<Double>,
    cmy: Seq<Double>,
    density: Seq<Double>,
    light: Seq<Double>,
    sensitivity: Seq<[Double; 3]>,
    c: int,
    n: int,
)
    requires
        lossless(ar, g),
        finite_tables(dyes, base, light, sensitivity),
        cmy[0].finite() && cmy[1].finite() && cmy[2].finite(),
        is_spectrum(ar, dyes, base, cmy, density),
        0 <= c < 3,
        n <= dyes.len(),
        n <= light.len(),
        n <= sensitivity.len(),
    ensures
        finite_leaves(card_exposure(density, light, sensitivity, c, n)),
        exact(g, card_exposure(density, light, sensitivity, c, n)) == seen(
            g,
            |wl: int|
                density_at(
                    (double_value(cmy[0]), double_value(cmy[1]), double_value(cmy[2])),
                    dyes,
                    base,
                    dyes.len() as int,
                    wl,
                ),
            light,
            sensitivity,
            c,
            n,
        ),
    decreases n,
{
    lemma_small_numbers();
    if n > 0 {
        lemma_card_exposure(ar, g, dyes, base, cmy, density, light, sensitivity, c, n - 1);
        let wl = n - 1;
        let d = seq![double(cmy[0]), double(cmy[1]), double(cmy[2])];
        assert(dyes[wl]@[0].finite() && dyes[wl]@[1].finite() && dyes[wl]@[2].finite());
        assert(sensitivity[wl]@[c].finite());
        let b = base_at(base, dyes.len() as int, wl);
        lemma_spectral_density(g, d, dyes[wl], b);
        assert(is_double(ar, spectral_density(d, dyes[wl], b), density[wl]));
        lemma_lossless_double(ar, g, spectral_density(d, dyes[wl], b), density[wl]);
        lemma_light_through(g, double(density[wl]), light[wl]);
        let term = times(light_through(double(density[wl]), light[wl]), double(sensitivity[wl]@[c]));
        reveal_with_fuel(finite_leaves, 2);
        reveal_with_fuel(exact, 2);
        assert(finite_leaves(term));
        assert(exact(g, term) == exact(g, light_through(double(density[wl]), light[wl]))
            * double_value(sensitivity[wl]@[c]));
        assert(card_exposure(density, light, sensitivity, c, n) == plus(
            card_exposure(density, light, sensitivity, c, n - 1),
            term,
        ));
    }
}

/// The grey card prints at middle exposure: with the factor that the enlarger
/// computes for the card's spectral density, the exposures of the three
/// channels behind the card's densities have one for their geometric mean.
pub proof fn lemma_card_prints_at_one<T: Sample, A: Arithmetic>(
    ar: &A,
    g: Functions,
    dyes: Seq<[Double; 3]>,
    base: Seq<Double>,
    cmy: Seq<Double>,
    spectrum: Seq<Double>,
    light: Seq<Double>,
    sensitivity: Seq<[Double; 3]>,
    factor: Double,
    density: ImageBuf<T>,
    r: ImageBuf<T>,
    k: int,
)
    requires
        lossless(ar, g),
        has_tens(g),
        density.valid(),
        finite_image(density),
        finite_tables(dyes, base, light, sensitivity),
        is_bright(light, sensitivity),
        cmy[0].finite() && cmy[1].finite() && cmy[2].finite(),
        is_spectrum(ar, dyes, base, cmy, spectrum),
        dyes.len() <= light.len(),
        dyes.len() <= sensitivity.len(),
        is_double(ar, midgray_factor(spectrum, light, sensitivity), factor),
        is_printed_light(ar, density, dyes, base, light, sensitivity, factor, r),
        0 <= k < density.data@.len() / 3,
        pixel_density(density, k) == (
            double_value(cmy[0]),
            double_value(cmy[1]),
            double_value(cmy[2]),
        ),
        forall|c: int|
            0 <= c < 3 ==> 0real < #[trigger] seen_through(
                g,
                pixel_density(density, k),
                dyes,
                base,
                light,
                sensitivity,
                c,
            ),
    ensures
        exposure_of(g, value_of(r.data@[3 * k])) * exposure_of(g, value_of(r.data@[3 * k + 1]))
            * exposure_of(g, value_of(r.data@[3 * k + 2])) == 1real,
{
    let n = dyes.len() as int;
    lemma_small_numbers();
    lemma_constants();
    lemma_card_exposure(ar, g, dyes, base, cmy, spectrum, light, sensitivity, 0, n);
    lemma_card_exposure(ar, g, dyes, base, cmy, spectrum, light, sensitivity, 1, n);
    lemma_card_exposure(ar, g, dyes, base, cmy, spectrum, light, sensitivity, 2, n);
    let e0 = card_exposure(spectrum, light, sensitivity, 0, n);
    let e1 = card_exposure(spectrum, light, sensitivity, 1, n);
    let e2 = card_exposure(spectrum, light, sensitivity, 2, n);
    let (a, b, c) = (exact(g, e0), exact(g, e1), exact(g, e2));
    assert(common(dyes, light, sensitivity) == n);
    let v = pixel_density(density, k);
    assert(a == seen_through(g, v, dyes, base, light, sensitivity, 0));
    assert(b == seen_through(g, v, dyes, base, light, sensitivity, 1));
    assert(c == seen_through(g, v, dyes, base, light, sensitivity, 2));
    lemma_product_positive(a, b, c);
    let f = midgray_factor(spectrum, light, sensitivity);
    let m = (g.unary)(Unary::CubeRoot, a * b * c);
    assert(cubed(m) == a * b * c);
    lemma_cube_positive(m);
    lemma_midgray_factor(g, spectrum, light, sensitivity, n);
    lemma_lossless_double(ar, g, f, factor);
    lemma_quotient_cubed(1real, m);
    lemma_quotient_not_negative(1real, m);
    lemma_print_value(ar, g, density, dyes, base, light, sensitivity, factor, r, k, 0);
    lemma_print_value(ar, g, density, dyes, base, light, sensitivity, factor, r, k, 1);
    lemma_print_value(ar, g, density, dyes, base, light, sensitivity, factor, r, k, 2);
    let v = double_value(factor);
    lemma_three_scaled(a, b, c, v);
    lemma_root_undone(a * b * c, m, 1real, v);
    assert(cubed(1real) == 1real) by (nonlinear_arith);
}

/// The factor is one over the geometric mean of the exposures.
proof fn lemma_midgray_factor(
    g: Functions,
    density: Seq<Double>,
    light: Seq<Double>,
    sensitivity: Seq<[Double; 3]>,
    n: int,
)
    requires
        n == density.len(),
        density.len() <= light.len(),
        density.len() <= sensitivity.len(),
        finite_leaves(card_exposure(density, light, sensitivity, 0, n)),
        finite_leaves(card_exposure(density, light, sensitivity, 1, n)),
        finite_leaves(card_exposure(density, light, sensitivity, 2, n)),
    ensures
        finite_leaves(midgray_factor(density, light, sensitivity)),
        exact(g, midgray_factor(density, light, sensitivity)) == 1real / (g.unary)(
            Unary::CubeRoot,
            exact(g, card_exposure(density, light, sensitivity, 0, n)) * exact(
                g,
                card_exposure(density, light, sensitivity, 1, n),
            ) * exact(g, card_exposure(density, light, sensitivity, 2, n)),
        ),
{
    lemma_small_numbers();
    let e0 = card_exposure(density, light, sensitivity, 0, n);
    let e1 = card_exposure(density, light, sensitivity, 1, n);
    let e2 = card_exposure(density, light, sensitivity, 2, n);
    let product = times(times(e0, e1), e2);
    assert(exact(g, product) == exact(g, e0) * exact(g, e1) * exact(g, e2)) by {
        reveal_with_fuel(exact, 3);
    }
    assert(finite_leaves(product)) by {
        reveal_with_fuel(finite_leaves, 3);
    }
    reveal_with_fuel(exact, 3);
    reveal_with_fuel(finite_leaves, 3);
}

proof fn lemma_product_positive(a: real, b: real, c: real)
    by (nonlinear_arith)
    requires
        0real < a,
        0real < b,
        0real < c,
    ensures
        0real < a * b * c,
{
    assert(0real < a * b);
}

proof fn lemma_cube_positive(m: real)
    by (nonlinear_arith)
    requires
        0real < m * m * m,
    ensures
        0real < m,
{
}

/// The print exposure scales the exposure of the paper: without rounding, what
/// comes out of a logarithm is the print exposure times what went in.
pub proof fn lemma_paper_exposure<T: Sample, A: Arithmetic>(
    ar: &A,
    g: Functions,
    img: ImageBuf<T>,
    print_exposure: Single,
    r: ImageBuf<T>,
    i: int,
)
    requires
        lossless(ar, g),
        has_tens(g),
        finite_image(img),
        print_exposure.finite(),
        0real <= single_value(print_exposure),
        is_paper_exposure(ar, img, print_exposure, r),
        0 <= i < img.data@.len(),
    ensures
        exposure_of(g, value_of(r.data@[i])) == single_value(print_exposure) * ten(
            g,
            value_of(img.data@[i]),
        ),
{
    lemma_constants();
    lemma_small_numbers();
    let x = img.data@[i];
    let raw = times(power(constant(TEN), x.fetched()), widen(single(print_exposure)));
    let f = safe_log(raw);
    x.lemma_forms(g, f);
    T::lemma_stored(g, f);
    r.data@[i].lemma_forms(g, f);
    reveal_with_fuel(finite_leaves, 4);
    reveal_with_fuel(exact, 4);
    let (a, b) = (ten(g, value_of(x)), single_value(print_exposure));
    assert(exact(g, raw) == a * b);
    assert(paper_exposure(x, print_exposure) == T::stored(f));
    lemma_safe_log(g, raw);
    lemma_lossless(ar, g, T::stored(f), r.data@[i].number());
    assert(a * b == b * a && 0real <= a * b) by (nonlinear_arith)
        requires
            0real < a,
            0real <= b,
    ;
}

} // verus!
