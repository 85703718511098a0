//! What scanning is for: the light that a picture is viewed under comes out as
//! the white of the output space.

use vstd::prelude::*;

use crate::adaptation::{lemma_white_adapted, tiny};
use crate::arith::{constant, dot3, double, is_double, minus, over, plus, power, times};
use crate::arith::{Arithmetic, Formula, Sample};
use crate::bits::Double;
use crate::colorspace::{adaptation, forward, gain, inverse, is_adaptation, leaves3, response};
use crate::cpu_backend::{common, densities, is_scanned, log_xyz, log_xyz_value, observer};
use crate::cpu_backend::{rgb_value, scan_holds, transformed};
use crate::density_curves::ONE;
use crate::exact::{double_value, exact, finite_leaves, lemma_one_values, lemma_zero_values};
use crate::exact::{size_of_real, Functions};
use crate::gamma::{number_finite, value_of};
use crate::image::ImageBuf;
use crate::lossless::{lemma_lossless, lemma_lossless_double, lossless};
use crate::meter_laws::{finite_image, lemma_grouped};
use crate::print_laws::{density_at, finite_tables};
use crate::print_laws::{has_tens, is_bright, lemma_constants, lemma_exposure, lemma_safe_log};
use crate::print_laws::{pixel_density, seen, seen_through, ten};
use crate::printing::{exposure_through, TEN};
use crate::scanning::{colour_holds, is_viewing_white, light_share, light_sum};
use crate::spectral::response as matching;
use crate::spectral_service::SMALLEST_SUM;

verus! {

/// Row `i` of a matrix times a colour.
pub open spec fn mapped(m: [[Double; 3]; 3], v: (real, real, real), i: int) -> real {
    double_value(m@[i]@[0]) * v.0 + double_value(m@[i]@[1]) * v.1 + double_value(m@[i]@[2]) * v.2
}

pub open spec fn finite_matrix(m: [[Double; 3]; 3]) -> bool {
    forall|i: int, j: int| 0 <= i < 3 && 0 <= j < 3 ==> (#[trigger] m@[i]@[j]).finite()
}

proof fn lemma_transformed(g: Functions, m: [[Double; 3]; 3], v: Seq<Formula>, i: int)
    requires
        finite_matrix(m),
        0 <= i < 3,
    ensures
        exact(g, transformed(m, v, i)) == mapped(
            m,
            (exact(g, v[0]), exact(g, v[1]), exact(g, v[2])),
            i,
        ),
        finite_leaves(v[0]) && finite_leaves(v[1]) && finite_leaves(v[2]) ==> finite_leaves(
            transformed(m, v, i),
        ),
{
    assert(m@[i]@[0].finite() && m@[i]@[1].finite() && m@[i]@[2].finite());
    reveal_with_fuel(exact, 4);
    reveal_with_fuel(finite_leaves, 4);
}

/// A colour from its logarithms: adapted by the one matrix, and then brought
/// to RGB by the other.
proof fn lemma_rgb_value(
    g: Functions,
    cat: [[Double; 3]; 3],
    m: [[Double; 3]; 3],
    log: Seq<Formula>,
    j: int,
)
    requires
        finite_matrix(cat),
        finite_matrix(m),
        0 <= j < 3,
        finite_leaves(log[0]) && finite_leaves(log[1]) && finite_leaves(log[2]),
    ensures
        finite_leaves(rgb_value(cat, m, log, j)),
        ({
            let xyz = (ten(g, exact(g, log[0])), ten(g, exact(g, log[1])), ten(g, exact(g, log[2])));
            exact(g, rgb_value(cat, m, log, j)) == mapped(
                m,
                (mapped(cat, xyz, 0), mapped(cat, xyz, 1), mapped(cat, xyz, 2)),
                j,
            )
        }),
{
    lemma_constants();
    let xyz = Seq::new(3, |c: int| power(constant(TEN), log[c]));
    assert forall|c: int| 0 <= c < 3 implies exact(g, #[trigger] xyz[c]) == ten(
        g,
        exact(g, log[c]),
    ) && finite_leaves(xyz[c]) by {
        reveal_with_fuel(exact, 2);
        reveal_with_fuel(finite_leaves, 2);
    }
    assert(finite_leaves(xyz[0]) && finite_leaves(xyz[1]) && finite_leaves(xyz[2]));
    let adapted = Seq::new(3, |i: int| transformed(cat, xyz, i));
    lemma_transformed(g, cat, xyz, 0);
    lemma_transformed(g, cat, xyz, 1);
    lemma_transformed(g, cat, xyz, 2);
    assert(adapted[0] == transformed(cat, xyz, 0));
    assert(adapted[1] == transformed(cat, xyz, 1));
    assert(adapted[2] == transformed(cat, xyz, 2));
    lemma_transformed(g, m, adapted, j);
}

// ── White ────────────────────────────────────────────────────────────────

/// The sizes of a row of a matrix, added up.
pub open spec fn row_size(m: [[Double; 3]; 3], i: int) -> real {
    size_of_real(double_value(m@[i]@[0])) + size_of_real(double_value(m@[i]@[1])) + size_of_real(
        double_value(m@[i]@[2]),
    )
}

pub proof fn lemma_share_off(a: real, d: real, e: real)
    by (nonlinear_arith)
    requires
        size_of_real(d) <= e,
    ensures
        size_of_real(a * d) <= size_of_real(a) * e,
{
}

pub proof fn lemma_difference(a: real, x: real, y: real)
    by (nonlinear_arith)
    ensures
        a * x - a * y == a * (x - y),
{
}

/// Colours that lie close are mapped to colours that lie close.
pub proof fn lemma_mapped_close(
    m: [[Double; 3]; 3],
    v: (real, real, real),
    w: (real, real, real),
    e: real,
    i: int,
)
    requires
        size_of_real(v.0 - w.0) <= e,
        size_of_real(v.1 - w.1) <= e,
        size_of_real(v.2 - w.2) <= e,
    ensures
        size_of_real(mapped(m, v, i) - mapped(m, w, i)) <= row_size(m, i) * e,
{
    let (a, b, c) = (
        double_value(m@[i]@[0]),
        double_value(m@[i]@[1]),
        double_value(m@[i]@[2]),
    );
    lemma_share_off(a, v.0 - w.0, e);
    lemma_share_off(b, v.1 - w.1, e);
    lemma_share_off(c, v.2 - w.2, e);
    lemma_difference(a, v.0, w.0);
    lemma_difference(b, v.1, w.1);
    lemma_difference(c, v.2, w.2);
    lemma_summed_shares(size_of_real(a), size_of_real(b), size_of_real(c), e);
}

proof fn lemma_summed_shares(a: real, b: real, c: real, e: real)
    by (nonlinear_arith)
    ensures
        a * e + b * e + c * e == (a + b + c) * e,
{
}

/// An adaptation without rounding.
proof fn lemma_adaptation_entries<A: Arithmetic>(
    ar: &A,
    g: Functions,
    src: [Double; 3],
    dst: [Double; 3],
    cat: [[Double; 3]; 3],
    i: int,
    j: int,
)
    requires
        lossless(ar, g),
        src@[0].finite() && src@[1].finite() && src@[2].finite(),
        dst@[0].finite() && dst@[1].finite() && dst@[2].finite(),
        is_adaptation(ar, src, dst, cat),
        0 <= i < 3,
        0 <= j < 3,
    ensures
        cat@[i]@[j].finite(),
        double_value(cat@[i]@[j]) == exact(g, adaptation(i, j, leaves3(src), leaves3(dst))),
{
    let f = adaptation(i, j, leaves3(src), leaves3(dst));
    assert(is_double(ar, f, cat@[i]@[j]));
    lemma_adaptation_leaves(i, j, src, dst);
    lemma_lossless_double(ar, g, f, cat@[i]@[j]);
}

proof fn lemma_response_leaves(k: int, white: [Double; 3])
    requires
        0 <= k < 3,
        white@[0].finite() && white@[1].finite() && white@[2].finite(),
    ensures
        finite_leaves(response(k, leaves3(white))),
{
    lemma_cone_leaves(k, 0);
    lemma_cone_leaves(k, 1);
    lemma_cone_leaves(k, 2);
    reveal_with_fuel(finite_leaves, 4);
}

proof fn lemma_cone_leaves(i: int, j: int)
    requires
        0 <= i < 3,
        0 <= j < 3,
    ensures
        finite_leaves(forward(i, j)),
        finite_leaves(inverse(i, j)),
{
}

proof fn lemma_cone_path_leaves(i: int, k: int, j: int, src: [Double; 3], dst: [Double; 3])
    requires
        0 <= i < 3,
        0 <= k < 3,
        0 <= j < 3,
        src@[0].finite() && src@[1].finite() && src@[2].finite(),
        dst@[0].finite() && dst@[1].finite() && dst@[2].finite(),
    ensures
        finite_leaves(
            times(times(inverse(i, k), gain(k, leaves3(src), leaves3(dst))), forward(k, j)),
        ),
{
    lemma_response_leaves(k, src);
    lemma_response_leaves(k, dst);
    lemma_cone_leaves(i, k);
    lemma_cone_leaves(k, j);
    reveal_with_fuel(finite_leaves, 4);
}

proof fn lemma_adaptation_leaves(i: int, j: int, src: [Double; 3], dst: [Double; 3])
    requires
        0 <= i < 3,
        0 <= j < 3,
        src@[0].finite() && src@[1].finite() && src@[2].finite(),
        dst@[0].finite() && dst@[1].finite() && dst@[2].finite(),
    ensures
        finite_leaves(adaptation(i, j, leaves3(src), leaves3(dst))),
{
    lemma_cone_path_leaves(i, 0, j, src, dst);
    lemma_cone_path_leaves(i, 1, j, src, dst);
    lemma_cone_path_leaves(i, 2, j, src, dst);
    let a = times(times(inverse(i, 0), gain(0, leaves3(src), leaves3(dst))), forward(0, j));
    let b = times(times(inverse(i, 1), gain(1, leaves3(src), leaves3(dst))), forward(1, j));
    assert(finite_leaves(plus(a, b)));
}

/// A white in numbers.
pub open spec fn white_of(w: [Double; 3]) -> (real, real, real) {
    (double_value(w@[0]), double_value(w@[1]), double_value(w@[2]))
}

/// What may be left of rounding in the constants of the adaptation.
pub open spec fn adaptation_error(dst: [Double; 3]) -> real {
    tiny() * (size_of_real(double_value(dst@[0])) + size_of_real(double_value(dst@[1]))
        + size_of_real(double_value(dst@[2])))
}

/// The adaptation takes the viewing white to the white of the output space.
proof fn lemma_cat_maps_white<A: Arithmetic>(
    ar: &A,
    g: Functions,
    src: [Double; 3],
    dst: [Double; 3],
    cat: [[Double; 3]; 3],
    i: int,
)
    requires
        lossless(ar, g),
        src@[0].finite() && src@[1].finite() && src@[2].finite(),
        dst@[0].finite() && dst@[1].finite() && dst@[2].finite(),
        is_adaptation(ar, src, dst, cat),
        exact(g, response(0, leaves3(src))) != 0real,
        exact(g, response(1, leaves3(src))) != 0real,
        exact(g, response(2, leaves3(src))) != 0real,
        0 <= i < 3,
    ensures
        size_of_real(mapped(cat, white_of(src), i) - double_value(dst@[i])) <= adaptation_error(
            dst,
        ),
{
    let (s, d) = (leaves3(src), leaves3(dst));
    lemma_white_adapted(g, s, d, i);
    lemma_adaptation_entries(ar, g, src, dst, cat, i, 0);
    lemma_adaptation_entries(ar, g, src, dst, cat, i, 1);
    lemma_adaptation_entries(ar, g, src, dst, cat, i, 2);
    let row = seq![adaptation(i, 0, s, d), adaptation(i, 1, s, d), adaptation(i, 2, s, d)];
    assert(exact(g, dot3(row, s)) == exact(g, row[0]) * exact(g, s[0]) + exact(g, row[1]) * exact(
        g,
        s[1],
    ) + exact(g, row[2]) * exact(g, s[2])) by {
        reveal_with_fuel(exact, 3);
    }
}

/// The viewing white scans to the white of the output space: without rounding,
/// where the logarithms are those of the white that is adapted from, the
/// colour is the white that is adapted to, brought to RGB.
pub proof fn lemma_white_scans_to_white<A: Arithmetic>(
    ar: &A,
    g: Functions,
    src: [Double; 3],
    dst: [Double; 3],
    cat: [[Double; 3]; 3],
    m: [[Double; 3]; 3],
    log: Seq<Formula>,
    j: int,
)
    requires
        lossless(ar, g),
        src@[0].finite() && src@[1].finite() && src@[2].finite(),
        dst@[0].finite() && dst@[1].finite() && dst@[2].finite(),
        is_adaptation(ar, src, dst, cat),
        exact(g, response(0, leaves3(src))) != 0real,
        exact(g, response(1, leaves3(src))) != 0real,
        exact(g, response(2, leaves3(src))) != 0real,
        finite_matrix(m),
        finite_leaves(log[0]) && finite_leaves(log[1]) && finite_leaves(log[2]),
        ten(g, exact(g, log[0])) == double_value(src@[0]),
        ten(g, exact(g, log[1])) == double_value(src@[1]),
        ten(g, exact(g, log[2])) == double_value(src@[2]),
        0 <= j < 3,
    ensures
        size_of_real(exact(g, rgb_value(cat, m, log, j)) - mapped(m, white_of(dst), j)) <= row_size(
            m,
            j,
        ) * adaptation_error(dst),
{
    lemma_cat_finite(ar, g, src, dst, cat);
    lemma_rgb_value(g, cat, m, log, j);
    let w = white_of(src);
    lemma_cat_maps_white(ar, g, src, dst, cat, 0);
    lemma_cat_maps_white(ar, g, src, dst, cat, 1);
    lemma_cat_maps_white(ar, g, src, dst, cat, 2);
    lemma_mapped_close(
        m,
        (mapped(cat, w, 0), mapped(cat, w, 1), mapped(cat, w, 2)),
        white_of(dst),
        adaptation_error(dst),
        j,
    );
}

proof fn lemma_cat_finite<A: Arithmetic>(
    ar: &A,
    g: Functions,
    src: [Double; 3],
    dst: [Double; 3],
    cat: [[Double; 3]; 3],
)
    requires
        lossless(ar, g),
        src@[0].finite() && src@[1].finite() && src@[2].finite(),
        dst@[0].finite() && dst@[1].finite() && dst@[2].finite(),
        is_adaptation(ar, src, dst, cat),
    ensures
        finite_matrix(cat),
{
    assert forall|i: int, j: int| 0 <= i < 3 && 0 <= j < 3 implies (
    #[trigger] cat@[i]@[j]).finite() by {
        lemma_adaptation_entries(ar, g, src, dst, cat, i, j);
    }
}

// ── Pixels ───────────────────────────────────────────────────────────────

/// X, Y or Z of a pixel: what the observer sees through it, relative to the
/// viewing light.
pub open spec fn colour_seen<T: Sample>(
    g: Functions,
    density: ImageBuf<T>,
    dyes: Seq<[Double; 3]>,
    base: Seq<Double>,
    light: Seq<Double>,
    norm: Double,
    k: int,
    c: int,
) -> real {
    seen_through(g, pixel_density(density, k), dyes, base, light, observer(), c) / double_value(
        norm,
    ) + double_value(Double { bits: SMALLEST_SUM })
}

proof fn lemma_log_xyz<T: Sample>(
    g: Functions,
    density: ImageBuf<T>,
    dyes: Seq<[Double; 3]>,
    base: Seq<Double>,
    light: Seq<Double>,
    norm: Double,
    k: int,
    c: int,
)
    requires
        has_tens(g),
        density.valid(),
        finite_image(density),
        finite_tables(dyes, base, light, observer()),
        is_bright(light, observer()),
        norm.finite(),
        0real < double_value(norm),
        0 <= k < density.data@.len() / 3,
        0 <= c < 3,
    ensures
        finite_leaves(log_xyz_value(densities(density.data@, k), dyes, base, light, norm, c)),
        ten(
            g,
            exact(g, log_xyz_value(densities(density.data@, k), dyes, base, light, norm, c)),
        ) == colour_seen(g, density, dyes, base, light, norm, k, c),
{
    let n = common(dyes, light, observer());
    let d = densities(density.data@, k);
    density.data@[3 * k].lemma_forms(g, constant(0));
    density.data@[3 * k + 1].lemma_forms(g, constant(0));
    density.data@[3 * k + 2].lemma_forms(g, constant(0));
    lemma_exposure(g, d, dyes, base, light, observer(), c, n, n);
    let through = exposure_through(d, dyes, base, light, observer(), c, n, n);
    let same = |wl: int| density_at(pixel_density(density, k), dyes, base, n, wl);
    assert((|wl: int|
        density_at((exact(g, d[0]), exact(g, d[1]), exact(g, d[2])), dyes, base, n, wl)) =~= same);
    let e = seen(g, same, light, observer(), c, n);
    crate::print_laws::lemma_seen_not_negative(g, same, light, observer(), c, n);
    reveal_with_fuel(finite_leaves, 2);
    reveal_with_fuel(exact, 2);
    lemma_safe_log(g, over(through, double(norm)));
    let v = double_value(norm);
    assert(0real <= e / v) by (nonlinear_arith)
        requires
            0real <= e,
            0real < v,
    ;
}

/// A scanned pixel is its adapted colour: without rounding, where the
/// adaptation takes the colour that is seen to `target`, the pixel is `target`
/// brought to RGB.
pub proof fn lemma_scan_adapts<T: Sample, A: Arithmetic>(
    ar: &A,
    g: Functions,
    density: ImageBuf<T>,
    dyes: Seq<[Double; 3]>,
    base: Seq<Double>,
    light: Seq<Double>,
    norm: Double,
    cat: [[Double; 3]; 3],
    m: [[Double; 3]; 3],
    r: ImageBuf<T>,
    k: int,
    j: int,
    target: (real, real, real),
)
    requires
        lossless(ar, g),
        has_tens(g),
        density.valid(),
        finite_image(density),
        finite_tables(dyes, base, light, observer()),
        is_bright(light, observer()),
        norm.finite(),
        0real < double_value(norm),
        finite_matrix(cat),
        finite_matrix(m),
        is_scanned(ar, density, dyes, base, light, norm, cat, m, r),
        0 <= k < density.data@.len() / 3,
        0 <= j < 3,
        ({
            let v = (
                colour_seen(g, density, dyes, base, light, norm, k, 0),
                colour_seen(g, density, dyes, base, light, norm, k, 1),
                colour_seen(g, density, dyes, base, light, norm, k, 2),
            );
            target == (mapped(cat, v, 0), mapped(cat, v, 1), mapped(cat, v, 2))
        }),
    ensures
        number_finite(r.data@[3 * k + j].number()),
        value_of(r.data@[3 * k + j]) == mapped(m, target, j),
{
    let d = densities(density.data@, k);
    let log = log_xyz(d, dyes, base, light, norm);
    let f = rgb_value(cat, m, log, j);
    assert(scan_holds(ar, density, dyes, base, light, norm, cat, m, r, k));
    lemma_log_xyz(g, density, dyes, base, light, norm, k, 0);
    lemma_log_xyz(g, density, dyes, base, light, norm, k, 1);
    lemma_log_xyz(g, density, dyes, base, light, norm, k, 2);
    lemma_rgb_value(g, cat, m, log, j);
    let x = r.data@[3 * k + j];
    x.lemma_forms(g, f);
    T::lemma_stored(g, f);
    lemma_lossless(ar, g, T::stored(f), x.number());
}

/// The light itself scans to white: without rounding, where what is seen of a
/// pixel is the white that is adapted from, the pixel is the white that is
/// adapted to, brought to RGB.
pub proof fn lemma_white_pixel<T: Sample, A: Arithmetic>(
    ar: &A,
    g: Functions,
    density: ImageBuf<T>,
    dyes: Seq<[Double; 3]>,
    base: Seq<Double>,
    light: Seq<Double>,
    norm: Double,
    whites: ([Double; 3], [Double; 3]),
    cat: [[Double; 3]; 3],
    m: [[Double; 3]; 3],
    r: ImageBuf<T>,
    k: int,
    j: int,
)
    requires
        lossless(ar, g),
        has_tens(g),
        density.valid(),
        finite_image(density),
        finite_tables(dyes, base, light, observer()),
        is_bright(light, observer()),
        norm.finite(),
        0real < double_value(norm),
        whites.0@[0].finite() && whites.0@[1].finite() && whites.0@[2].finite(),
        whites.1@[0].finite() && whites.1@[1].finite() && whites.1@[2].finite(),
        is_adaptation(ar, whites.0, whites.1, cat),
        exact(g, response(0, leaves3(whites.0))) != 0real,
        exact(g, response(1, leaves3(whites.0))) != 0real,
        exact(g, response(2, leaves3(whites.0))) != 0real,
        finite_matrix(m),
        is_scanned(ar, density, dyes, base, light, norm, cat, m, r),
        0 <= k < density.data@.len() / 3,
        0 <= j < 3,
        white_of(whites.0) == (
            colour_seen(g, density, dyes, base, light, norm, k, 0),
            colour_seen(g, density, dyes, base, light, norm, k, 1),
            colour_seen(g, density, dyes, base, light, norm, k, 2),
        ),
    ensures
        size_of_real(value_of(r.data@[3 * k + j]) - mapped(m, white_of(whites.1), j)) <= row_size(
            m,
            j,
        ) * adaptation_error(whites.1),
{
    lemma_cat_finite(ar, g, whites.0, whites.1, cat);
    lemma_cat_maps_white(ar, g, whites.0, whites.1, cat, 0);
    lemma_cat_maps_white(ar, g, whites.0, whites.1, cat, 1);
    lemma_cat_maps_white(ar, g, whites.0, whites.1, cat, 2);
    let w = white_of(whites.0);
    let target = (mapped(cat, w, 0), mapped(cat, w, 1), mapped(cat, w, 2));
    lemma_scan_adapts(ar, g, density, dyes, base, light, norm, cat, m, r, k, j, target);
    lemma_mapped_close(m, target, white_of(whites.1), adaptation_error(whites.1), j);
}

/// A colour that a table gives is adapted as others are: without rounding, the
/// pixel is the adapted colour of the three logarithms, brought to RGB.
pub proof fn lemma_table_adapts<T: Sample, A: Arithmetic>(
    ar: &A,
    g: Functions,
    cat: [[Double; 3]; 3],
    m: [[Double; 3]; 3],
    log: [Double; 3],
    r: ImageBuf<T>,
    k: int,
    j: int,
    target: (real, real, real),
)
    requires
        lossless(ar, g),
        finite_matrix(cat),
        finite_matrix(m),
        log@[0].finite() && log@[1].finite() && log@[2].finite(),
        colour_holds(ar, cat, m, log, r, k),
        0 <= j < 3,
        ({
            let v = (
                ten(g, double_value(log@[0])),
                ten(g, double_value(log@[1])),
                ten(g, double_value(log@[2])),
            );
            target == (mapped(cat, v, 0), mapped(cat, v, 1), mapped(cat, v, 2))
        }),
    ensures
        number_finite(r.data@[3 * k + j].number()),
        value_of(r.data@[3 * k + j]) == mapped(m, target, j),
{
    let v = leaves3(log);
    let f = rgb_value(cat, m, v, j);
    lemma_rgb_value(g, cat, m, v, j);
    let x = r.data@[3 * k + j];
    x.lemma_forms(g, f);
    T::lemma_stored(g, f);
    lemma_lossless(ar, g, T::stored(f), x.number());
}

// ── The viewing white ────────────────────────────────────────────────────

/// What the observer sees of a light, in X, Y or Z.
pub open spec fn light_seen(power: Seq<Double>, c: int, n: int) -> real
    decreases n,
{
    if n <= 0 {
        0real
    } else {
        light_seen(power, c, n - 1) + double_value(power[n - 1]) * double_value(
            matching(c)[n - 1],
        )
    }
}

proof fn lemma_light_seen(g: Functions, power: Seq<Double>, c: int, n: int)
    requires
        forall|i: int| 0 <= i < n ==> (#[trigger] power[i]).finite(),
        forall|i: int| 0 <= i < n ==> (#[trigger] matching(c)[i]).finite(),
    ensures
        finite_leaves(light_sum(power, matching(c), n)),
        exact(g, light_sum(power, matching(c), n)) == light_seen(power, c, n),
    decreases n,
{
    lemma_zero_values();
    reveal_with_fuel(exact, 3);
    reveal_with_fuel(finite_leaves, 3);
    if n > 0 {
        lemma_light_seen(g, power, c, n - 1);
        assert(power[n - 1].finite() && matching(c)[n - 1].finite());
    }
}

/// The viewing white is the colour of the viewing light: without rounding, its
/// X, Y and Z are to each other as what the observer sees of the light, and Y
/// is one.
pub proof fn lemma_viewing_white<A: Arithmetic>(
    ar: &A,
    g: Functions,
    power: Seq<Double>,
    n: int,
    norm: Double,
    r: [Double; 3],
)
    requires
        lossless(ar, g),
        forall|i: int| 0 <= i < n ==> (#[trigger] power[i]).finite(),
        forall|i: int| 0 <= i < n ==> (#[trigger] matching(0)[i]).finite(),
        forall|i: int| 0 <= i < n ==> (#[trigger] matching(1)[i]).finite(),
        forall|i: int| 0 <= i < n ==> (#[trigger] matching(2)[i]).finite(),
        0real <= light_seen(power, 0, n),
        0real < light_seen(power, 1, n),
        0real <= light_seen(power, 2, n),
        norm.finite(),
        0real < double_value(norm),
        is_viewing_white(ar, power, n, norm, r),
    ensures
        r@[0].finite() && r@[1].finite() && r@[2].finite(),
        double_value(r@[1]) == 1real,
        double_value(r@[0]) * light_seen(power, 1, n) == light_seen(power, 0, n),
        double_value(r@[2]) * light_seen(power, 1, n) == light_seen(power, 2, n),
{
    lemma_one_values();
    lemma_light_seen(g, power, 0, n);
    lemma_light_seen(g, power, 1, n);
    lemma_light_seen(g, power, 2, n);
    let (x, y) = (light_share(power, n, norm, 0), light_share(power, n, norm, 1));
    let one: Formula = constant(ONE);
    reveal_with_fuel(exact, 5);
    reveal_with_fuel(finite_leaves, 5);
    assert(finite_leaves(x) && finite_leaves(y));
    let (fx, fz) = (over(x, y), over(minus(minus(one, x), y), y));
    assert(finite_leaves(fx));
    assert(finite_leaves(fz));
    lemma_lossless_double(ar, g, fx, r@[0]);
    lemma_lossless_double(ar, g, fz, r@[2]);
    assert(r@[1] == Double { bits: ONE });
    let v = double_value(norm);
    let (a, b, c) = (light_seen(power, 0, n), light_seen(power, 1, n), light_seen(power, 2, n));
    lemma_quotient(a, v);
    lemma_quotient(b, v);
    lemma_quotient(c, v);
    let (p, q, s) = (a / v, b / v, c / v);
    assert(0real < q) by (nonlinear_arith)
        requires
            q * v == b,
            0real < b,
            0real < v,
    ;
    let t = p + q + s;
    lemma_quotient(p, t);
    lemma_quotient(q, t);
    let (sx, sy) = (exact(g, x), exact(g, y));
    assert(sx == p / t && sy == q / t);
    assert(0real < sy) by (nonlinear_arith)
        requires
            sy * t == q,
            0real < q,
            0real < t,
    ;
    let (rx, rz) = (double_value(r@[0]), double_value(r@[2]));
    lemma_ratio(sx, sy, rx);
    lemma_ratio(1real - sx - sy, sy, rz);
    lemma_widened(rx, sy, sx, t, v);
    lemma_widened(rz, sy, 1real - sx - sy, t, v);
    assert((1real - sx - sy) * t == t - sx * t - sy * t) by (nonlinear_arith);
}

proof fn lemma_quotient(a: real, v: real)
    by (nonlinear_arith)
    requires
        0real <= a,
        0real < v,
    ensures
        (a / v) * v == a,
        0real <= a / v,
{
    assert((a / v) * v == a);
}

proof fn lemma_ratio(a: real, b: real, r: real)
    by (nonlinear_arith)
    requires
        0real < b,
        r == a / b,
    ensures
        r * b == a,
{
}

/// Both sides of a product, twice scaled.
proof fn lemma_widened(r: real, b: real, a: real, t: real, v: real)
    requires
        r * b == a,
    ensures
        r * ((b * t) * v) == (a * t) * v,
{
    lemma_grouped(r, b, t);
    lemma_grouped(r, b * t, v);
}

} // verus!
