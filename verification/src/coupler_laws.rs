//! What couplers leave alone: a field of one exposure comes out at the density
//! that the film was measured at.

use vstd::prelude::*;

use crate::arith::{double, evaluates, is_double, is_single, minus, narrow, over, single, times};
use crate::arith::{widen, Arithmetic, Sample};
use crate::bits::{Double, Single};
use crate::couplers::{are_curves_before_dir, are_wide, are_wide_rows, curves_before_dir_with};
use crate::couplers::{inhibition_of, is_curve_before_dir, is_density_correction, is_difference};
use crate::couplers::{is_diffused, is_exposure_correction, is_inhibition, is_shifted_axis};
use crate::couplers::{is_silver, is_wide_row, pixel_inhibition, row_silver, shifted_exposure};
use crate::couplers::{in_pixels, silver_of, Diffusion, DirSettings, DirTables};
use crate::curve_laws::{is_on_curve, lemma_at_sample, lemma_interpolates, lemma_not_higher};
use crate::curve_laws::{lemma_not_lower, lemma_read, rises};
use crate::density_curves::{column, gamma_distance, highest_finite, is_gamma_axis, is_read};
use crate::density_curves::{is_single_extreme, least_at, lowest_finite, single_key, single_keys};
use crate::density_curves::{single_normalized, Search, GAMMA_TOLERANCE};
use crate::exact::{double_value, exact, finite_leaves, lemma_one_values, lemma_zero_values};
use crate::exact::{single_value, Functions};
use crate::gamma::{number_finite, value_of};
use crate::grain_laws::finite_samples;
use crate::image::ImageBuf;
use crate::interp::{interpolates, num};
use crate::lossless::{lemma_lossless, lemma_lossless_double, lemma_lossless_single, lossless};
use crate::meter_laws::finite_image;
use crate::rounding::{lemma_order, lemma_short_order};

verus! {

/// The densities of a row.
pub open spec fn row_of(row: [Single; 3]) -> (real, real, real) {
    (single_value(row@[0]), single_value(row@[1]), single_value(row@[2]))
}

/// Rows of finite numbers.
pub open spec fn finite_curves(rows: Seq<[Single; 3]>) -> bool {
    forall|i: int, c: int|
        0 <= i < rows.len() && 0 <= c < 3 ==> (#[trigger] rows[i]@[c]).finite()
}

/// How much exposure a row of densities takes off a receiver that the three
/// donors act on by `k`: each density times its coupling. On positive film
/// what is missing to the highest density counts.
pub open spec fn restraint(
    positive: bool,
    top: (real, real, real),
    v: (real, real, real),
    k: (real, real, real),
) -> real {
    if positive {
        (top.0 - v.0) * k.0 + (top.1 - v.1) * k.1 + (top.2 - v.2) * k.2
    } else {
        v.0 * k.0 + v.1 * k.1 + v.2 * k.2
    }
}

/// The couplings of the three donors onto receiver `c`.
pub open spec fn onto(m: [[Single; 3]; 3], c: int) -> (real, real, real) {
    (single_value(m@[0]@[c]), single_value(m@[1]@[c]), single_value(m@[2]@[c]))
}

pub open spec fn finite_couplings(m: [[Single; 3]; 3]) -> bool {
    forall|i: int, j: int| 0 <= i < 3 && 0 <= j < 3 ==> (#[trigger] m@[i]@[j]).finite()
}

/// `v` is the highest number of a column.
pub open spec fn is_highest(rows: Seq<[Single; 3]>, c: int, v: real) -> bool {
    &&& exists|i: int| 0 <= i < rows.len() && #[trigger] single_value(rows[i]@[c]) == v
    &&& forall|i: int| 0 <= i < rows.len() ==> single_value((#[trigger] rows[i])@[c]) <= v
}

/// `v` is the lowest number of a column.
pub open spec fn is_lowest(rows: Seq<[Single; 3]>, c: int, v: real) -> bool {
    &&& exists|i: int| 0 <= i < rows.len() && #[trigger] single_value(rows[i]@[c]) == v
    &&& forall|i: int| 0 <= i < rows.len() ==> v <= single_value((#[trigger] rows[i])@[c])
}

/// The log exposures at which receiver `c` develops to its densities once the
/// couplers act.
pub open spec fn restrained(
    positive: bool,
    top: (real, real, real),
    curves: Seq<[Single; 3]>,
    k: (real, real, real),
    log_exposure: Seq<Single>,
) -> spec_fn(int) -> real {
    |j: int|
        single_value(log_exposure[j]) - restraint(positive, top, row_of(curves[j]), k)
}

// ── Extremes ─────────────────────────────────────────────────────────────

proof fn lemma_single_extreme(rows: Seq<[Single; 3]>, c: int, s: Search, r: Single)
    requires
        finite_curves(rows),
        rows.len() > 0,
        0 <= c < 3,
        is_single_extreme(column(rows, c), s, r),
    ensures
        r.finite(),
        s.lowest ==> is_lowest(rows, c, single_value(r)),
        !s.lowest ==> is_highest(rows, c, single_value(r)),
{
    let col = column(rows, c);
    let keys = single_keys(col, s);
    assert(rows[0]@[c].finite());
    assert(single_key(col[0], s) is Some);
    let i = choose|i: int| #[trigger] least_at(keys, i) && r == col[i];
    assert(rows[i]@[c].finite());
    assert(single_value(rows[i]@[c]) == single_value(r));
    assert forall|j: int| 0 <= j < rows.len() implies (s.lowest ==> single_value(r)
        <= single_value((#[trigger] rows[j])@[c])) && (!s.lowest ==> single_value(rows[j]@[c])
        <= single_value(r)) by {
        assert(rows[j]@[c].finite());
        assert(keys[j] is Some && keys[i] is Some);
        lemma_short_order(r, col[j]);
        lemma_short_order(col[j], r);
    }
}

proof fn lemma_highest_unique(rows: Seq<[Single; 3]>, c: int, a: real, b: real)
    requires
        is_highest(rows, c, a),
        is_highest(rows, c, b),
    ensures
        a == b,
{
    let i = choose|i: int| 0 <= i < rows.len() && #[trigger] single_value(rows[i]@[c]) == a;
    let j = choose|j: int| 0 <= j < rows.len() && #[trigger] single_value(rows[j]@[c]) == b;
    assert(single_value(rows[i]@[c]) <= b);
    assert(single_value(rows[j]@[c]) <= a);
}

proof fn lemma_lowest_unique(rows: Seq<[Single; 3]>, c: int, a: real, b: real)
    requires
        is_lowest(rows, c, a),
        is_lowest(rows, c, b),
    ensures
        a == b,
{
    let i = choose|i: int| 0 <= i < rows.len() && #[trigger] single_value(rows[i]@[c]) == a;
    let j = choose|j: int| 0 <= j < rows.len() && #[trigger] single_value(rows[j]@[c]) == b;
    assert(b <= single_value(rows[i]@[c]));
    assert(a <= single_value(rows[j]@[c]));
}

// ── The curves before the couplers ───────────────────────────────────────

/// One exposure of the shifted axis.
proof fn lemma_shifted<A: Arithmetic>(
    ar: &A,
    g: Functions,
    positive: bool,
    top: [Single; 3],
    row: [Single; 3],
    matrix: [[Single; 3]; 3],
    exposure: Single,
    c: int,
    r: Single,
)
    requires
        lossless(ar, g),
        top@[0].finite() && top@[1].finite() && top@[2].finite(),
        row@[0].finite() && row@[1].finite() && row@[2].finite(),
        finite_couplings(matrix),
        exposure.finite(),
        0 <= c < 3,
        is_single(ar, shifted_exposure(positive, top, row, matrix, exposure, c), r),
    ensures
        r.finite(),
        single_value(r) == single_value(exposure) - restraint(
            positive,
            row_of(top),
            row_of(row),
            onto(matrix, c),
        ),
{
    assert(matrix@[0]@[c].finite() && matrix@[1]@[c].finite() && matrix@[2]@[c].finite());
    let f = shifted_exposure(positive, top, row, matrix, exposure, c);
    let s = row_silver(positive, top, row);
    let i = inhibition_of(s, matrix, c);
    assert(finite_leaves(s[0]) && finite_leaves(s[1]) && finite_leaves(s[2])) by {
        reveal_with_fuel(finite_leaves, 3);
    }
    assert(finite_leaves(i)) by {
        reveal_with_fuel(finite_leaves, 4);
    }
    assert(exact(g, i) == restraint(positive, row_of(top), row_of(row), onto(matrix, c))) by {
        reveal_with_fuel(exact, 5);
    }
    reveal_with_fuel(finite_leaves, 2);
    reveal_with_fuel(exact, 2);
    lemma_lossless_single(ar, g, f, r);
}

/// The tables of the film: finite, and as many rows as exposures.
pub open spec fn film_tables(
    curves: Seq<[Single; 3]>,
    log_exposure: Seq<Single>,
    matrix: [[Single; 3]; 3],
) -> bool {
    &&& 0 < curves.len() <= usize::MAX
    &&& curves.len() <= log_exposure.len()
    &&& finite_curves(curves)
    &&& forall|i: int| 0 <= i < log_exposure.len() ==> (#[trigger] log_exposure[i]).finite()
    &&& finite_couplings(matrix)
}

/// The curve of one receiver before the couplers: the measured densities over
/// the exposures that the couplers leave.
proof fn lemma_curve_before<A: Arithmetic>(
    ar: &A,
    g: Functions,
    positive: bool,
    top: (real, real, real),
    curves: Seq<[Single; 3]>,
    matrix: [[Single; 3]; 3],
    log_exposure: Seq<Single>,
    r: Seq<[Single; 3]>,
    k: int,
    c: int,
)
    requires
        lossless(ar, g),
        film_tables(curves, log_exposure, matrix),
        is_highest(curves, 0, top.0) && is_highest(curves, 1, top.1) && is_highest(
            curves,
            2,
            top.2,
        ),
        are_curves_before_dir(ar, positive, curves, matrix, log_exposure, r),
        0 <= c < 3,
        0 <= k < curves.len(),
        rises(
            restrained(positive, top, curves, onto(matrix, c), log_exposure),
            curves.len() as int,
        ),
    ensures
        r[k]@[c].finite(),
        is_on_curve(
            curves.len() as int,
            restrained(positive, top, curves, onto(matrix, c), log_exposure),
            |j: int| single_value(curves[j]@[c]),
            single_value(log_exposure[k]),
            single_value(r[k]@[c]),
        ),
{
    let n = curves.len() as int;
    let tops = choose|tops: [Single; 3]|
        {
            &&& forall|c: int|
                0 <= c < 3 ==> is_single_extreme(
                    column(curves, c),
                    highest_finite(),
                    #[trigger] tops@[c],
                )
            &&& #[trigger] curves_before_dir_with(
                ar,
                positive,
                tops,
                curves,
                matrix,
                log_exposure,
                r,
            )
        };
    lemma_single_extreme(curves, 0, highest_finite(), tops@[0]);
    lemma_single_extreme(curves, 1, highest_finite(), tops@[1]);
    lemma_single_extreme(curves, 2, highest_finite(), tops@[2]);
    lemma_highest_unique(curves, 0, top.0, single_value(tops@[0]));
    lemma_highest_unique(curves, 1, top.1, single_value(tops@[1]));
    lemma_highest_unique(curves, 2, top.2, single_value(tops@[2]));
    assert(row_of(tops) == top);
    let col = column(r, c);
    assert(is_curve_before_dir(ar, positive, tops, curves, matrix, log_exposure, c, col));
    let axis = choose|axis: Seq<Single>|
        #[trigger] is_shifted_axis(ar, positive, tops, curves, matrix, log_exposure, c, axis)
            && forall|j: int|
            0 <= j < col.len() ==> interpolates(
                ar,
                axis,
                column(curves, c),
                log_exposure[j],
                #[trigger] col[j],
            );
    let goal = restrained(positive, top, curves, onto(matrix, c), log_exposure);
    let xs = |i: int| value_of(axis[i]);
    assert forall|j: int| 0 <= j < n implies (#[trigger] axis[j]).finite() && single_value(axis[j])
        == goal(j) by {
        assert(curves[j]@[0].finite() && curves[j]@[1].finite() && curves[j]@[2].finite());
        assert(is_single(
            ar,
            shifted_exposure(positive, tops, curves[j], matrix, log_exposure[j], c),
            axis[j],
        ));
        lemma_shifted(
            ar,
            g,
            positive,
            tops,
            curves[j],
            matrix,
            log_exposure[j],
            c,
            axis[j],
        );
    }
    assert forall|i: int, j: int| 0 <= i < j < n implies #[trigger] xs(i) < #[trigger] xs(j) by {
        assert(goal(i) < goal(j));
        assert(axis[i].finite() && axis[j].finite());
    }
    let ds = column(curves, c);
    assert forall|i: int| 0 <= i < ds.len() implies number_finite((#[trigger] ds[i]).number()) by {
        assert(curves[i]@[c].finite());
    }
    assert(finite_samples(axis)) by {
        assert forall|i: int| 0 <= i < axis.len() implies number_finite(
            (#[trigger] axis[i]).number(),
        ) by {
            assert(axis[i].finite());
        }
    }
    assert(interpolates(ar, axis, ds, log_exposure[k], col[k]));
    assert(col[k] == r[k]@[c]);
    lemma_interpolates(ar, g, axis, ds, log_exposure[k], col[k]);
    let ys = |j: int| single_value(curves[j]@[c]);
    let zs = |i: int| value_of(ds[i]);
    crate::curve_laws::lemma_same_curve(
        n,
        xs,
        zs,
        goal,
        ys,
        single_value(log_exposure[k]),
        single_value(r[k]@[c]),
    );
}

/// Couplers leave the film on its own curve: without rounding, where an
/// exposure less what the couplers take off it is a point of the axis, the
/// curve before the couplers has the measured density at that point.
pub proof fn lemma_couplers_undone<A: Arithmetic>(
    ar: &A,
    g: Functions,
    positive: bool,
    top: (real, real, real),
    curves: Seq<[Single; 3]>,
    matrix: [[Single; 3]; 3],
    log_exposure: Seq<Single>,
    r: Seq<[Single; 3]>,
    j: int,
    k: int,
    c: int,
)
    requires
        lossless(ar, g),
        film_tables(curves, log_exposure, matrix),
        is_highest(curves, 0, top.0) && is_highest(curves, 1, top.1) && is_highest(
            curves,
            2,
            top.2,
        ),
        are_curves_before_dir(ar, positive, curves, matrix, log_exposure, r),
        0 <= c < 3,
        0 <= j < curves.len(),
        0 <= k < curves.len(),
        rises(
            restrained(positive, top, curves, onto(matrix, c), log_exposure),
            curves.len() as int,
        ),
        single_value(log_exposure[j]) - restraint(
            positive,
            top,
            row_of(curves[j]),
            onto(matrix, c),
        ) == single_value(log_exposure[k]),
    ensures
        r[k]@[c].finite(),
        single_value(r[k]@[c]) == single_value(curves[j]@[c]),
{
    lemma_curve_before(ar, g, positive, top, curves, matrix, log_exposure, r, k, c);
    lemma_at_sample(
        curves.len() as int,
        restrained(positive, top, curves, onto(matrix, c), log_exposure),
        |i: int| single_value(curves[i]@[c]),
        single_value(log_exposure[k]),
        single_value(r[k]@[c]),
        j,
    );
}

/// With couplings that are not below zero, film develops further before the
/// couplers act: on negative film the curve before them is nowhere below the
/// measured one, and on positive film, whose curves fall, nowhere above it.
pub proof fn lemma_couplers_hold_back<A: Arithmetic>(
    ar: &A,
    g: Functions,
    positive: bool,
    top: (real, real, real),
    curves: Seq<[Single; 3]>,
    matrix: [[Single; 3]; 3],
    log_exposure: Seq<Single>,
    r: Seq<[Single; 3]>,
    k: int,
    c: int,
)
    requires
        lossless(ar, g),
        film_tables(curves, log_exposure, matrix),
        is_highest(curves, 0, top.0) && is_highest(curves, 1, top.1) && is_highest(
            curves,
            2,
            top.2,
        ),
        are_curves_before_dir(ar, positive, curves, matrix, log_exposure, r),
        0 <= c < 3,
        0 <= k < curves.len(),
        rises(
            restrained(positive, top, curves, onto(matrix, c), log_exposure),
            curves.len() as int,
        ),
        forall|i: int, d: int|
            0 <= i < 3 && 0 <= d < 3 ==> 0real <= single_value(#[trigger] matrix@[i]@[d]),
        !positive ==> forall|i: int, d: int|
            0 <= i < curves.len() && 0 <= d < 3 ==> 0real <= single_value(
                #[trigger] curves[i]@[d],
            ),
    ensures
        (forall|a: int, b: int|
            0 <= a <= b < curves.len() ==> single_value((#[trigger] curves[a])@[c]) <= single_value(
                (#[trigger] curves[b])@[c],
            )) ==> single_value(curves[k]@[c]) <= single_value(r[k]@[c]),
        (forall|a: int, b: int|
            0 <= a <= b < curves.len() ==> single_value((#[trigger] curves[b])@[c]) <= single_value(
                (#[trigger] curves[a])@[c],
            )) ==> single_value(r[k]@[c]) <= single_value(curves[k]@[c]),
{
    let n = curves.len() as int;
    lemma_curve_before(ar, g, positive, top, curves, matrix, log_exposure, r, k, c);
    let xs = restrained(positive, top, curves, onto(matrix, c), log_exposure);
    let ys = |i: int| single_value(curves[i]@[c]);
    let v = row_of(curves[k]);
    assert(0real <= single_value(matrix@[0]@[c]));
    assert(0real <= single_value(matrix@[1]@[c]));
    assert(0real <= single_value(matrix@[2]@[c]));
    let m = onto(matrix, c);
    if positive {
        lemma_not_negative(top.0 - v.0, m.0);
        lemma_not_negative(top.1 - v.1, m.1);
        lemma_not_negative(top.2 - v.2, m.2);
    } else {
        assert(0real <= single_value(curves[k]@[0]));
        assert(0real <= single_value(curves[k]@[1]));
        assert(0real <= single_value(curves[k]@[2]));
        lemma_not_negative(v.0, m.0);
        lemma_not_negative(v.1, m.1);
        lemma_not_negative(v.2, m.2);
    }
    assert(xs(k) <= single_value(log_exposure[k]));
    let (q, w) = (single_value(log_exposure[k]), single_value(r[k]@[c]));
    if forall|a: int, b: int|
        0 <= a <= b < n ==> single_value((#[trigger] curves[a])@[c]) <= single_value(
            (#[trigger] curves[b])@[c],
        ) {
        lemma_not_lower(n, xs, ys, q, w, k);
    }
    if forall|a: int, b: int|
        0 <= a <= b < n ==> single_value((#[trigger] curves[b])@[c]) <= single_value(
            (#[trigger] curves[a])@[c],
        ) {
        lemma_not_higher(n, xs, ys, q, w, k);
    }
}

proof fn lemma_not_negative(a: real, b: real)
    by (nonlinear_arith)
    requires
        0real <= a,
        0real <= b,
    ensures
        0real <= a * b,
{
}

// ── The exposure of a picture ────────────────────────────────────────────

/// The three numbers of a pixel.
pub open spec fn pixel_of<T: Sample>(img: ImageBuf<T>, p: int) -> (real, real, real) {
    (value_of(img.data@[3 * p]), value_of(img.data@[3 * p + 1]), value_of(img.data@[3 * p + 2]))
}

/// Three doubles as numbers.
pub open spec fn triple(v: [Double; 3]) -> (real, real, real) {
    (double_value(v@[0]), double_value(v@[1]), double_value(v@[2]))
}

/// The couplings of the three donors onto receiver `c`, in double precision.
pub open spec fn wide_onto(m: [[Double; 3]; 3], c: int) -> (real, real, real) {
    (double_value(m@[0]@[c]), double_value(m@[1]@[c]), double_value(m@[2]@[c]))
}

pub open spec fn finite_wide(m: [[Double; 3]; 3]) -> bool {
    forall|i: int, j: int| 0 <= i < 3 && 0 <= j < 3 ==> (#[trigger] m@[i]@[j]).finite()
}

proof fn lemma_pixel_inhibition<T: Sample, A: Arithmetic>(
    ar: &A,
    g: Functions,
    p0: T,
    p1: T,
    p2: T,
    m: [[Double; 3]; 3],
    c: int,
    r: T,
)
    requires
        lossless(ar, g),
        number_finite(p0.number()) && number_finite(p1.number()) && number_finite(p2.number()),
        finite_wide(m),
        0 <= c < 3,
        evaluates(ar, pixel_inhibition(p0, p1, p2, m, c), r.number()),
    ensures
        number_finite(r.number()),
        value_of(r) == value_of(p0) * double_value(m@[0]@[c]) + value_of(p1) * double_value(
            m@[1]@[c],
        ) + value_of(p2) * double_value(m@[2]@[c]),
{
    assert(m@[0]@[c].finite() && m@[1]@[c].finite() && m@[2]@[c].finite());
    let (a, b, d) = (double(m@[0]@[c]), double(m@[1]@[c]), double(m@[2]@[c]));
    p0.lemma_forms(g, a);
    p0.lemma_forms(g, b);
    p0.lemma_forms(g, d);
    T::lemma_stored(g, a);
    T::lemma_stored(g, b);
    T::lemma_stored(g, d);
    let f = pixel_inhibition(p0, p1, p2, m, c);
    assert(finite_leaves(f)) by {
        reveal_with_fuel(finite_leaves, 4);
    }
    assert(exact(g, f) == value_of(p0) * double_value(m@[0]@[c]) + value_of(p1) * double_value(
        m@[1]@[c],
    ) + value_of(p2) * double_value(m@[2]@[c])) by {
        reveal_with_fuel(exact, 4);
    }
    lemma_lossless(ar, g, f, r.number());
}

/// The silver of one number.
proof fn lemma_silver<T: Sample, A: Arithmetic>(
    ar: &A,
    g: Functions,
    density: ImageBuf<T>,
    top: [Double; 3],
    positive: bool,
    silver: ImageBuf<T>,
    i: int,
)
    requires
        lossless(ar, g),
        finite_image(density),
        top@[0].finite() && top@[1].finite() && top@[2].finite(),
        is_silver(ar, density, top, positive, silver),
        0 <= i < density.data@.len(),
    ensures
        number_finite(silver.data@[i].number()),
        value_of(silver.data@[i]) == if positive {
            double_value(top@[i % 3]) - value_of(density.data@[i])
        } else {
            value_of(density.data@[i])
        },
{
    let t = double(top@[i % 3]);
    let f = silver_of(positive, T::stored(t), num(density.data@[i]));
    assert(evaluates(ar, f, silver.data@[i].number()));
    density.data@[i].lemma_forms(g, t);
    T::lemma_stored(g, t);
    reveal_with_fuel(finite_leaves, 2);
    reveal_with_fuel(exact, 2);
    lemma_lossless(ar, g, f, silver.data@[i].number());
}

/// Couplers take exposure off: without rounding and without diffusion, each
/// receiver of a pixel loses its restraint, each donor's density times its
/// coupling.
pub proof fn lemma_exposure_taken_off<T: Sample, A: Arithmetic>(
    ar: &A,
    g: Functions,
    log_raw: ImageBuf<T>,
    density: ImageBuf<T>,
    top: [Double; 3],
    matrix: [[Double; 3]; 3],
    spread: Diffusion,
    positive: bool,
    r: ImageBuf<T>,
    p: int,
    c: int,
)
    requires
        lossless(ar, g),
        log_raw.valid(),
        density.valid(),
        log_raw.data@.len() == density.data@.len(),
        finite_image(log_raw),
        finite_image(density),
        top@[0].finite() && top@[1].finite() && top@[2].finite(),
        finite_wide(matrix),
        !(Single { bits: 0 }).below(spread.size),
        is_exposure_correction(ar, log_raw, density, top, matrix, spread, positive, r),
        0 <= p < density.data@.len() / 3,
        0 <= c < 3,
    ensures
        r.data@.len() == log_raw.data@.len(),
        number_finite(r.data@[3 * p + c].number()),
        value_of(r.data@[3 * p + c]) == value_of(log_raw.data@[3 * p + c]) - restraint(
            positive,
            triple(top),
            pixel_of(density, p),
            wide_onto(matrix, c),
        ),
{
    let (silver, held, spread_out) = choose|
        silver: ImageBuf<T>,
        held: ImageBuf<T>,
        spread_out: ImageBuf<T>,
    |
        {
            &&& #[trigger] is_silver(ar, density, top, positive, silver)
            &&& #[trigger] is_inhibition(
                ar,
                silver,
                matrix,
                log_raw.width,
                log_raw.height,
                held,
            )
            &&& is_diffused(ar, held, spread.size, spread.tail, spread.weight, spread_out)
            &&& #[trigger] is_difference(ar, log_raw, spread_out, r)
        };
    let i = 3 * p + c;
    lemma_silver(ar, g, density, top, positive, silver, 3 * p);
    lemma_silver(ar, g, density, top, positive, silver, 3 * p + 1);
    lemma_silver(ar, g, density, top, positive, silver, 3 * p + 2);
    assert(i % 3 == c && i - i % 3 == 3 * p);
    assert((3 * p) % 3 == 0 && (3 * p + 1) % 3 == 1 && (3 * p + 2) % 3 == 2);
    assert(evaluates(
        ar,
        pixel_inhibition(
            silver.data@[i - i % 3],
            silver.data@[i - i % 3 + 1],
            silver.data@[i - i % 3 + 2],
            matrix,
            i % 3,
        ),
        held.data@[i].number(),
    ));
    lemma_pixel_inhibition(
        ar,
        g,
        silver.data@[3 * p],
        silver.data@[3 * p + 1],
        silver.data@[3 * p + 2],
        matrix,
        c,
        held.data@[i],
    );
    assert(spread_out.data@[i] == held.data@[i]);
    let f = minus(num(log_raw.data@[i]), num(spread_out.data@[i]));
    assert(evaluates(ar, f, r.data@[i].number()));
    reveal_with_fuel(finite_leaves, 2);
    reveal_with_fuel(exact, 2);
    lemma_lossless(ar, g, f, r.data@[i].number());
}

// ── The density of a picture ─────────────────────────────────────────────

/// A film whose lowest densities are taken off.
pub open spec fn is_lowered(
    curves: Seq<[Single; 3]>,
    low: (real, real, real),
    norm: Seq<[Single; 3]>,
) -> bool {
    &&& norm.len() == curves.len()
    &&& forall|i: int|
        0 <= i < curves.len() ==> row_of(#[trigger] norm[i]) == lowered(curves[i], low)
}

/// A row without the lowest densities.
pub open spec fn lowered(row: [Single; 3], low: (real, real, real)) -> (real, real, real) {
    (
        single_value(row@[0]) - low.0,
        single_value(row@[1]) - low.1,
        single_value(row@[2]) - low.2,
    )
}

/// One of three.
pub open spec fn part(v: (real, real, real), c: int) -> real {
    if c == 0 {
        v.0
    } else if c == 1 {
        v.1
    } else {
        v.2
    }
}

proof fn lemma_lowered<A: Arithmetic>(
    ar: &A,
    g: Functions,
    curves: Seq<[Single; 3]>,
    low: (real, real, real),
    lows: [Single; 3],
    norm: Seq<[Single; 3]>,
)
    requires
        lossless(ar, g),
        finite_curves(curves),
        curves.len() > 0,
        is_lowest(curves, 0, low.0) && is_lowest(curves, 1, low.1) && is_lowest(curves, 2, low.2),
        single_normalized(ar, curves, lows, norm),
    ensures
        finite_curves(norm),
        is_lowered(curves, low, norm),
{
    lemma_single_extreme(curves, 0, lowest_finite(), lows@[0]);
    lemma_single_extreme(curves, 1, lowest_finite(), lows@[1]);
    lemma_single_extreme(curves, 2, lowest_finite(), lows@[2]);
    lemma_lowest_unique(curves, 0, low.0, single_value(lows@[0]));
    lemma_lowest_unique(curves, 1, low.1, single_value(lows@[1]));
    lemma_lowest_unique(curves, 2, low.2, single_value(lows@[2]));
    assert forall|i: int, c: int| 0 <= i < norm.len() && 0 <= c < 3 implies (
    #[trigger] norm[i]@[c]).finite() && single_value(norm[i]@[c]) == single_value(curves[i]@[c])
        - single_value(lows@[c]) by {
        assert(curves[i]@[c].finite());
        let f = minus(single(curves[i]@[c]), single(lows@[c]));
        assert(is_single(ar, f, norm[i]@[c]));
        reveal_with_fuel(finite_leaves, 2);
        reveal_with_fuel(exact, 2);
        lemma_lossless_single(ar, g, f, norm[i]@[c]);
    }
    assert forall|i: int| 0 <= i < curves.len() implies row_of(#[trigger] norm[i]) == lowered(
        curves[i],
        low,
    ) by {
        assert(norm[i]@[0].finite() && norm[i]@[1].finite() && norm[i]@[2].finite());
    }
}

/// What is known of a film that is corrected.
pub open spec fn is_measured_film(
    curves: Seq<[Single; 3]>,
    log_exposure: Seq<Single>,
    matrix: [[Double; 3]; 3],
    s: DirSettings,
    low: (real, real, real),
    high: (real, real, real),
) -> bool {
    &&& 0 < curves.len() <= usize::MAX
    &&& curves.len() == log_exposure.len()
    &&& finite_curves(curves)
    &&& forall|i: int| 0 <= i < log_exposure.len() ==> (#[trigger] log_exposure[i]).finite()
    &&& finite_wide(matrix)
    &&& s.amount.finite()
    &&& is_lowest(curves, 0, low.0) && is_lowest(curves, 1, low.1) && is_lowest(curves, 2, low.2)
    &&& is_highest(curves, 0, high.0) && is_highest(curves, 1, high.1) && is_highest(
        curves,
        2,
        high.2,
    )
}

/// The couplings onto receiver `c`, by the amount of the couplers.
pub open spec fn scaled_onto(m: [[Double; 3]; 3], amount: Double, c: int) -> (real, real, real) {
    let a = double_value(amount);
    (
        double_value(m@[0]@[c]) * a,
        double_value(m@[1]@[c]) * a,
        double_value(m@[2]@[c]) * a,
    )
}

/// The span of the densities of a film.
pub open spec fn span(low: (real, real, real), high: (real, real, real)) -> (real, real, real) {
    (high.0 - low.0, high.1 - low.1, high.2 - low.2)
}

/// What the couplers take off receiver `c` where the film has its measured
/// densities of row `j`.
pub open spec fn own_restraint(
    curves: Seq<[Single; 3]>,
    matrix: [[Double; 3]; 3],
    s: DirSettings,
    low: (real, real, real),
    high: (real, real, real),
    j: int,
    c: int,
) -> real {
    restraint(
        s.positive,
        span(low, high),
        lowered(curves[j], low),
        scaled_onto(matrix, s.amount, c),
    )
}

/// The axis of receiver `c` with the couplers, rising.
pub open spec fn develops(
    curves: Seq<[Single; 3]>,
    log_exposure: Seq<Single>,
    matrix: [[Double; 3]; 3],
    s: DirSettings,
    low: (real, real, real),
    high: (real, real, real),
    c: int,
) -> bool {
    rises(
        |j: int|
            single_value(log_exposure[j]) - own_restraint(curves, matrix, s, low, high, j, c),
        curves.len() as int,
    )
}

/// The tables of the correction, as numbers: the scaled matrix, and the curves
/// before the couplers at the points where an exposure less its restraint is a
/// point of the axis.
proof fn lemma_tables<A: Arithmetic>(
    ar: &A,
    g: Functions,
    curves: Seq<[Single; 3]>,
    log_exposure: Seq<Single>,
    matrix: [[Double; 3]; 3],
    s: DirSettings,
    low: (real, real, real),
    high: (real, real, real),
    tables: DirTables,
    j: int,
    k: int,
    c: int,
)
    requires
        lossless(ar, g),
        is_measured_film(curves, log_exposure, matrix, s, low, high),
        develops(curves, log_exposure, matrix, s, low, high, c),
        tables.is_for(ar, s, log_exposure, curves, matrix),
        0 <= c < 3,
        0 <= j < curves.len(),
        0 <= k < curves.len(),
    ensures
        finite_wide(tables.matrix),
        wide_onto(tables.matrix, c) == scaled_onto(matrix, s.amount, c),
        tables.top@[0].finite() && tables.top@[1].finite() && tables.top@[2].finite(),
        row_of(tables.top) == span(low, high),
        tables.curves@.len() == curves.len(),
        tables.curves@[k]@[c].finite(),
        single_value(log_exposure[j]) - own_restraint(curves, matrix, s, low, high, j, c)
            == single_value(log_exposure[k]) ==> single_value(tables.curves@[k]@[c]) == part(
            lowered(curves[j], low),
            c,
        ),
{
    assert forall|a: int, b: int| 0 <= a < 3 && 0 <= b < 3 implies (
    #[trigger] tables.matrix@[a]@[b]).finite() && double_value(tables.matrix@[a]@[b])
        == double_value(matrix@[a]@[b]) * double_value(s.amount) by {
        assert(matrix@[a]@[b].finite());
        let f = times(double(matrix@[a]@[b]), double(s.amount));
        assert(is_double(ar, f, tables.matrix@[a]@[b]));
        reveal_with_fuel(finite_leaves, 2);
        reveal_with_fuel(exact, 2);
        lemma_lossless_double(ar, g, f, tables.matrix@[a]@[b]);
    }
    assert(tables.matrix@[0]@[c].finite() && tables.matrix@[1]@[c].finite()
        && tables.matrix@[2]@[c].finite());
    let (lows, norm, short) = choose|
        lows: [Single; 3],
        norm: Seq<[Single; 3]>,
        short: [[Single; 3]; 3],
    | #[trigger] tables.curves_from(ar, s.positive, log_exposure, curves, lows, norm, short);
    lemma_lowered(ar, g, curves, low, lows, norm);
    assert forall|a: int, b: int| 0 <= a < 3 && 0 <= b < 3 implies (
    #[trigger] short@[a]@[b]).finite() && single_value(short@[a]@[b]) == double_value(
        tables.matrix@[a]@[b],
    ) by {
        assert(tables.matrix@[a]@[b].finite());
        let f = narrow(double(tables.matrix@[a]@[b]));
        assert(is_single(ar, f, short@[a]@[b]));
        reveal_with_fuel(finite_leaves, 2);
        reveal_with_fuel(exact, 2);
        lemma_lossless_single(ar, g, f, short@[a]@[b]);
    }
    assert(short@[0]@[c].finite() && short@[1]@[c].finite() && short@[2]@[c].finite());
    let top = span(low, high);
    lemma_span(curves, low, high.0, norm, 0);
    lemma_span(curves, low, high.1, norm, 1);
    lemma_span(curves, low, high.2, norm, 2);
    lemma_single_extreme(norm, 0, highest_finite(), tables.top@[0]);
    lemma_single_extreme(norm, 1, highest_finite(), tables.top@[1]);
    lemma_single_extreme(norm, 2, highest_finite(), tables.top@[2]);
    lemma_highest_unique(norm, 0, top.0, single_value(tables.top@[0]));
    lemma_highest_unique(norm, 1, top.1, single_value(tables.top@[1]));
    lemma_highest_unique(norm, 2, top.2, single_value(tables.top@[2]));
    let xs = restrained(s.positive, top, norm, onto(short, c), log_exposure);
    let ys = |i: int|
        single_value(log_exposure[i]) - own_restraint(curves, matrix, s, low, high, i, c);
    assert(onto(short, c) == scaled_onto(matrix, s.amount, c));
    assert forall|i: int| 0 <= i < norm.len() implies #[trigger] xs(i) == ys(i) by {
        assert(row_of(norm[i]) == lowered(curves[i], low));
    }
    assert forall|a: int, b: int| 0 <= a < b < norm.len() implies #[trigger] xs(a)
        < #[trigger] xs(b) by {
        assert(ys(a) < ys(b));
    }
    lemma_curve_before(
        ar,
        g,
        s.positive,
        top,
        norm,
        short,
        log_exposure,
        tables.curves@,
        k,
        c,
    );
    assert(row_of(norm[j]) == lowered(curves[j], low));
    assert(xs(j) == ys(j));
    if ys(j) == single_value(log_exposure[k]) {
        lemma_couplers_undone(
            ar,
            g,
            s.positive,
            top,
            norm,
            short,
            log_exposure,
            tables.curves@,
            j,
            k,
            c,
        );
    }
}

proof fn lemma_span(
    curves: Seq<[Single; 3]>,
    low: (real, real, real),
    high: real,
    norm: Seq<[Single; 3]>,
    c: int,
)
    requires
        is_lowered(curves, low, norm),
        is_highest(curves, c, high),
        0 <= c < 3,
    ensures
        is_highest(norm, c, high - part(low, c)),
{
    let i = choose|i: int| 0 <= i < curves.len() && #[trigger] single_value(curves[i]@[c]) == high;
    assert(row_of(norm[i]) == lowered(curves[i], low));
    assert(single_value(norm[i]@[c]) == high - part(low, c));
    assert forall|j: int| 0 <= j < norm.len() implies single_value((#[trigger] norm[j])@[c]) <= high
        - part(low, c) by {
        assert(row_of(norm[j]) == lowered(curves[j], low));
        assert(single_value(curves[j]@[c]) <= high);
    }
}

/// A gamma of one leaves the axis alone.
proof fn lemma_plain_axis<A: Arithmetic>(
    ar: &A,
    g: Functions,
    axis: Seq<Double>,
    gamma: Double,
    r: Seq<Double>,
)
    requires
        lossless(ar, g),
        gamma.finite(),
        double_value(gamma) == 1real,
        is_gamma_axis(ar, axis, gamma, r),
    ensures
        r == axis,
{
    let f = gamma_distance(gamma);
    let d = choose|d: Double|
        #[trigger] is_double(ar, gamma_distance(gamma), d) && if d.below(
            Double { bits: GAMMA_TOLERANCE },
        ) {
            r == axis
        } else {
            &&& r.len() == axis.len()
            &&& forall|i: int|
                0 <= i < axis.len() ==> is_double(
                    ar,
                    over(double(axis[i]), double(gamma)),
                    #[trigger] r[i],
                )
        };
    lemma_one_values();
    lemma_zero_values();
    reveal_with_fuel(finite_leaves, 3);
    reveal_with_fuel(exact, 3);
    lemma_lossless_double(ar, g, f, d);
    lemma_order(d, Double { bits: 0 });
    lemma_order(Double { bits: 0 }, d);
}

/// Couplers without diffusion leave a uniform field on the film's own curve:
/// without rounding, where a pixel was exposed at a point of the axis and has
/// the measured densities of that point, and where that exposure less what the
/// couplers take off is a point of the axis too, the pixel keeps its density.
pub proof fn lemma_couplers_keep_density<T: Sample, A: Arithmetic>(
    ar: &A,
    g: Functions,
    curves: Seq<[Single; 3]>,
    log_exposure: Seq<Single>,
    matrix: [[Double; 3]; 3],
    s: DirSettings,
    low: (real, real, real),
    high: (real, real, real),
    tables: DirTables,
    density: ImageBuf<T>,
    log_raw: ImageBuf<T>,
    r: ImageBuf<T>,
    p: int,
    j: int,
    k: int,
    c: int,
)
    requires
        lossless(ar, g),
        is_measured_film(curves, log_exposure, matrix, s, low, high),
        develops(curves, log_exposure, matrix, s, low, high, 0),
        develops(curves, log_exposure, matrix, s, low, high, 1),
        develops(curves, log_exposure, matrix, s, low, high, 2),
        rises(|i: int| single_value(log_exposure[i]), curves.len() as int),
        s.gamma.finite() && single_value(s.gamma) == 1real,
        s.pixel_size_um.finite() && 0real < single_value(s.pixel_size_um),
        s.diffusion_size_um.finite() && double_value(s.diffusion_size_um) == 0real,
        tables.is_for(ar, s, log_exposure, curves, matrix),
        log_raw.valid(),
        density.valid(),
        log_raw.data@.len() == density.data@.len(),
        finite_image(log_raw),
        finite_image(density),
        is_density_correction(ar, density, log_raw, s, log_exposure, tables, r),
        0 <= p < density.data@.len() / 3,
        0 <= c < 3,
        0 <= j < curves.len(),
        0 <= k < curves.len(),
        pixel_of(density, p) == lowered(curves[j], low),
        value_of(log_raw.data@[3 * p + c]) == single_value(log_exposure[j]),
        single_value(log_exposure[j]) - own_restraint(curves, matrix, s, low, high, j, c)
            == single_value(log_exposure[k]),
    ensures
        number_finite(r.data@[3 * p + c].number()),
        value_of(r.data@[3 * p + c]) == part(lowered(curves[j], low), c),
{
    let n = curves.len() as int;
    let (top, corrected, gamma, axis, rows, drawn) = choose|
        top: [Double; 3],
        corrected: ImageBuf<T>,
        gamma: Double,
        axis: Seq<Double>,
        rows: Seq<[Double; 3]>,
        drawn: Seq<Double>,
    |
        {
            &&& is_wide_row(ar, tables.top, top)
            &&& #[trigger] is_exposure_correction(
                ar,
                log_raw,
                density,
                top,
                tables.matrix,
                tables.spread,
                s.positive,
                corrected,
            )
            &&& is_double(ar, widen(single(s.gamma)), gamma)
            &&& are_wide(ar, log_exposure, axis)
            &&& #[trigger] are_wide_rows(ar, tables.curves@, rows)
            &&& #[trigger] is_gamma_axis(ar, axis, gamma, drawn)
            &&& is_read(ar, corrected, drawn, rows, r)
        };
    lemma_tables(ar, g, curves, log_exposure, matrix, s, low, high, tables, j, k, c);
    lemma_widened(ar, g, tables.top@[0], top@[0]);
    lemma_widened(ar, g, tables.top@[1], top@[1]);
    lemma_widened(ar, g, tables.top@[2], top@[2]);
    lemma_widened(ar, g, s.gamma, gamma);
    lemma_plain_axis(ar, g, axis, gamma, drawn);
    lemma_no_spread(ar, g, s, tables.spread.size);
    assert forall|i: int| 0 <= i < corrected.data@.len() implies number_finite(
        (#[trigger] corrected.data@[i]).number(),
    ) by {
        lemma_exposure_taken_off(
            ar,
            g,
            log_raw,
            density,
            top,
            tables.matrix,
            tables.spread,
            s.positive,
            corrected,
            i / 3,
            i % 3,
        );
        assert(3 * (i / 3) + i % 3 == i);
    }
    lemma_exposure_taken_off(
        ar,
        g,
        log_raw,
        density,
        top,
        tables.matrix,
        tables.spread,
        s.positive,
        corrected,
        p,
        c,
    );
    let i = 3 * p + c;
    assert(i % 3 == c);
    assert forall|a: int| 0 <= a < n implies (#[trigger] axis[a]).finite() && double_value(axis[a])
        == single_value(log_exposure[a]) by {
        assert(is_double(ar, widen(single(log_exposure[a])), axis[a]));
        lemma_widened(ar, g, log_exposure[a], axis[a]);
    }
    let col = column(rows, c);
    assert forall|a: int| 0 <= a < n implies (#[trigger] col[a]).finite() && double_value(col[a])
        == single_value(tables.curves@[a]@[c]) by {
        lemma_tables(ar, g, curves, log_exposure, matrix, s, low, high, tables, j, a, c);
        assert(is_wide_row(ar, tables.curves@[a], rows[a]));
        lemma_widened(ar, g, tables.curves@[a]@[c], rows[a]@[c]);
    }
    let xs = |a: int| double_value(axis[a]);
    let es = |a: int| single_value(log_exposure[a]);
    assert forall|a: int, b: int| 0 <= a < b < n implies #[trigger] xs(a) < #[trigger] xs(b) by {
        assert(es(a) < es(b));
        assert(axis[a].finite() && axis[b].finite());
    }
    lemma_read(ar, g, corrected, axis, rows, r, i);
    let ys = |a: int| double_value(rows[a]@[c]);
    assert(axis[k].finite());
    assert(value_of(corrected.data@[i]) == xs(k));
    lemma_at_sample(
        n,
        xs,
        |a: int| double_value(rows[a]@[i % 3]),
        value_of(corrected.data@[i]),
        value_of(r.data@[i]),
        k,
    );
    assert(col[k] == rows[k]@[c]);
    assert(col[k].finite());
}

proof fn lemma_widened<A: Arithmetic>(ar: &A, g: Functions, x: Single, r: Double)
    requires
        lossless(ar, g),
        x.finite(),
        is_double(ar, widen(single(x)), r),
    ensures
        r.finite(),
        double_value(r) == single_value(x),
{
    reveal_with_fuel(finite_leaves, 2);
    reveal_with_fuel(exact, 2);
    lemma_lossless_double(ar, g, widen(single(x)), r);
}

/// A width of nothing is nothing in pixels.
proof fn lemma_no_spread<A: Arithmetic>(ar: &A, g: Functions, s: DirSettings, size: Single)
    requires
        lossless(ar, g),
        s.pixel_size_um.finite() && 0real < single_value(s.pixel_size_um),
        s.diffusion_size_um.finite() && double_value(s.diffusion_size_um) == 0real,
        is_single(ar, in_pixels(s.diffusion_size_um, s.pixel_size_um), size),
    ensures
        !(Single { bits: 0 }).below(size),
{
    let f = in_pixels(s.diffusion_size_um, s.pixel_size_um);
    lemma_zero_values();
    reveal_with_fuel(finite_leaves, 4);
    reveal_with_fuel(exact, 4);
    lemma_lossless_single(ar, g, f, size);
    let w = single_value(s.pixel_size_um);
    assert(0real / w == 0real) by (nonlinear_arith)
        requires
            0real < w,
    {
        assert((0real / w) * w == 0real);
    }
    lemma_short_order(size, Single { bits: 0 });
}

} // verus!
