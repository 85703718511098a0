//! Characteristic curves: log exposure to density, three columns to a row.

use vstd::prelude::*;

use crate::arith::{Arithmetic, Formula, Sample, Traced, Unary};
use crate::arith::{constant, double, is_double, is_single, minus, over, plus, single, unary};
use crate::bits::{Double, Single, DOUBLE_INFINITY, SINGLE_INFINITY};
use crate::image::ImageBuf;
use crate::interp::{curve_table, read_image, interp_uniform_3ch, is_table, reads_uniform};
use crate::interp::{CurveTable, Side, UniformRead, SINGLE_ONE};

verus! {

/// Encoding of 1.0.
pub const ONE: u64 = 0x3ff0_0000_0000_0000;

/// Encodings of the negative infinities.
pub const NEGATIVE_INFINITY: u64 = 0xfff0_0000_0000_0000;

pub const SINGLE_NEGATIVE_INFINITY: u32 = 0xff80_0000;

// ── The first smallest key ───────────────────────────────────────────────

/// Position `i` holds the smallest of the keys, and is the first that does.
pub open spec fn least_at(keys: Seq<Option<i128>>, i: int) -> bool {
    &&& 0 <= i < keys.len()
    &&& keys[i] is Some
    &&& forall|j: int|
        0 <= j < keys.len() && (#[trigger] keys[j]) is Some ==> keys[i]->0 <= keys[j]->0 && (j < i
            ==> keys[i]->0 < keys[j]->0)
}

/// There is only one such position.
proof fn lemma_least_unique(keys: Seq<Option<i128>>, i: int, j: int)
    requires
        least_at(keys, i),
        least_at(keys, j),
    ensures
        i == j,
{
    assert(keys[i] is Some && keys[j] is Some);
}

/// The first position with the smallest key, if any position has one.
pub fn first_least(keys: &Vec<Option<i128>>) -> (r: Option<usize>)
    ensures
        match r {
            Some(i) => least_at(keys@, i as int),
            None => forall|j: int| 0 <= j < keys@.len() ==> (#[trigger] keys@[j]) is None,
        },
{
    let mut best: Option<usize> = None;
    let mut i: usize = 0;
    while i < keys.len()
        invariant
            i <= keys@.len(),
            match best {
                Some(b) => b < i && least_at(keys@.subrange(0, i as int), b as int),
                None => forall|j: int| 0 <= j < i ==> (#[trigger] keys@[j]) is None,
            },
        decreases keys.len() - i,
    {
        let ghost before = keys@.subrange(0, i as int);
        let ghost after = keys@.subrange(0, i + 1);
        assert(forall|j: int| 0 <= j < i ==> after[j] == before[j]);
        assert(after[i as int] == keys@[i as int]);
        match keys[i] {
            None => {
                proof {
                    if let Some(b) = best {
                        assert(before[b as int] is Some);
                        assert(least_at(after, b as int));
                    }
                }
            },
            Some(k) => {
                let better: bool = match best {
                    None => true,
                    Some(b) => {
                        assert(before[b as int] is Some);
                        match keys[b] {
                            Some(old) => k < old,
                            None => true,
                        }
                    },
                };
                proof {
                    if better {
                        assert forall|j: int|
                            0 <= j < after.len() && (#[trigger] after[j]) is Some implies k
                            <= after[j]->0 && (j < i ==> k < after[j]->0) by {
                            if j < i {
                                assert(before[j] == keys@[j]);
                            }
                        }
                        assert(least_at(after, i as int));
                    } else {
                        assert(least_at(after, best->0 as int));
                    }
                }
                if better {
                    best = Some(i);
                }
            },
        }
        i += 1;
    }
    proof {
        assert(keys@.subrange(0, keys@.len() as int) =~= keys@);
    }
    best
}

// ── Extremes of a column ─────────────────────────────────────────────────

/// Which numbers of a column count, and which end of them is sought.
#[derive(Clone, Copy, PartialEq, Eq, Structural)]
pub struct Search {
    pub lowest: bool,
    /// Infinities count too.
    pub infinite: bool,
}

/// The key by which a number is compared, smaller for what is sought.
pub open spec fn key_of(x: Double, s: Search) -> Option<i128> {
    if x.nan() || (!s.infinite && !x.finite()) {
        None
    } else if s.lowest {
        Some(x.rank() as i128)
    } else {
        Some((-x.rank()) as i128)
    }
}

pub open spec fn single_key(x: Single, s: Search) -> Option<i128> {
    if x.nan() || (!s.infinite && !x.finite()) {
        None
    } else if s.lowest {
        Some(x.rank() as i128)
    } else {
        Some((-x.rank()) as i128)
    }
}

pub open spec fn keys_of(col: Seq<Double>, s: Search) -> Seq<Option<i128>> {
    Seq::new(col.len(), |i: int| key_of(col[i], s))
}

pub open spec fn single_keys(col: Seq<Single>, s: Search) -> Seq<Option<i128>> {
    Seq::new(col.len(), |i: int| single_key(col[i], s))
}

/// `r` is the first of the lowest (or highest) numbers that count, and the
/// opposite infinity where none does.
pub open spec fn is_extreme(col: Seq<Double>, s: Search, r: Double) -> bool {
    ||| exists|i: int| #[trigger] least_at(keys_of(col, s), i) && r == col[i]
    ||| (forall|i: int| 0 <= i < col.len() ==> (#[trigger] key_of(col[i], s)) is None) && r.bits
        == if s.lowest {
        DOUBLE_INFINITY
    } else {
        NEGATIVE_INFINITY
    }
}

pub open spec fn is_single_extreme(col: Seq<Single>, s: Search, r: Single) -> bool {
    ||| exists|i: int| #[trigger] least_at(single_keys(col, s), i) && r == col[i]
    ||| (forall|i: int| 0 <= i < col.len() ==> (#[trigger] single_key(col[i], s)) is None)
        && r.bits == if s.lowest {
        SINGLE_INFINITY
    } else {
        SINGLE_NEGATIVE_INFINITY
    }
}

/// A column has one extreme.
pub proof fn lemma_extreme_unique(col: Seq<Double>, s: Search, a: Double, b: Double)
    requires
        is_extreme(col, s, a),
        is_extreme(col, s, b),
    ensures
        a == b,
{
    let keys = keys_of(col, s);
    if exists|i: int| #[trigger] least_at(keys, i) && a == col[i] {
        let i = choose|i: int| #[trigger] least_at(keys, i) && a == col[i];
        assert(keys[i] == key_of(col[i], s));
        if exists|j: int| #[trigger] least_at(keys, j) && b == col[j] {
            let j = choose|j: int| #[trigger] least_at(keys, j) && b == col[j];
            lemma_least_unique(keys, i, j);
        }
    } else if exists|j: int| #[trigger] least_at(keys, j) && b == col[j] {
        let j = choose|j: int| #[trigger] least_at(keys, j) && b == col[j];
        assert(keys[j] == key_of(col[j], s));
    }
}

/// No number that counts lies beyond the extreme.
pub proof fn lemma_extreme_bounds(col: Seq<Double>, s: Search, r: Double, i: int)
    requires
        is_extreme(col, s, r),
        0 <= i < col.len(),
        key_of(col[i], s) is Some,
    ensures
        s.lowest ==> r.at_most(col[i]),
        !s.lowest ==> col[i].at_most(r),
{
    let keys = keys_of(col, s);
    assert(keys[i] is Some);
    let k = choose|k: int| #[trigger] least_at(keys, k) && r == col[k];
    assert(keys[k] == key_of(col[k], s));
}

fn number_key(x: Double, s: Search) -> (r: Option<i128>)
    ensures
        r == key_of(x, s),
{
    if x.is_nan() || (!s.infinite && !x.is_finite()) {
        None
    } else if s.lowest {
        Some(x.signed_rank())
    } else {
        Some(-x.signed_rank())
    }
}

fn short_key(x: Single, s: Search) -> (r: Option<i128>)
    ensures
        r == single_key(x, s),
{
    if x.is_nan() || (!s.infinite && !x.is_finite()) {
        None
    } else if s.lowest {
        Some(x.signed_rank() as i128)
    } else {
        Some(-(x.signed_rank() as i128))
    }
}

/// Column `c` of rows of three.
pub open spec fn column<T>(rows: Seq<[T; 3]>, c: int) -> Seq<T> {
    Seq::new(rows.len(), |i: int| rows[i]@[c])
}

/// A copy of a column.
pub fn extract_col<T: Copy>(data: &[[T; 3]], c: usize) -> (r: Vec<T>)
    requires
        c < 3,
    ensures
        r@ == column(data@, c as int),
{
    let mut r: Vec<T> = Vec::new();
    let mut i: usize = 0;
    while i < data.len()
        invariant
            i <= data@.len(),
            c < 3,
            r@.len() == i,
            forall|k: int| 0 <= k < i ==> #[trigger] r@[k] == data@[k]@[c as int],
        decreases data.len() - i,
    {
        let row = data[i];
        r.push(row[c]);
        i += 1;
    }
    r
}

/// The extreme of a column.
pub fn extreme(col: &Vec<Double>, s: Search) -> (r: Double)
    ensures
        is_extreme(col@, s, r),
{
    let mut keys: Vec<Option<i128>> = Vec::new();
    let mut i: usize = 0;
    while i < col.len()
        invariant
            i <= col@.len(),
            keys@.len() == i,
            forall|k: int| 0 <= k < i ==> #[trigger] keys@[k] == key_of(col@[k], s),
        decreases col.len() - i,
    {
        keys.push(number_key(col[i], s));
        i += 1;
    }
    proof {
        assert(keys@ =~= keys_of(col@, s));
    }
    match first_least(&keys) {
        Some(at) => col[at],
        None => {
            proof {
                assert forall|k: int| 0 <= k < col@.len() implies (#[trigger] key_of(
                    col@[k],
                    s,
                )) is None by {
                    assert(keys@[k] is None);
                }
            }
            if s.lowest {
                Double { bits: DOUBLE_INFINITY }
            } else {
                Double { bits: NEGATIVE_INFINITY }
            }
        },
    }
}

/// The extreme of a column of singles.
pub fn single_extreme(col: &Vec<Single>, s: Search) -> (r: Single)
    ensures
        is_single_extreme(col@, s, r),
{
    let mut keys: Vec<Option<i128>> = Vec::new();
    let mut i: usize = 0;
    while i < col.len()
        invariant
            i <= col@.len(),
            keys@.len() == i,
            forall|k: int| 0 <= k < i ==> #[trigger] keys@[k] == single_key(col@[k], s),
        decreases col.len() - i,
    {
        keys.push(short_key(col[i], s));
        i += 1;
    }
    proof {
        assert(keys@ =~= single_keys(col@, s));
    }
    match first_least(&keys) {
        Some(at) => col[at],
        None => {
            proof {
                assert forall|k: int| 0 <= k < col@.len() implies (#[trigger] single_key(
                    col@[k],
                    s,
                )) is None by {
                    assert(keys@[k] is None);
                }
            }
            if s.lowest {
                Single { bits: SINGLE_INFINITY }
            } else {
                Single { bits: SINGLE_NEGATIVE_INFINITY }
            }
        },
    }
}

/// The extremes of the three columns.
pub fn extremes(rows: &[[Double; 3]], s: Search) -> (r: [Double; 3])
    ensures
        forall|c: int| 0 <= c < 3 ==> is_extreme(column(rows@, c), s, #[trigger] r@[c]),
{
    [
        extreme(&extract_col(rows, 0), s),
        extreme(&extract_col(rows, 1), s),
        extreme(&extract_col(rows, 2), s),
    ]
}

pub fn single_extremes(rows: &[[Single; 3]], s: Search) -> (r: [Single; 3])
    ensures
        forall|c: int| 0 <= c < 3 ==> is_single_extreme(column(rows@, c), s, #[trigger] r@[c]),
{
    [
        single_extreme(&extract_col(rows, 0), s),
        single_extreme(&extract_col(rows, 1), s),
        single_extreme(&extract_col(rows, 2), s),
    ]
}

/// The finite numbers, from below and from above.
pub open spec fn lowest_finite() -> Search {
    Search { lowest: true, infinite: false }
}

pub open spec fn highest_finite() -> Search {
    Search { lowest: false, infinite: false }
}

/// The highest finite density of each channel.
pub fn max_density_f64(curves: &[[Double; 3]]) -> (r: [Double; 3])
    ensures
        forall|c: int|
            0 <= c < 3 ==> is_extreme(column(curves@, c), highest_finite(), #[trigger] r@[c]),
{
    extremes(curves, Search { lowest: false, infinite: false })
}

/// The highest finite density of each channel, in single precision.
pub fn max_density(curves: &[[Single; 3]]) -> (r: [Single; 3])
    ensures
        forall|c: int|
            0 <= c < 3 ==> is_single_extreme(
                column(curves@, c),
                highest_finite(),
                #[trigger] r@[c],
            ),
{
    single_extremes(curves, Search { lowest: false, infinite: false })
}

/// `r` is the curves with `low`, the lowest finite density of each channel,
/// taken off.
pub open spec fn normalized<A: Arithmetic>(
    ar: &A,
    curves: Seq<[Double; 3]>,
    low: [Double; 3],
    r: Seq<[Double; 3]>,
) -> bool {
    &&& forall|c: int|
        0 <= c < 3 ==> is_extreme(column(curves, c), lowest_finite(), #[trigger] low@[c])
    &&& r.len() == curves.len()
    &&& forall|i: int, c: int|
        0 <= i < r.len() && 0 <= c < 3 ==> is_double(
            ar,
            minus(double(curves[i]@[c]), double(low@[c])),
            #[trigger] r[i]@[c],
        )
}

pub open spec fn single_normalized<A: Arithmetic>(
    ar: &A,
    curves: Seq<[Single; 3]>,
    low: [Single; 3],
    r: Seq<[Single; 3]>,
) -> bool {
    &&& forall|c: int|
        0 <= c < 3 ==> is_single_extreme(column(curves, c), lowest_finite(), #[trigger] low@[c])
    &&& r.len() == curves.len()
    &&& forall|i: int, c: int|
        0 <= i < r.len() && 0 <= c < 3 ==> is_single(
            ar,
            minus(single(curves[i]@[c]), single(low@[c])),
            #[trigger] r[i]@[c],
        )
}

fn difference<T: Sample, A: Arithmetic>(ar: &A, a: T, b: T) -> (r: T)
    ensures
        crate::arith::evaluates(
            ar,
            minus(
                Formula::Number(a.number()),
                Formula::Number(b.number()),
            ),
            r.number(),
        ),
{
    let x: Traced<T> = Traced::new(ar, a);
    x.minus(ar, Traced::new(ar, b)).value
}

/// The curves with the lowest finite density of each channel taken off.
pub fn normalize_density_curves_f64<A: Arithmetic>(ar: &A, curves: &[[Double; 3]]) -> (r: Vec<
    [Double; 3],
>)
    ensures
        exists|low: [Double; 3]| normalized(ar, curves@, low, r@),
{
    let low = extremes(curves, Search { lowest: true, infinite: false });
    let mut r: Vec<[Double; 3]> = Vec::new();
    let mut i: usize = 0;
    while i < curves.len()
        invariant
            i <= curves@.len(),
            r@.len() == i,
            forall|k: int, c: int|
                0 <= k < i && 0 <= c < 3 ==> is_double(
                    ar,
                    minus(double(curves@[k]@[c]), double(low@[c])),
                    #[trigger] r@[k]@[c],
                ),
        decreases curves.len() - i,
    {
        let row = curves[i];
        r.push(
            [
                difference(ar, row[0], low[0]),
                difference(ar, row[1], low[1]),
                difference(ar, row[2], low[2]),
            ],
        );
        i += 1;
    }
    proof {
        assert(normalized(ar, curves@, low, r@));
    }
    r
}

/// The same in single precision.
pub fn normalize_density_curves<A: Arithmetic>(ar: &A, curves: &[[Single; 3]]) -> (r: Vec<
    [Single; 3],
>)
    ensures
        exists|low: [Single; 3]| single_normalized(ar, curves@, low, r@),
{
    let low = single_extremes(curves, Search { lowest: true, infinite: false });
    let mut r: Vec<[Single; 3]> = Vec::new();
    let mut i: usize = 0;
    while i < curves.len()
        invariant
            i <= curves@.len(),
            r@.len() == i,
            forall|k: int, c: int|
                0 <= k < i && 0 <= c < 3 ==> is_single(
                    ar,
                    minus(single(curves@[k]@[c]), single(low@[c])),
                    #[trigger] r@[k]@[c],
                ),
        decreases curves.len() - i,
    {
        let row = curves[i];
        r.push(
            [
                difference(ar, row[0], low[0]),
                difference(ar, row[1], low[1]),
                difference(ar, row[2], low[2]),
            ],
        );
        i += 1;
    }
    proof {
        assert(single_normalized(ar, curves@, low, r@));
    }
    r
}

// ── Reading the curves ───────────────────────────────────────────────────

/// Encodings of the distances from 1 below which a gamma counts as 1.
pub const GAMMA_TOLERANCE: u64 = 0x3d71_9799_812d_ea11;

pub const SINGLE_GAMMA_TOLERANCE: u32 = 0x3586_37bd;

/// `|gamma - 1|`.
pub open spec fn gamma_distance(gamma: Double) -> Formula {
    unary(Unary::Absolute, minus(double(gamma), constant(ONE)))
}

/// `r` is the axis for a gamma: divided by it, unless it counts as 1.
pub open spec fn is_gamma_axis<A: Arithmetic>(
    ar: &A,
    axis: Seq<Double>,
    gamma: Double,
    r: Seq<Double>,
) -> bool {
    exists|d: Double|
        #[trigger] is_double(ar, gamma_distance(gamma), d) && if d.below(
            Double { bits: GAMMA_TOLERANCE },
        ) {
            r == axis
        } else {
            &&& r.len() == axis.len()
            &&& forall|i: int|
                0 <= i < axis.len() ==> is_double(
                    ar,
                    over(double(axis[i]), double(gamma)),
                    #[trigger] r[i],
                )
        }
}

/// The axis for a gamma.
pub fn gamma_axis<A: Arithmetic>(ar: &A, axis: &[Double], gamma: Double) -> (r: Vec<Double>)
    ensures
        is_gamma_axis(ar, axis@, gamma, r@),
{
    let g: Traced<Double> = Traced::new(ar, gamma);
    let d = g.minus(ar, Traced::constant(ar, ONE)).unary(ar, Unary::Absolute);
    assert(is_double(ar, gamma_distance(gamma), d.value));
    if d.value.is_below(Double { bits: GAMMA_TOLERANCE }) {
        return vstd::slice::slice_to_vec(axis);
    }
    let mut r: Vec<Double> = Vec::new();
    let mut i: usize = 0;
    while i < axis.len()
        invariant
            i <= axis@.len(),
            r@.len() == i,
            g.holds(ar),
            g.formula@ == double(gamma),
            forall|k: int|
                0 <= k < i ==> is_double(
                    ar,
                    over(double(axis@[k]), double(gamma)),
                    #[trigger] r@[k],
                ),
        decreases axis.len() - i,
    {
        let x: Traced<Double> = Traced::new(ar, axis[i]);
        r.push(x.over(ar, g).value);
        i += 1;
    }
    r
}

/// `r` is the image read from the curves over an axis, channel by channel; an
/// axis value that equals a sample is its lower neighbour.
pub open spec fn is_read<T: Sample, A: Arithmetic>(
    ar: &A,
    img: ImageBuf<T>,
    axis: Seq<Double>,
    curves: Seq<[Double; 3]>,
    r: ImageBuf<T>,
) -> bool {
    &&& r.width == img.width
    &&& r.height == img.height
    &&& r.valid()
    &&& exists|t0: CurveTable<T>, t1: CurveTable<T>, t2: CurveTable<T>|
        {
            &&& is_table(ar, axis, column(curves, 0), t0)
            &&& is_table(ar, axis, column(curves, 1), t1)
            &&& is_table(ar, axis, column(curves, 2), t2)
            &&& #[trigger] reads_channels(ar, img.data@, t0, t1, t2, r.data@)
        }
}

/// Every number is read from the table of its channel.
pub open spec fn reads_channels<T: Sample, A: Arithmetic>(
    ar: &A,
    data: Seq<T>,
    t0: CurveTable<T>,
    t1: CurveTable<T>,
    t2: CurveTable<T>,
    r: Seq<T>,
) -> bool {
    forall|i: int|
        0 <= i < data.len() ==> (if i % 3 == 0 {
            t0
        } else if i % 3 == 1 {
            t1
        } else {
            t2
        }).gives(ar, data[i], Side::Right, #[trigger] r[i])
}

/// Reads an image from curves over an axis.
pub fn fast_interp_image_f64<T: Sample, A: Arithmetic>(
    ar: &A,
    img: &ImageBuf<T>,
    axis: &[Double],
    curves: &[[Double; 3]],
) -> (r: ImageBuf<T>)
    requires
        img.valid(),
        axis@.len() == curves@.len(),
        axis@.len() > 0,
    ensures
        is_read(ar, *img, axis@, curves@, r),
{
    let c0 = extract_col(curves, 0);
    let c1 = extract_col(curves, 1);
    let c2 = extract_col(curves, 2);
    let t0: CurveTable<T> = curve_table(ar, axis, c0.as_slice());
    let t1: CurveTable<T> = curve_table(ar, axis, c1.as_slice());
    let t2: CurveTable<T> = curve_table(ar, axis, c2.as_slice());
    let ghost (g0, g1, g2) = (t0, t1, t2);
    let tables = [t0, t1, t2];
    let r = read_image(ar, img, &tables, Side::Right);
    proof {
        assert(tables@[0] == g0 && tables@[1] == g1 && tables@[2] == g2);
        assert forall|i: int| 0 <= i < img.data@.len() implies (if i % 3 == 0 {
            g0
        } else if i % 3 == 1 {
            g1
        } else {
            g2
        }).gives(ar, img.data@[i], Side::Right, #[trigger] r.data@[i]) by {
            assert(tables@[i % 3].gives(ar, img.data@[i], Side::Right, r.data@[i]));
        }
        assert(reads_channels(ar, img.data@, g0, g1, g2, r.data@));
    }
    r
}

/// Log exposure to density, with the axis drawn out by the gamma.
pub fn interpolate_exposure_to_density_f64<T: Sample, A: Arithmetic>(
    ar: &A,
    log_raw: &ImageBuf<T>,
    curves: &[[Double; 3]],
    log_exposure: &[Double],
    gamma: Double,
) -> (r: ImageBuf<T>)
    requires
        log_raw.valid(),
        log_exposure@.len() == curves@.len(),
        log_exposure@.len() > 0,
    ensures
        exists|axis: Seq<Double>|
            #[trigger] is_gamma_axis(ar, log_exposure@, gamma, axis) && is_read(
                ar,
                *log_raw,
                axis,
                curves@,
                r,
            ),
{
    let axis = gamma_axis(ar, log_exposure, gamma);
    let r = fast_interp_image_f64(ar, log_raw, axis.as_slice(), curves);
    assert(is_gamma_axis(ar, log_exposure@, gamma, axis@));
    r
}

/// Development without couplers or grain: the curves with their lowest
/// density taken off.
pub fn develop_simple_f64<T: Sample, A: Arithmetic>(
    ar: &A,
    log_raw: &ImageBuf<T>,
    log_exposure: &[Double],
    curves: &[[Double; 3]],
    gamma: Double,
) -> (r: ImageBuf<T>)
    requires
        log_raw.valid(),
        log_exposure@.len() == curves@.len(),
        log_exposure@.len() > 0,
    ensures
        exists|axis: Seq<Double>, low: [Double; 3], norm: Seq<[Double; 3]>|
            #[trigger] is_gamma_axis(ar, log_exposure@, gamma, axis) && #[trigger] normalized(
                ar,
                curves@,
                low,
                norm,
            ) && is_read(ar, *log_raw, axis, norm, r),
{
    let norm = normalize_density_curves_f64(ar, curves);
    let ghost low = choose|low: [Double; 3]| normalized(ar, curves@, low, norm@);
    let r = interpolate_exposure_to_density_f64(ar, log_raw, norm.as_slice(), log_exposure, gamma);
    proof {
        let axis = choose|axis: Seq<Double>|
            #[trigger] is_gamma_axis(ar, log_exposure@, gamma, axis) && is_read(
                ar,
                *log_raw,
                axis,
                norm@,
                r,
            );
        assert(is_gamma_axis(ar, log_exposure@, gamma, axis));
        assert(normalized(ar, curves@, low, norm@));
    }
    r
}

/// The axis ends for a single pixel: divided by the gamma, unless it counts
/// as 1.
pub open spec fn is_gamma_end<A: Arithmetic>(ar: &A, x: Single, gamma: Single, r: Single) -> bool {
    exists|d: Single|
        #[trigger] is_single(ar, single_gamma_distance(gamma), d) && if d.below(
            Single { bits: SINGLE_GAMMA_TOLERANCE },
        ) {
            r == x
        } else {
            is_single(ar, over(single(x), single(gamma)), r)
        }
}

/// `|gamma - 1|`.
pub open spec fn single_gamma_distance(gamma: Single) -> Formula {
    unary(Unary::Absolute, minus(single(gamma), single(Single { bits: SINGLE_ONE })))
}

fn gamma_end<A: Arithmetic>(ar: &A, x: Single, gamma: Single) -> (r: Single)
    ensures
        is_gamma_end(ar, x, gamma, r),
{
    let g: Traced<Single> = Traced::new(ar, gamma);
    let one: Traced<Single> = Traced::new(ar, Single { bits: SINGLE_ONE });
    let d = g.minus(ar, one).unary(ar, Unary::Absolute);
    assert(is_single(ar, single_gamma_distance(gamma), d.value));
    if d.value.is_below(Single { bits: SINGLE_GAMMA_TOLERANCE }) {
        x
    } else {
        let v: Traced<Single> = Traced::new(ar, x);
        v.over(ar, g).value
    }
}

/// The densities of one log exposure, on a uniform axis.
pub fn interpolate_density<A: Arithmetic>(
    ar: &A,
    log_exposure_axis: &[Single],
    density_curves: &[[Single; 3]],
    log_exp: Single,
    gamma: Single,
) -> (r: [Single; 3])
    requires
        log_exposure_axis@.len() > 0,
        density_curves@.len() > 0,
    ensures
        exists|low: Single, high: Single, at: UniformRead|
            {
                &&& is_gamma_end(ar, log_exposure_axis@[0], gamma, low)
                &&& is_gamma_end(ar, log_exposure_axis@.last(), gamma, high)
                &&& #[trigger] at.is_for(ar, low, high, density_curves@.len(), log_exp)
                &&& forall|c: int|
                    0 <= c < 3 ==> reads_uniform(
                        ar,
                        column(density_curves@, c),
                        at,
                        #[trigger] r@[c],
                    )
            },
{
    let n: usize = log_exposure_axis.len();
    let low = gamma_end(ar, log_exposure_axis[0], gamma);
    let high = gamma_end(ar, log_exposure_axis[n - 1], gamma);
    interp_uniform_3ch(ar, low, high, density_curves, log_exp)
}

// ── Bounds of a lookup table over densities ──────────────────────────────

/// `x`, or `other` where `x` is not finite.
pub open spec fn finite_or(x: Double, other: u64) -> Double {
    if x.finite() {
        x
    } else {
        Double { bits: other }
    }
}

/// `low` and `high` span an interval: where `top` is not above `low`, they
/// lie one apart.
pub open spec fn spans<A: Arithmetic>(ar: &A, low: Double, top: Double, high: Double) -> bool {
    if top.at_most(low) {
        is_double(ar, plus(double(low), constant(ONE)), high)
    } else {
        high == top
    }
}

fn widened_top<A: Arithmetic>(ar: &A, low: Double, top: Double) -> (r: Double)
    ensures
        spans(ar, low, top, r),
{
    if top.is_at_most(low) {
        let x: Traced<Double> = Traced::new(ar, low);
        x.plus(ar, Traced::constant(ar, ONE)).value
    } else {
        top
    }
}

fn finite_value(x: Double, other: u64) -> (r: Double)
    ensures
        r == finite_or(x, other),
{
    if x.is_finite() {
        x
    } else {
        Double { bits: other }
    }
}

/// The interval of one channel: from `bottom` to the highest density of the
/// column, or to 1 where that is not finite.
pub open spec fn channel_span<A: Arithmetic>(
    ar: &A,
    col: Seq<Double>,
    low: Double,
    high: Double,
) -> bool {
    exists|top: Double|
        is_extreme(col, Search { lowest: false, infinite: true }, top) && #[trigger] spans(
            ar,
            low,
            finite_or(top, ONE),
            high,
        )
}

fn channel_top<A: Arithmetic>(ar: &A, col: &Vec<Double>, low: Double) -> (r: Double)
    ensures
        channel_span(ar, col@, low, r),
{
    let top = extreme(col, Search { lowest: false, infinite: true });
    widened_top(ar, low, finite_value(top, ONE))
}

/// Bounds of the enlarger's table: from the negated base density of the grain
/// to the highest film density.
pub fn enlarger_lut_bounds<A: Arithmetic>(
    ar: &A,
    curves: &[[Double; 3]],
    grain_density_min: [Double; 3],
) -> (r: ([Double; 3], [Double; 3]))
    ensures
        forall|c: int|
            0 <= c < 3 ==> #[trigger] r.0@[c] == grain_density_min@[c].negation() && channel_span(
                ar,
                column(curves@, c),
                r.0@[c],
                r.1@[c],
            ),
{
    let low = [
        grain_density_min[0].negated(),
        grain_density_min[1].negated(),
        grain_density_min[2].negated(),
    ];
    let high = [
        channel_top(ar, &extract_col(curves, 0), low[0]),
        channel_top(ar, &extract_col(curves, 1), low[1]),
        channel_top(ar, &extract_col(curves, 2), low[2]),
    ];
    (low, high)
}

/// The lower bound of the scanner's table in one channel: the negated base
/// density where film is scanned, and the lowest density of the print curves
/// otherwise; 0 where that is not finite.
pub open spec fn scanner_low(scan_film: bool, density_min: Double, col: Seq<Double>, low: Double) -> bool {
    if scan_film {
        low == finite_or(density_min.negation(), 0)
    } else {
        exists|bottom: Double|
            #[trigger] is_extreme(col, Search { lowest: true, infinite: true }, bottom) && low
                == finite_or(bottom, 0)
    }
}

fn scanner_bottom(scan_film: bool, density_min: Double, col: &Vec<Double>) -> (r: Double)
    ensures
        scanner_low(scan_film, density_min, col@, r),
{
    if scan_film {
        finite_value(density_min.negated(), 0)
    } else {
        let bottom = extreme(col, Search { lowest: true, infinite: true });
        finite_value(bottom, 0)
    }
}

/// Bounds of the scanner's table.
pub fn scanner_lut_bounds<A: Arithmetic>(
    ar: &A,
    curves: &[[Double; 3]],
    scan_film: bool,
    grain_density_min: [Double; 3],
) -> (r: ([Double; 3], [Double; 3]))
    ensures
        forall|c: int|
            0 <= c < 3 ==> scanner_low(
                scan_film,
                grain_density_min@[c],
                column(curves@, c),
                #[trigger] r.0@[c],
            ) && channel_span(ar, column(curves@, c), r.0@[c], r.1@[c]),
{
    let c0 = extract_col(curves, 0);
    let c1 = extract_col(curves, 1);
    let c2 = extract_col(curves, 2);
    let low = [
        scanner_bottom(scan_film, grain_density_min[0], &c0),
        scanner_bottom(scan_film, grain_density_min[1], &c1),
        scanner_bottom(scan_film, grain_density_min[2], &c2),
    ];
    let high = [
        channel_top(ar, &c0, low[0]),
        channel_top(ar, &c1, low[1]),
        channel_top(ar, &c2, low[2]),
    ];
    (low, high)
}

} // verus!
