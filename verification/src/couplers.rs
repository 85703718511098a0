//! DIR couplers: inhibitors that one layer releases as it develops hold back
//! the layers around it.

use vstd::prelude::*;

use crate::arith::{Arithmetic, Formula, Sample, Traced};
use crate::arith::{dot3, double, evaluates, is_double, is_single, minus, narrow, over, plus};
use crate::arith::{single, times, widen};
use crate::bits::{Double, Single};
use crate::density_curves::{column, extract_col, is_single_extreme, max_density};
use crate::density_curves::{highest_finite, interpolate_exposure_to_density_f64, is_gamma_axis};
use crate::density_curves::{is_read, normalize_density_curves, single_normalized};
use crate::gaussian::{exponential_filter_channel, gaussian_blur_channel, is_blurred};
use crate::gaussian::is_exponential;
use crate::image::{channel_of, pixels_of, ImageBuf};
use crate::interp::{interp_1d, interpolates, num};

verus! {

// ── The matrix ───────────────────────────────────────────────────────────

/// How strongly the layers act on themselves and on each other.
#[derive(Clone, Copy)]
pub struct Couplings {
    pub gamma_samelayer: [Double; 3],
    /// Red onto green and blue.
    pub gamma_r_to_gb: [Double; 2],
    /// Green onto red and blue.
    pub gamma_g_to_rb: [Double; 2],
    /// Blue onto red and green.
    pub gamma_b_to_rg: [Double; 2],
    pub inhibition_samelayer: Double,
    pub inhibition_interlayer: Double,
}

impl Couplings {
    /// The coupling of a donor layer to a receiver layer.
    pub open spec fn gamma(self, donor: int, receiver: int) -> Double {
        if donor == receiver {
            self.gamma_samelayer@[donor]
        } else if donor == 0 {
            self.gamma_r_to_gb@[receiver - 1]
        } else if donor == 1 {
            self.gamma_g_to_rb@[if receiver == 0 {
                0
            } else {
                1
            }]
        } else {
            self.gamma_b_to_rg@[receiver]
        }
    }

    /// The matrix entry: the coupling, times the inhibition within or between
    /// layers.
    pub open spec fn entry(self, donor: int, receiver: int) -> Formula {
        times(
            double(self.gamma(donor, receiver)),
            double(
                if donor == receiver {
                    self.inhibition_samelayer
                } else {
                    self.inhibition_interlayer
                },
            ),
        )
    }
}

fn product<A: Arithmetic>(ar: &A, a: Double, b: Double) -> (r: Double)
    ensures
        is_double(ar, times(double(a), double(b)), r),
{
    let x: Traced<Double> = Traced::new(ar, a);
    x.times(ar, Traced::new(ar, b)).value
}

/// The couplers matrix: a row for each donor, a column for each receiver.
pub fn compute_dir_couplers_matrix<A: Arithmetic>(ar: &A, k: Couplings) -> (r: [[Double; 3]; 3])
    ensures
        forall|i: int, j: int|
            0 <= i < 3 && 0 <= j < 3 ==> is_double(ar, k.entry(i, j), #[trigger] r@[i]@[j]),
{
    let same = k.inhibition_samelayer;
    let inter = k.inhibition_interlayer;
    let row0 = [
        product(ar, k.gamma_samelayer[0], same),
        product(ar, k.gamma_r_to_gb[0], inter),
        product(ar, k.gamma_r_to_gb[1], inter),
    ];
    let row1 = [
        product(ar, k.gamma_g_to_rb[0], inter),
        product(ar, k.gamma_samelayer[1], same),
        product(ar, k.gamma_g_to_rb[1], inter),
    ];
    let row2 = [
        product(ar, k.gamma_b_to_rg[0], inter),
        product(ar, k.gamma_b_to_rg[1], inter),
        product(ar, k.gamma_samelayer[2], same),
    ];
    [row0, row1, row2]
}

/// Every entry of a matrix times an amount.
pub fn scale_matrix<A: Arithmetic>(ar: &A, m: [[Double; 3]; 3], amount: Double) -> (r: [[Double;
    3]; 3])
    ensures
        forall|i: int, j: int|
            0 <= i < 3 && 0 <= j < 3 ==> is_double(
                ar,
                times(double(m@[i]@[j]), double(amount)),
                #[trigger] r@[i]@[j],
            ),
{
    let a = m[0];
    let b = m[1];
    let c = m[2];
    let row0 = [product(ar, a[0], amount), product(ar, a[1], amount), product(ar, a[2], amount)];
    let row1 = [product(ar, b[0], amount), product(ar, b[1], amount), product(ar, b[2], amount)];
    let row2 = [product(ar, c[0], amount), product(ar, c[1], amount), product(ar, c[2], amount)];
    [row0, row1, row2]
}

fn narrowed<A: Arithmetic>(ar: &A, x: Double) -> (r: Single)
    ensures
        is_single(ar, narrow(double(x)), r),
{
    let w: Traced<Double> = Traced::new(ar, x);
    w.narrow(ar).value
}

/// A matrix in single precision.
pub fn narrow_matrix<A: Arithmetic>(ar: &A, m: [[Double; 3]; 3]) -> (r: [[Single; 3]; 3])
    ensures
        forall|i: int, j: int|
            0 <= i < 3 && 0 <= j < 3 ==> is_single(
                ar,
                narrow(double(m@[i]@[j])),
                #[trigger] r@[i]@[j],
            ),
{
    let a = m[0];
    let b = m[1];
    let c = m[2];
    let row0 = [narrowed(ar, a[0]), narrowed(ar, a[1]), narrowed(ar, a[2])];
    let row1 = [narrowed(ar, b[0]), narrowed(ar, b[1]), narrowed(ar, b[2])];
    let row2 = [narrowed(ar, c[0]), narrowed(ar, c[1]), narrowed(ar, c[2])];
    [row0, row1, row2]
}

// ── Curves before inhibition ─────────────────────────────────────────────

/// The silver that develops with a density: the density itself on negative
/// film, and what is missing to the highest density on positive film.
pub open spec fn silver_of(positive: bool, top: Formula, d: Formula) -> Formula {
    if positive {
        minus(top, d)
    } else {
        d
    }
}

/// The inhibition that receiver `m` gets from a row of silver.
pub open spec fn inhibition_of(silver: Seq<Formula>, matrix: [[Single; 3]; 3], m: int) -> Formula {
    dot3(
        silver,
        seq![single(matrix@[0]@[m]), single(matrix@[1]@[m]), single(matrix@[2]@[m])],
    )
}

pub open spec fn row_silver(positive: bool, top: [Single; 3], row: [Single; 3]) -> Seq<Formula> {
    seq![
        silver_of(positive, single(top@[0]), single(row@[0])),
        silver_of(positive, single(top@[1]), single(row@[1])),
        silver_of(positive, single(top@[2]), single(row@[2])),
    ]
}

/// The exposure at which row `j` develops when receiver `c` is inhibited.
pub open spec fn shifted_exposure(
    positive: bool,
    top: [Single; 3],
    row: [Single; 3],
    matrix: [[Single; 3]; 3],
    exposure: Single,
    c: int,
) -> Formula {
    minus(single(exposure), inhibition_of(row_silver(positive, top, row), matrix, c))
}

fn traced_silver<T: Sample, A: Arithmetic>(ar: &A, positive: bool, top: Traced<T>, d: T) -> (r:
    Traced<T>)
    requires
        top.holds(ar),
    ensures
        r.holds(ar),
        r.formula@ == silver_of(positive, top.formula@, num(d)),
{
    let x: Traced<T> = Traced::new(ar, d);
    if positive {
        top.minus(ar, x)
    } else {
        x
    }
}

fn shifted<A: Arithmetic>(
    ar: &A,
    positive: bool,
    top: [Single; 3],
    row: [Single; 3],
    matrix: &[[Single; 3]; 3],
    exposure: Single,
    c: usize,
) -> (r: Single)
    requires
        c < 3,
    ensures
        is_single(
            ar,
            shifted_exposure(positive, top, row, *matrix, exposure, c as int),
            r,
        ),
{
    let s0: Traced<Single> = traced_silver(ar, positive, Traced::new(ar, top[0]), row[0]);
    let s1: Traced<Single> = traced_silver(ar, positive, Traced::new(ar, top[1]), row[1]);
    let s2: Traced<Single> = traced_silver(ar, positive, Traced::new(ar, top[2]), row[2]);
    let silver = [s0, s1, s2];
    let m0 = matrix[0];
    let m1 = matrix[1];
    let m2 = matrix[2];
    let a0: Traced<Single> = Traced::new(ar, m0[c]);
    let a1: Traced<Single> = Traced::new(ar, m1[c]);
    let a2: Traced<Single> = Traced::new(ar, m2[c]);
    let col = [a0, a1, a2];
    let amount = Traced::dot3(ar, silver, col);
    proof {
        assert(crate::arith::formulas(silver@) =~= row_silver(positive, top, row));
        assert(crate::arith::formulas(col@) =~= seq![
            single(matrix@[0]@[c as int]),
            single(matrix@[1]@[c as int]),
            single(matrix@[2]@[c as int]),
        ]);
        assert(crate::arith::all_hold(ar, silver@));
        assert(crate::arith::all_hold(ar, col@));
    }
    let e: Traced<Single> = Traced::new(ar, exposure);
    e.minus(ar, amount).value
}

/// The shifted axis of a receiver.
pub open spec fn is_shifted_axis<A: Arithmetic>(
    ar: &A,
    positive: bool,
    top: [Single; 3],
    curves: Seq<[Single; 3]>,
    matrix: [[Single; 3]; 3],
    log_exposure: Seq<Single>,
    c: int,
    r: Seq<Single>,
) -> bool {
    &&& r.len() == curves.len()
    &&& forall|j: int|
        0 <= j < r.len() ==> is_single(
            ar,
            shifted_exposure(positive, top, curves[j], matrix, log_exposure[j], c),
            #[trigger] r[j],
        )
}

/// Column `c` of the curves, read on the axis that inhibition shifts.
pub open spec fn is_curve_before_dir<A: Arithmetic>(
    ar: &A,
    positive: bool,
    top: [Single; 3],
    curves: Seq<[Single; 3]>,
    matrix: [[Single; 3]; 3],
    log_exposure: Seq<Single>,
    c: int,
    r: Seq<Single>,
) -> bool {
    &&& r.len() == curves.len()
    &&& exists|axis: Seq<Single>|
        #[trigger] is_shifted_axis(ar, positive, top, curves, matrix, log_exposure, c, axis)
            && forall|j: int|
            0 <= j < r.len() ==> interpolates(
                ar,
                axis,
                column(curves, c),
                log_exposure[j],
                #[trigger] r[j],
            )
}

fn curve_before_dir<A: Arithmetic>(
    ar: &A,
    positive: bool,
    top: [Single; 3],
    curves: &[[Single; 3]],
    matrix: &[[Single; 3]; 3],
    log_exposure: &[Single],
    c: usize,
) -> (r: Vec<Single>)
    requires
        c < 3,
        log_exposure@.len() >= curves@.len(),
    ensures
        is_curve_before_dir(
            ar,
            positive,
            top,
            curves@,
            *matrix,
            log_exposure@,
            c as int,
            r@,
        ),
{
    let mut axis: Vec<Single> = Vec::new();
    let mut j: usize = 0;
    while j < curves.len()
        invariant
            j <= curves@.len(),
            c < 3,
            log_exposure@.len() >= curves@.len(),
            axis@.len() == j,
            forall|k: int|
                0 <= k < j ==> is_single(
                    ar,
                    shifted_exposure(
                        positive,
                        top,
                        curves@[k],
                        *matrix,
                        log_exposure@[k],
                        c as int,
                    ),
                    #[trigger] axis@[k],
                ),
        decreases curves.len() - j,
    {
        let v = shifted(ar, positive, top, curves[j], matrix, log_exposure[j], c);
        axis.push(v);
        j += 1;
    }
    let col = extract_col(curves, c);
    let mut r: Vec<Single> = Vec::new();
    let mut i: usize = 0;
    while i < curves.len()
        invariant
            i <= curves@.len(),
            c < 3,
            log_exposure@.len() >= curves@.len(),
            axis@.len() == curves@.len(),
            col@ == column(curves@, c as int),
            r@.len() == i,
            forall|k: int|
                0 <= k < i ==> interpolates(
                    ar,
                    axis@,
                    column(curves@, c as int),
                    log_exposure@[k],
                    #[trigger] r@[k],
                ),
        decreases curves.len() - i,
    {
        let v = interp_1d(ar, axis.as_slice(), col.as_slice(), log_exposure[i]);
        r.push(v);
        i += 1;
    }
    proof {
        assert(is_shifted_axis(
            ar,
            positive,
            top,
            curves@,
            *matrix,
            log_exposure@,
            c as int,
            axis@,
        ));
    }
    r
}

/// `r` is the curves without the effect of the couplers.
pub open spec fn are_curves_before_dir<A: Arithmetic>(
    ar: &A,
    positive: bool,
    curves: Seq<[Single; 3]>,
    matrix: [[Single; 3]; 3],
    log_exposure: Seq<Single>,
    r: Seq<[Single; 3]>,
) -> bool {
    exists|top: [Single; 3]|
        {
            &&& forall|c: int|
                0 <= c < 3 ==> is_single_extreme(
                    column(curves, c),
                    highest_finite(),
                    #[trigger] top@[c],
                )
            &&& #[trigger] curves_before_dir_with(
                ar,
                positive,
                top,
                curves,
                matrix,
                log_exposure,
                r,
            )
        }
}

pub open spec fn curves_before_dir_with<A: Arithmetic>(
    ar: &A,
    positive: bool,
    top: [Single; 3],
    curves: Seq<[Single; 3]>,
    matrix: [[Single; 3]; 3],
    log_exposure: Seq<Single>,
    r: Seq<[Single; 3]>,
) -> bool {
    &&& r.len() == curves.len()
    &&& is_curve_before_dir(ar, positive, top, curves, matrix, log_exposure, 0, column(r, 0))
    &&& is_curve_before_dir(ar, positive, top, curves, matrix, log_exposure, 1, column(r, 1))
    &&& is_curve_before_dir(ar, positive, top, curves, matrix, log_exposure, 2, column(r, 2))
}

/// The density curves without the effect of the couplers.
pub fn compute_curves_before_dir<A: Arithmetic>(
    ar: &A,
    density_curves: &[[Single; 3]],
    log_exposure: &[Single],
    couplers_matrix: &[[Single; 3]; 3],
    positive: bool,
) -> (r: Vec<[Single; 3]>)
    requires
        log_exposure@.len() >= density_curves@.len(),
    ensures
        are_curves_before_dir(
            ar,
            positive,
            density_curves@,
            *couplers_matrix,
            log_exposure@,
            r@,
        ),
{
    let top = max_density(density_curves);
    let c0 = curve_before_dir(ar, positive, top, density_curves, couplers_matrix, log_exposure, 0);
    let c1 = curve_before_dir(ar, positive, top, density_curves, couplers_matrix, log_exposure, 1);
    let c2 = curve_before_dir(ar, positive, top, density_curves, couplers_matrix, log_exposure, 2);
    let mut r: Vec<[Single; 3]> = Vec::new();
    let mut j: usize = 0;
    while j < density_curves.len()
        invariant
            j <= density_curves@.len(),
            c0@.len() == density_curves@.len(),
            c1@.len() == density_curves@.len(),
            c2@.len() == density_curves@.len(),
            r@.len() == j,
            forall|k: int|
                0 <= k < j ==> (#[trigger] r@[k])@[0] == c0@[k] && r@[k]@[1] == c1@[k]
                    && r@[k]@[2] == c2@[k],
        decreases density_curves.len() - j,
    {
        r.push([c0[j], c1[j], c2[j]]);
        j += 1;
    }
    proof {
        assert(column(r@, 0) =~= c0@);
        assert(column(r@, 1) =~= c1@);
        assert(column(r@, 2) =~= c2@);
        assert(curves_before_dir_with(
            ar,
            positive,
            top,
            density_curves@,
            *couplers_matrix,
            log_exposure@,
            r@,
        ));
    }
    r
}

// ── Images ───────────────────────────────────────────────────────────────

/// The silver of each number of an image.
pub open spec fn is_silver<T: Sample, A: Arithmetic>(
    ar: &A,
    density: ImageBuf<T>,
    top: [Double; 3],
    positive: bool,
    r: ImageBuf<T>,
) -> bool {
    &&& r.width == density.width
    &&& r.height == density.height
    &&& r.valid()
    &&& forall|i: int|
        0 <= i < density.data@.len() ==> evaluates(
            ar,
            silver_of(positive, T::stored(double(top@[i % 3])), num(density.data@[i])),
            (#[trigger] r.data@[i]).number(),
        )
}

/// The silver that develops in an image.
pub fn silver_density<T: Sample, A: Arithmetic>(
    ar: &A,
    density: &ImageBuf<T>,
    top: [Double; 3],
    positive: bool,
) -> (r: ImageBuf<T>)
    requires
        density.valid(),
    ensures
        is_silver(ar, *density, top, positive, r),
{
    let mut data: Vec<T> = Vec::new();
    let mut i: usize = 0;
    while i < density.data.len()
        invariant
            i <= density.data@.len(),
            data@.len() == i,
            forall|k: int|
                0 <= k < i ==> evaluates(
                    ar,
                    silver_of(positive, T::stored(double(top@[k % 3])), num(density.data@[k])),
                    (#[trigger] data@[k]).number(),
                ),
        decreases density.data.len() - i,
    {
        let t: Traced<Double> = Traced::new(ar, top[i % 3]);
        let v = traced_silver(ar, positive, T::store(ar, t), density.data[i]);
        data.push(v.value);
        i += 1;
    }
    ImageBuf { width: density.width, height: density.height, data }
}

/// The inhibition of one receiver at one pixel.
pub open spec fn pixel_inhibition<T: Sample>(
    p0: T,
    p1: T,
    p2: T,
    matrix: [[Double; 3]; 3],
    m: int,
) -> Formula {
    dot3(
        seq![num(p0), num(p1), num(p2)],
        seq![
            T::stored(double(matrix@[0]@[m])),
            T::stored(double(matrix@[1]@[m])),
            T::stored(double(matrix@[2]@[m])),
        ],
    )
}

fn inhibition_at<T: Sample, A: Arithmetic>(
    ar: &A,
    p0: T,
    p1: T,
    p2: T,
    matrix: &[[Double; 3]; 3],
    m: usize,
) -> (r: T)
    requires
        m < 3,
    ensures
        evaluates(ar, pixel_inhibition(p0, p1, p2, *matrix, m as int), r.number()),
{
    let m0 = matrix[0];
    let m1 = matrix[1];
    let m2 = matrix[2];
    let e0: Traced<Double> = Traced::new(ar, m0[m]);
    let e1: Traced<Double> = Traced::new(ar, m1[m]);
    let e2: Traced<Double> = Traced::new(ar, m2[m]);
    let px: [Traced<T>; 3] = [Traced::new(ar, p0), Traced::new(ar, p1), Traced::new(ar, p2)];
    let col: [Traced<T>; 3] = [T::store(ar, e0), T::store(ar, e1), T::store(ar, e2)];
    let r = Traced::dot3(ar, px, col);
    proof {
        assert(crate::arith::formulas(px@) =~= seq![num(p0), num(p1), num(p2)]);
        assert(crate::arith::formulas(col@) =~= seq![
            T::stored(double(matrix@[0]@[m as int])),
            T::stored(double(matrix@[1]@[m as int])),
            T::stored(double(matrix@[2]@[m as int])),
        ]);
        assert(crate::arith::all_hold(ar, px@));
        assert(crate::arith::all_hold(ar, col@));
    }
    r.value
}

/// `r` is an image of `width` by `height` with the inhibition that each
/// receiver gets at each pixel: the pixels of silver in their order, and none
/// where there are no more of them.
pub open spec fn is_inhibition<T: Sample, A: Arithmetic>(
    ar: &A,
    silver: ImageBuf<T>,
    matrix: [[Double; 3]; 3],
    width: u32,
    height: u32,
    r: ImageBuf<T>,
) -> bool {
    &&& r.width == width
    &&& r.height == height
    &&& r.valid()
    &&& forall|i: int|
        0 <= i < silver.data@.len() ==> evaluates(
            ar,
            pixel_inhibition(
                silver.data@[i - i % 3],
                silver.data@[i - i % 3 + 1],
                silver.data@[i - i % 3 + 2],
                matrix,
                i % 3,
            ),
            (#[trigger] r.data@[i]).number(),
        )
    &&& forall|i: int|
        silver.data@.len() <= i < r.data@.len() ==> #[trigger] r.data@[i] == T::zero_value()
}

/// The silver of each pixel times the couplers matrix, in an image of `total`
/// numbers.
pub fn inhibition<T: Sample, A: Arithmetic>(
    ar: &A,
    silver: &ImageBuf<T>,
    matrix: &[[Double; 3]; 3],
    width: u32,
    height: u32,
    total: usize,
) -> (r: ImageBuf<T>)
    requires
        silver.valid(),
        total == pixels_of(width, height) * 3,
        silver.data@.len() <= total,
    ensures
        is_inhibition(ar, *silver, *matrix, width, height, r),
{
    let mut data: Vec<T> = Vec::new();
    let n: usize = silver.data.len();
    let mut i: usize = 0;
    assert(n % 3 == 0);
    while i < n
        invariant
            i <= n,
            n == silver.data@.len(),
            n % 3 == 0,
            data@.len() == i,
            forall|k: int|
                0 <= k < i ==> evaluates(
                    ar,
                    pixel_inhibition(
                        silver.data@[k - k % 3],
                        silver.data@[k - k % 3 + 1],
                        silver.data@[k - k % 3 + 2],
                        *matrix,
                        k % 3,
                    ),
                    (#[trigger] data@[k]).number(),
                ),
        decreases n - i,
    {
        let m: usize = i % 3;
        let base: usize = i - m;
        assert(base + 3 <= n);
        let v = inhibition_at(
            ar,
            silver.data[base],
            silver.data[base + 1],
            silver.data[base + 2],
            matrix,
            m,
        );
        data.push(v);
        i += 1;
    }
    let ghost filled = data@;
    while i < total
        invariant
            n <= i <= total,
            filled.len() == n,
            data@.len() == i,
            forall|k: int| 0 <= k < n ==> #[trigger] data@[k] == filled[k],
            forall|k: int| n <= k < i ==> #[trigger] data@[k] == T::zero_value(),
        decreases total - i,
    {
        data.push(T::zero());
        i += 1;
    }
    ImageBuf { width, height, data }
}

/// A share `w` of the tail, and the rest of the core: `(1 - w) * g + w * t`.
pub open spec fn mixture<T: Sample>(w: Double, g: T, t: T) -> Formula {
    plus(
        times(minus(T::stored(constant_one()), T::stored(double(w))), num(g)),
        times(T::stored(double(w)), num(t)),
    )
}

pub open spec fn constant_one() -> Formula {
    double(Double { bits: crate::density_curves::ONE })
}

/// A mixture of a core and a tail.
pub fn mixed<T: Sample, A: Arithmetic>(ar: &A, w: Double, g: T, t: T) -> (r: T)
    ensures
        evaluates(ar, mixture(w, g, t), r.number()),
{
    let one: Traced<Double> = Traced::constant(ar, crate::density_curves::ONE);
    let weight: Traced<Double> = Traced::new(ar, w);
    let one_t: Traced<T> = T::store(ar, one);
    let w_t: Traced<T> = T::store(ar, weight);
    let core: Traced<T> = Traced::new(ar, g);
    let tail: Traced<T> = Traced::new(ar, t);
    one_t.minus(ar, w_t).times(ar, core).plus(ar, w_t.times(ar, tail)).value
}

/// A plane of numbers mixed from a core and a tail.
pub fn mix_planes<T: Sample, A: Arithmetic>(ar: &A, w: Double, core: &Vec<T>, tail: &Vec<T>) -> (r:
    Vec<T>)
    requires
        core@.len() == tail@.len(),
    ensures
        r@.len() == core@.len(),
        forall|i: int|
            0 <= i < core@.len() ==> evaluates(
                ar,
                mixture(w, core@[i], tail@[i]),
                (#[trigger] r@[i]).number(),
            ),
{
    let mut r: Vec<T> = Vec::new();
    let mut i: usize = 0;
    while i < core.len()
        invariant
            i <= core@.len(),
            core@.len() == tail@.len(),
            r@.len() == i,
            forall|k: int|
                0 <= k < i ==> evaluates(
                    ar,
                    mixture(w, core@[k], tail@[k]),
                    (#[trigger] r@[k]).number(),
                ),
        decreases core.len() - i,
    {
        let v = mixed(ar, w, core[i], tail[i]);
        r.push(v);
        i += 1;
    }
    r
}

/// `r` is one channel of the inhibition after it has spread: a Gaussian core
/// and an exponential tail.
pub open spec fn is_diffused_channel<T: Sample, A: Arithmetic>(
    ar: &A,
    w: nat,
    h: nat,
    size: Single,
    tail: Single,
    weight: Double,
    plane: Seq<T>,
    r: Seq<T>,
) -> bool {
    r.len() == plane.len() && exists|g: Seq<T>, t: Seq<T>|
        {
            &&& g.len() == plane.len()
            &&& #[trigger] is_blurred(ar, w, h, size, plane, g)
            &&& #[trigger] is_exponential(ar, w, h, tail, plane, t)
            &&& forall|i: int|
                0 <= i < r.len() ==> evaluates(
                    ar,
                    mixture(weight, g[i], t[i]),
                    (#[trigger] r[i]).number(),
                )
        }
}

fn diffused_channel<T: Sample, A: Arithmetic>(
    ar: &A,
    img: &ImageBuf<T>,
    size: Single,
    tail: Single,
    weight: Double,
    c: usize,
) -> (r: Vec<T>)
    requires
        img.valid(),
        img.width <= isize::MAX,
        img.height <= isize::MAX,
        c < 3,
    ensures
        r@.len() == pixels_of(img.width, img.height),
        is_diffused_channel(
            ar,
            img.width as nat,
            img.height as nat,
            size,
            tail,
            weight,
            channel_of(img.data@, c as int),
            r@,
        ),
{
    let plane = img.extract_channel(c);
    assert(plane@ =~= channel_of(img.data@, c as int));
    let g = gaussian_blur_channel(ar, &plane, img.width, img.height, size);
    let t = exponential_filter_channel(ar, &plane, img.width, img.height, tail);
    mix_planes(ar, weight, &g, &t)
}

/// `r` is the inhibition after it has spread; without a core it stays.
pub open spec fn is_diffused<T: Sample, A: Arithmetic>(
    ar: &A,
    img: ImageBuf<T>,
    size: Single,
    tail: Single,
    weight: Double,
    r: ImageBuf<T>,
) -> bool {
    &&& r.width == img.width
    &&& r.height == img.height
    &&& r.valid()
    &&& if (Single { bits: 0 }).below(size) {
        forall|c: int|
            0 <= c < 3 ==> is_diffused_channel(
                ar,
                img.width as nat,
                img.height as nat,
                size,
                tail,
                weight,
                #[trigger] channel_of(img.data@, c),
                channel_of(r.data@, c),
            )
    } else {
        r.data@ == img.data@
    }
}

/// Lets the inhibition spread.
pub fn diffuse<T: Sample, A: Arithmetic>(
    ar: &A,
    img: ImageBuf<T>,
    size: Single,
    tail: Single,
    weight: Double,
) -> (r: ImageBuf<T>)
    requires
        img.valid(),
        img.width <= isize::MAX,
        img.height <= isize::MAX,
    ensures
        is_diffused(ar, img, size, tail, weight, r),
{
    let zero = Single { bits: 0 };
    if zero.is_below(size) {
        let c0 = diffused_channel(ar, &img, size, tail, weight, 0);
        let c1 = diffused_channel(ar, &img, size, tail, weight, 1);
        let c2 = diffused_channel(ar, &img, size, tail, weight, 2);
        ImageBuf::from_channels(img.width, img.height, c0.as_slice(), c1.as_slice(), c2.as_slice())
    } else {
        img
    }
}

/// `r` is `a - b`, number by number.
pub open spec fn is_difference<T: Sample, A: Arithmetic>(
    ar: &A,
    a: ImageBuf<T>,
    b: ImageBuf<T>,
    r: ImageBuf<T>,
) -> bool {
    &&& r.width == a.width
    &&& r.height == a.height
    &&& r.valid()
    &&& forall|i: int|
        0 <= i < a.data@.len() ==> evaluates(
            ar,
            minus(num(a.data@[i]), num(b.data@[i])),
            (#[trigger] r.data@[i]).number(),
        )
}

/// One image taken off another.
pub fn subtract<T: Sample, A: Arithmetic>(ar: &A, a: &ImageBuf<T>, b: &ImageBuf<T>) -> (r: ImageBuf<
    T,
>)
    requires
        a.valid(),
        b.valid(),
        a.width == b.width,
        a.height == b.height,
    ensures
        is_difference(ar, *a, *b, r),
{
    let mut data: Vec<T> = Vec::new();
    let mut i: usize = 0;
    while i < a.data.len()
        invariant
            i <= a.data@.len(),
            a.data@.len() == b.data@.len(),
            data@.len() == i,
            forall|k: int|
                0 <= k < i ==> evaluates(
                    ar,
                    minus(num(a.data@[k]), num(b.data@[k])),
                    (#[trigger] data@[k]).number(),
                ),
        decreases a.data.len() - i,
    {
        let x: Traced<T> = Traced::new(ar, a.data[i]);
        let y: Traced<T> = Traced::new(ar, b.data[i]);
        data.push(x.minus(ar, y).value);
        i += 1;
    }
    ImageBuf { width: a.width, height: a.height, data }
}

/// How the inhibitor spreads.
#[derive(Clone, Copy)]
pub struct Diffusion {
    /// Width of the core, in pixels.
    pub size: Single,
    /// Decay length of the tail, in pixels.
    pub tail: Single,
    /// Share of the tail.
    pub weight: Double,
}

/// `r` is the log exposure with the inhibition taken off.
pub open spec fn is_exposure_correction<T: Sample, A: Arithmetic>(
    ar: &A,
    log_raw: ImageBuf<T>,
    density: ImageBuf<T>,
    top: [Double; 3],
    matrix: [[Double; 3]; 3],
    spread: Diffusion,
    positive: bool,
    r: ImageBuf<T>,
) -> bool {
    exists|silver: ImageBuf<T>, held: ImageBuf<T>, spread_out: ImageBuf<T>|
        {
            &&& #[trigger] is_silver(ar, density, top, positive, silver)
            &&& #[trigger] is_inhibition(ar, silver, matrix, log_raw.width, log_raw.height, held)
            &&& is_diffused(ar, held, spread.size, spread.tail, spread.weight, spread_out)
            &&& #[trigger] is_difference(ar, log_raw, spread_out, r)
        }
}

/// Takes the inhibition that the densities release off the log exposure; the
/// densities may be of fewer pixels.
pub fn compute_exposure_correction<T: Sample, A: Arithmetic>(
    ar: &A,
    log_raw: &ImageBuf<T>,
    density_cmy: &ImageBuf<T>,
    density_max: [Double; 3],
    couplers_matrix: &[[Double; 3]; 3],
    spread: Diffusion,
    positive: bool,
) -> (r: ImageBuf<T>)
    requires
        log_raw.valid(),
        density_cmy.valid(),
        density_cmy.data@.len() <= log_raw.data@.len(),
        log_raw.width <= isize::MAX,
        log_raw.height <= isize::MAX,
    ensures
        is_exposure_correction(
            ar,
            *log_raw,
            *density_cmy,
            density_max,
            *couplers_matrix,
            spread,
            positive,
            r,
        ),
        r.width == log_raw.width,
        r.height == log_raw.height,
        r.valid(),
{
    let silver = silver_density(ar, density_cmy, density_max, positive);
    let held = inhibition(
        ar,
        &silver,
        couplers_matrix,
        log_raw.width,
        log_raw.height,
        log_raw.data.len(),
    );
    let ghost kept = held;
    let spread_out = diffuse(ar, held, spread.size, spread.tail, spread.weight);
    let r = subtract(ar, log_raw, &spread_out);
    proof {
        assert(is_silver(ar, *density_cmy, density_max, positive, silver));
        assert(is_inhibition(
            ar,
            silver,
            *couplers_matrix,
            log_raw.width,
            log_raw.height,
            kept,
        ));
        assert(is_difference(ar, *log_raw, spread_out, r));
    }
    r
}

// ── The whole correction ─────────────────────────────────────────────────

/// What the correction is made with.
#[derive(Clone, Copy)]
pub struct DirSettings {
    pub pixel_size_um: Single,
    pub amount: Double,
    pub diffusion_size_um: Double,
    pub diffusion_tail_um: Double,
    pub diffusion_tail_weight: Double,
    pub positive: bool,
    pub gamma: Single,
}

/// A length in pixels.
pub open spec fn in_pixels(length_um: Double, pixel_size_um: Single) -> Formula {
    narrow(over(double(length_um), widen(single(pixel_size_um))))
}

fn pixels_for<A: Arithmetic>(ar: &A, length_um: Double, pixel_size_um: Single) -> (r: Single)
    ensures
        is_single(ar, in_pixels(length_um, pixel_size_um), r),
{
    let p: Traced<Single> = Traced::new(ar, pixel_size_um);
    let l: Traced<Double> = Traced::new(ar, length_um);
    l.over(ar, p.widen(ar)).narrow(ar).value
}

fn wide_of<A: Arithmetic>(ar: &A, x: Single) -> (r: Double)
    ensures
        is_double(ar, widen(single(x)), r),
{
    let s: Traced<Single> = Traced::new(ar, x);
    s.widen(ar).value
}

/// Each number of a row as a double.
pub open spec fn is_wide_row<A: Arithmetic>(ar: &A, row: [Single; 3], r: [Double; 3]) -> bool {
    &&& is_double(ar, widen(single(row@[0])), r@[0])
    &&& is_double(ar, widen(single(row@[1])), r@[1])
    &&& is_double(ar, widen(single(row@[2])), r@[2])
}

pub open spec fn are_wide_rows<A: Arithmetic>(
    ar: &A,
    rows: Seq<[Single; 3]>,
    r: Seq<[Double; 3]>,
) -> bool {
    r.len() == rows.len() && forall|i: int|
        0 <= i < rows.len() ==> is_wide_row(ar, rows[i], #[trigger] r[i])
}

/// Rows of singles as doubles.
pub fn wide_rows<A: Arithmetic>(ar: &A, rows: &[[Single; 3]]) -> (r: Vec<[Double; 3]>)
    ensures
        are_wide_rows(ar, rows@, r@),
{
    let mut r: Vec<[Double; 3]> = Vec::new();
    let mut i: usize = 0;
    while i < rows.len()
        invariant
            i <= rows@.len(),
            r@.len() == i,
            forall|k: int| 0 <= k < i ==> is_wide_row(ar, rows@[k], #[trigger] r@[k]),
        decreases rows.len() - i,
    {
        let row = rows[i];
        r.push([wide_of(ar, row[0]), wide_of(ar, row[1]), wide_of(ar, row[2])]);
        i += 1;
    }
    r
}

pub open spec fn are_wide<A: Arithmetic>(ar: &A, xs: Seq<Single>, r: Seq<Double>) -> bool {
    r.len() == xs.len() && forall|i: int|
        0 <= i < xs.len() ==> is_double(ar, widen(single(xs[i])), #[trigger] r[i])
}

/// Singles as doubles.
pub fn wide_numbers<A: Arithmetic>(ar: &A, xs: &[Single]) -> (r: Vec<Double>)
    ensures
        are_wide(ar, xs@, r@),
{
    let mut r: Vec<Double> = Vec::new();
    let mut i: usize = 0;
    while i < xs.len()
        invariant
            i <= xs@.len(),
            r@.len() == i,
            forall|k: int| 0 <= k < i ==> is_double(ar, widen(single(xs@[k])), #[trigger] r@[k]),
        decreases xs.len() - i,
    {
        r.push(wide_of(ar, xs[i]));
        i += 1;
    }
    r
}

/// What the correction is computed from: the scaled matrix, the curves with
/// their lowest density taken off and without the couplers, and the spread.
pub struct DirTables {
    pub matrix: [[Double; 3]; 3],
    pub top: [Single; 3],
    pub curves: Vec<[Single; 3]>,
    pub spread: Diffusion,
}

impl DirTables {
    /// The curves come from `norm`, the given curves without their lowest
    /// density, and `short`, the scaled matrix in single precision.
    pub open spec fn curves_from<A: Arithmetic>(
        &self,
        ar: &A,
        positive: bool,
        log_exposure: Seq<Single>,
        curves: Seq<[Single; 3]>,
        low: [Single; 3],
        norm: Seq<[Single; 3]>,
        short: [[Single; 3]; 3],
    ) -> bool {
        &&& single_normalized(ar, curves, low, norm)
        &&& forall|i: int, j: int|
            0 <= i < 3 && 0 <= j < 3 ==> is_single(
                ar,
                narrow(double(self.matrix@[i]@[j])),
                #[trigger] short@[i]@[j],
            )
        &&& are_curves_before_dir(ar, positive, norm, short, log_exposure, self.curves@)
        &&& forall|c: int|
            0 <= c < 3 ==> is_single_extreme(
                column(norm, c),
                highest_finite(),
                #[trigger] self.top@[c],
            )
    }

    pub open spec fn is_for<A: Arithmetic>(
        &self,
        ar: &A,
        s: DirSettings,
        log_exposure: Seq<Single>,
        curves: Seq<[Single; 3]>,
        matrix: [[Double; 3]; 3],
    ) -> bool {
        &&& forall|i: int, j: int|
            0 <= i < 3 && 0 <= j < 3 ==> is_double(
                ar,
                times(double(matrix@[i]@[j]), double(s.amount)),
                #[trigger] self.matrix@[i]@[j],
            )
        &&& exists|low: [Single; 3], norm: Seq<[Single; 3]>, short: [[Single; 3]; 3]| #[trigger]
            self.curves_from(ar, s.positive, log_exposure, curves, low, norm, short)
        &&& is_single(ar, in_pixels(s.diffusion_size_um, s.pixel_size_um), self.spread.size)
        &&& is_single(ar, in_pixels(s.diffusion_tail_um, s.pixel_size_um), self.spread.tail)
        &&& self.spread.weight == s.diffusion_tail_weight
        &&& self.curves@.len() == curves.len()
    }
}

/// Prepares the correction.
pub fn dir_tables<A: Arithmetic>(
    ar: &A,
    s: DirSettings,
    log_exposure: &[Single],
    density_curves: &[[Single; 3]],
    couplers_matrix: [[Double; 3]; 3],
) -> (r: DirTables)
    requires
        log_exposure@.len() >= density_curves@.len(),
    ensures
        r.is_for(ar, s, log_exposure@, density_curves@, couplers_matrix),
{
    let matrix = scale_matrix(ar, couplers_matrix, s.amount);
    let norm = normalize_density_curves(ar, density_curves);
    let ghost low = choose|low: [Single; 3]| single_normalized(ar, density_curves@, low, norm@);
    let short = narrow_matrix(ar, matrix);
    let curves = compute_curves_before_dir(
        ar,
        norm.as_slice(),
        log_exposure,
        &short,
        s.positive,
    );
    let top = max_density(norm.as_slice());
    let spread = Diffusion {
        size: pixels_for(ar, s.diffusion_size_um, s.pixel_size_um),
        tail: pixels_for(ar, s.diffusion_tail_um, s.pixel_size_um),
        weight: s.diffusion_tail_weight,
    };
    let r = DirTables { matrix, top, curves, spread };
    proof {
        assert(r.curves_from(
            ar,
            s.positive,
            log_exposure@,
            density_curves@,
            low,
            norm@,
            short,
        ));
    }
    r
}

/// `r` is the density after the couplers have acted.
pub open spec fn is_density_correction<T: Sample, A: Arithmetic>(
    ar: &A,
    density: ImageBuf<T>,
    log_raw: ImageBuf<T>,
    s: DirSettings,
    log_exposure: Seq<Single>,
    tables: DirTables,
    r: ImageBuf<T>,
) -> bool {
    exists|top: [Double; 3], corrected: ImageBuf<T>, gamma: Double, axis: Seq<Double>, rows: Seq<
        [Double; 3],
    >, drawn: Seq<Double>|
        {
            &&& is_wide_row(ar, tables.top, top)
            &&& #[trigger] is_exposure_correction(
                ar,
                log_raw,
                density,
                top,
                tables.matrix,
                tables.spread,
                s.positive,
                corrected,
            )
            &&& is_double(ar, widen(single(s.gamma)), gamma)
            &&& are_wide(ar, log_exposure, axis)
            &&& #[trigger] are_wide_rows(ar, tables.curves@, rows)
            &&& #[trigger] is_gamma_axis(ar, axis, gamma, drawn)
            &&& is_read(ar, corrected, drawn, rows, r)
        }
}

/// The density after the couplers have acted: the exposure is corrected for
/// what they hold back, and read from the curves without them.
pub fn apply_density_correction<T: Sample, A: Arithmetic>(
    ar: &A,
    density_cmy: &ImageBuf<T>,
    log_raw: &ImageBuf<T>,
    s: DirSettings,
    log_exposure: &[Single],
    density_curves: &[[Single; 3]],
    couplers_matrix: [[Double; 3]; 3],
) -> (r: ImageBuf<T>)
    requires
        log_raw.valid(),
        density_cmy.valid(),
        log_raw.width == density_cmy.width,
        log_raw.height == density_cmy.height,
        log_raw.width <= isize::MAX,
        log_raw.height <= isize::MAX,
        log_exposure@.len() == density_curves@.len(),
        log_exposure@.len() > 0,
    ensures
        exists|tables: DirTables|
            tables.is_for(ar, s, log_exposure@, density_curves@, couplers_matrix)
                && #[trigger] is_density_correction(
                ar,
                *density_cmy,
                *log_raw,
                s,
                log_exposure@,
                tables,
                r,
            ),
{
    let tables = dir_tables(ar, s, log_exposure, density_curves, couplers_matrix);
    let t = tables.top;
    let top = [wide_of(ar, t[0]), wide_of(ar, t[1]), wide_of(ar, t[2])];
    let corrected = compute_exposure_correction(
        ar,
        log_raw,
        density_cmy,
        top,
        &tables.matrix,
        tables.spread,
        s.positive,
    );
    let axis = wide_numbers(ar, log_exposure);
    let rows = wide_rows(ar, tables.curves.as_slice());
    let gamma = wide_of(ar, s.gamma);
    let r = interpolate_exposure_to_density_f64(
        ar,
        &corrected,
        rows.as_slice(),
        axis.as_slice(),
        gamma,
    );
    proof {
        let drawn = choose|drawn: Seq<Double>| #[trigger]
            is_gamma_axis(ar, axis@, gamma, drawn) && is_read(ar, corrected, drawn, rows@, r);
        assert(is_gamma_axis(ar, axis@, gamma, drawn));
        assert(are_wide_rows(ar, tables.curves@, rows@));
        assert(is_exposure_correction(
            ar,
            *log_raw,
            *density_cmy,
            top,
            tables.matrix,
            tables.spread,
            s.positive,
            corrected,
        ));
        assert(is_density_correction(
            ar,
            *density_cmy,
            *log_raw,
            s,
            log_exposure@,
            tables,
            r,
        ));
    }
    r
}

} // verus!
