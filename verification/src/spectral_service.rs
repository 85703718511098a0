//! Spectral upsampling: spectra over chromaticity, and what a film's
//! sensitivity makes of them.

use vstd::prelude::*;
use vstd::string::*;

use crate::arith::{Arithmetic, Formula, Traced, Unary};
use crate::arith::{constant, double, is_double, minus, over, plus, single, sum_from, times, unary};
use crate::arith::widen;
use crate::bits::{Double, Single};
use crate::density_curves::ONE;
use crate::exact::{exact, lemma_factor_out, lemma_small_numbers, Functions};
use crate::index::lemma_row_major_bound;
use crate::npy::{is_array_of, are_singles, load_npy_f32, product, NpyArray, NpyError};
use crate::spectral::N_WAVELENGTHS;
use crate::text::{decimal, join, push_decimal};

verus! {

/// Encoding of 1e-10, above which a sum is divided by.
pub const SMALLEST_SUM: u64 = 0x3ddb_7cdf_d9d7_bdbb;

// ── The table of spectra ─────────────────────────────────────────────────

/// Spectra over a square grid of chromaticity coordinates.
pub struct SpectraLut {
    pub size: usize,
    pub n_wavelengths: usize,
    /// Spectrum after spectrum, row by row.
    pub data: Vec<Single>,
}

impl SpectraLut {
    /// Every grid position has its spectrum.
    pub open spec fn valid(&self) -> bool {
        self.data@.len() == self.size * self.size * self.n_wavelengths
    }

    /// The spectrum at a grid position.
    pub open spec fn at(&self, i: int, j: int) -> Seq<Single> {
        self.data@.subrange(
            (i * self.size + j) * self.n_wavelengths,
            (i * self.size + j) * self.n_wavelengths + self.n_wavelengths,
        )
    }

    /// A copy of the spectrum at a grid position.
    pub fn spectrum(&self, i: usize, j: usize) -> (r: Vec<Single>)
        requires
            self.valid(),
            i < self.size,
            j < self.size,
        ensures
            r@ == self.at(i as int, j as int),
            r@.len() == self.n_wavelengths,
    {
        let total: usize = self.data.len();
        proof {
            let s = self.size as int;
            let n = self.n_wavelengths as int;
            lemma_row_major_bound(i as int, s, j as int, s);
            assert((i * s + j) * n + n <= s * s * n) by (nonlinear_arith)
                requires
                    0 <= i * s + j < s * s,
                    0 <= n,
            ;
            assert(0 <= (i * s + j) * n) by (nonlinear_arith)
                requires
                    0 <= i * s + j,
                    0 <= n,
            ;
            assert(n == 0 ==> (i * s + j) * n == 0) by (nonlinear_arith);
            if n > 0 {
                assert(i * s + j <= (i * s + j) * n) by (nonlinear_arith)
                    requires
                        0 <= i * s + j,
                        1 <= n,
                ;
            }
            assert(0 <= i * s) by (nonlinear_arith)
                requires
                    0 <= i,
                    0 <= s,
            ;
        }
        if self.n_wavelengths == 0 {
            let r: Vec<Single> = Vec::new();
            assert(r@ =~= self.at(i as int, j as int));
            return r;
        }
        let start: usize = (i * self.size + j) * self.n_wavelengths;
        let end: usize = start + self.n_wavelengths;
        let part = vstd::slice::slice_subrange(self.data.as_slice(), start, end);
        vstd::slice::slice_to_vec(part)
    }
}

/// Sizes as they are listed: in brackets, with commas between them.
pub open spec fn size_list(shape: Seq<usize>) -> Seq<char> {
    "["@ + size_items(shape) + "]"@
}

pub open spec fn size_items(shape: Seq<usize>) -> Seq<char>
    decreases shape.len(),
{
    if shape.len() == 0 {
        Seq::empty()
    } else if shape.len() == 1 {
        decimal(shape[0] as nat)
    } else {
        size_items(shape.drop_last()) + ", "@ + decimal(shape.last() as nat)
    }
}

fn list_sizes(shape: &Vec<usize>) -> (r: String)
    ensures
        r@ == size_list(shape@),
{
    let mut items = String::new();
    let mut i: usize = 0;
    proof {
        assert(items@ =~= size_items(shape@.subrange(0, 0)));
    }
    while i < shape.len()
        invariant
            i <= shape@.len(),
            items@ == size_items(shape@.subrange(0, i as int)),
        decreases shape.len() - i,
    {
        let ghost next = shape@.subrange(0, i + 1);
        assert(next.drop_last() =~= shape@.subrange(0, i as int));
        if i > 0 {
            items.append(", ");
        }
        push_decimal(&mut items, shape[i] as u64);
        proof {
            if i == 0 {
                assert(items@ =~= decimal(shape@[0] as nat));
            }
        }
        i += 1;
    }
    assert(shape@.subrange(0, shape@.len() as int) =~= shape@);
    let mut r = String::new();
    r.append("[");
    r.append(items.as_str());
    r.append("]");
    assert(r@ =~= size_list(shape@));
    r
}

/// What is said of an array that cannot serve as a table of spectra.
pub open spec fn shape_error(shape: Seq<usize>) -> Option<Seq<char>> {
    if shape.len() != 3 || shape[2] != N_WAVELENGTHS {
        Some("spectra LUT shape mismatch: expected (N, N, 81), got "@ + size_list(shape))
    } else if shape[0] != shape[1] {
        Some(
            "spectra LUT must be square, got "@ + decimal(shape[0] as nat) + "x"@ + decimal(
                shape[1] as nat,
            ),
        )
    } else {
        None
    }
}

fn check_shape(shape: &Vec<usize>) -> (r: Option<String>)
    ensures
        match r {
            Some(text) => shape_error(shape@) == Some(text@),
            None => shape_error(shape@) is None,
        },
{
    if shape.len() != 3 || shape[2] != N_WAVELENGTHS {
        let list = list_sizes(shape);
        return Some(
            join("spectra LUT shape mismatch: expected (N, N, 81), got ", list.as_str()),
        );
    }
    if shape[0] != shape[1] {
        let mut text = String::new();
        text.append("spectra LUT must be square, got ");
        assert(text@ =~= "spectra LUT must be square, got "@);
        push_decimal(&mut text, shape[0] as u64);
        text.append("x");
        push_decimal(&mut text, shape[1] as u64);
        return Some(text);
    }
    None
}

/// What comes of an array: a table of spectra in single precision, or what is
/// wrong with its shape.
pub open spec fn table_from<A: Arithmetic>(
    ar: &A,
    array: NpyArray,
    r: Result<SpectraLut, String>,
) -> bool {
    match shape_error(array.shape@) {
        Some(text) => r matches Err(e) && e@ == text,
        None => r matches Ok(t) && t.valid() && t.size == array.shape@[0] && t.n_wavelengths
            == N_WAVELENGTHS && are_singles(ar, array.data, t.data@),
    }
}

/// A table of spectra out of an array.
pub fn spectra_from<A: Arithmetic>(ar: &A, array: NpyArray) -> (r: Result<SpectraLut, String>)
    requires
        array.complete(),
    ensures
        table_from(ar, array, r),
{
    match check_shape(&array.shape) {
        Some(text) => Err(text),
        None => {
            let size: usize = array.shape[0];
            proof {
                reveal_with_fuel(product, 4);
                let s = array.shape@;
                assert(s.drop_last().drop_last().drop_last().len() == 0);
                assert(product(s) == s[0] * s[1] * s[2]) by {
                    assert(s.drop_last()[1] == s[1]);
                    assert(s.drop_last().drop_last()[0] == s[0]);
                    assert(1 * s[0] as nat == s[0]);
                }
            }
            let data = array.data.into_singles(ar);
            Ok(SpectraLut { size, n_wavelengths: N_WAVELENGTHS, data })
        },
    }
}

/// The table of spectra in the contents of a file.
pub fn load_spectra_lut<A: Arithmetic>(ar: &A, file: &[u8]) -> (r: Result<SpectraLut, String>)
    ensures
        exists|array: Result<NpyArray, NpyError>| #[trigger]
            is_array_of(file@, array) && loaded(ar, array, r),
        r matches Ok(t) ==> t.valid() && t.n_wavelengths == N_WAVELENGTHS,
{
    let array = load_npy_f32(file);
    let ghost read = array;
    let r = match array {
        Err(e) => Err(join("loading spectra LUT: ", e.message().as_str())),
        Ok(a) => spectra_from(ar, a),
    };
    assert(is_array_of(file@, read) && loaded(ar, read, r));
    r
}

/// What comes of a file, by what reading its array gives.
pub open spec fn loaded<A: Arithmetic>(
    ar: &A,
    array: Result<NpyArray, NpyError>,
    r: Result<SpectraLut, String>,
) -> bool {
    match array {
        Err(e) => r matches Err(t) && t@ == "loading spectra LUT: "@ + e.text(),
        Ok(a) => table_from(ar, a, r),
    }
}

// ── Film exposure over chromaticity ──────────────────────────────────────

/// Film exposure of each channel over the same grid.
pub struct TcLut {
    pub size: usize,
    pub channels: usize,
    pub data: Vec<Double>,
}

impl TcLut {
    pub open spec fn valid(&self) -> bool {
        self.data@.len() == self.size * self.size * self.channels
    }
}

/// A spectrum times the sensitivity of channel `c`, over `n` wavelengths.
pub open spec fn exposure_sum(
    spectrum: Seq<Single>,
    sensitivity: Seq<[Double; 3]>,
    c: int,
    n: int,
) -> Formula {
    sum_from(
        constant(0),
        |wl: int| times(widen(single(spectrum[wl])), double(sensitivity[wl]@[c])),
        n,
    )
}

fn exposure_of<A: Arithmetic>(
    ar: &A,
    spectrum: &Vec<Single>,
    sensitivity: &[[Double; 3]],
    c: usize,
    n: usize,
) -> (r: Double)
    requires
        n <= spectrum@.len(),
        n <= sensitivity@.len(),
        c < 3,
    ensures
        is_double(ar, exposure_sum(spectrum@, sensitivity@, c as int, n as int), r),
{
    let mut sum: Traced<Double> = Traced::constant(ar, 0);
    let mut wl: usize = 0;
    while wl < n
        invariant
            wl <= n,
            n <= spectrum@.len(),
            n <= sensitivity@.len(),
            c < 3,
            sum.holds(ar),
            sum.formula@ == exposure_sum(spectrum@, sensitivity@, c as int, wl as int),
        decreases n - wl,
    {
        let row = sensitivity[wl];
        let s: Traced<Single> = Traced::new(ar, spectrum[wl]);
        let k: Traced<Double> = Traced::new(ar, row[c]);
        sum = sum.plus(ar, s.widen(ar).times(ar, k));
        wl += 1;
    }
    sum.value
}

/// The smaller of two lengths.
pub open spec fn shorter(a: nat, b: nat) -> nat {
    if a <= b {
        a
    } else {
        b
    }
}

/// `r` is the exposure that each spectrum of the table gives each channel.
pub open spec fn is_tc_lut<A: Arithmetic>(
    ar: &A,
    spectra: SpectraLut,
    sensitivity: Seq<[Double; 3]>,
    r: TcLut,
) -> bool {
    &&& r.size == spectra.size
    &&& r.channels == 3
    &&& r.valid()
    &&& forall|p: int, c: int|
        0 <= p < spectra.size * spectra.size && 0 <= c < 3 ==> is_double(
            ar,
            exposure_sum(
                spectra.at(p / spectra.size as int, p % spectra.size as int),
                sensitivity,
                c,
                shorter(spectra.n_wavelengths as nat, sensitivity.len()) as int,
            ),
            #[trigger] r.data@[3 * p + c],
        )
}

/// The film exposure over chromaticity.
pub fn compute_tc_lut<A: Arithmetic>(
    ar: &A,
    spectra_lut: &SpectraLut,
    sensitivity: &[[Double; 3]],
) -> (r: TcLut)
    requires
        spectra_lut.valid(),
        spectra_lut.size * spectra_lut.size * 3 <= usize::MAX,
    ensures
        is_tc_lut(ar, *spectra_lut, sensitivity@, r),
{
    let size: usize = spectra_lut.size;
    let n_wl: usize = if spectra_lut.n_wavelengths <= sensitivity.len() {
        spectra_lut.n_wavelengths
    } else {
        sensitivity.len()
    };
    assert(0 <= size * size) by (nonlinear_arith);
    let count: usize = size * size;
    let mut data: Vec<Double> = Vec::new();
    let mut p: usize = 0;
    while p < count
        invariant
            p <= count,
            count == size * size,
            size == spectra_lut.size,
            spectra_lut.valid(),
            n_wl == shorter(spectra_lut.n_wavelengths as nat, sensitivity@.len()),
            data@.len() == 3 * p,
            forall|q: int, c: int|
                0 <= q < p && 0 <= c < 3 ==> is_double(
                    ar,
                    exposure_sum(
                        spectra_lut.at(q / size as int, q % size as int),
                        sensitivity@,
                        c,
                        n_wl as int,
                    ),
                    #[trigger] data@[3 * q + c],
                ),
        decreases count - p,
    {
        assert(size > 0) by (nonlinear_arith)
            requires
                p < size * size,
                0 <= p,
                0 <= size,
        ;
        let i: usize = p / size;
        let j: usize = p % size;
        assert(i < size) by (nonlinear_arith)
            requires
                p < size * size,
                i == p / size,
                size > 0,
        ;
        let s = spectra_lut.spectrum(i, j);
        let ghost before = data@;
        let v0 = exposure_of(ar, &s, sensitivity, 0, n_wl);
        let v1 = exposure_of(ar, &s, sensitivity, 1, n_wl);
        let v2 = exposure_of(ar, &s, sensitivity, 2, n_wl);
        data.push(v0);
        data.push(v1);
        data.push(v2);
        proof {
            assert forall|q: int, c: int| 0 <= q < p + 1 && 0 <= c < 3 implies is_double(
                ar,
                exposure_sum(
                    spectra_lut.at(q / size as int, q % size as int),
                    sensitivity@,
                    c,
                    n_wl as int,
                ),
                #[trigger] data@[3 * q + c],
            ) by {
                if q < p {
                    assert(data@[3 * q + c] == before[3 * q + c]);
                } else {
                    assert(data@[3 * p + 0] == v0);
                    assert(data@[3 * p + 1] == v1);
                    assert(data@[3 * p + 2] == v2);
                }
            }
        }
        p += 1;
    }
    TcLut { size, channels: 3, data }
}

// ── Summation by halves ──────────────────────────────────────────────────

/// The sum of formulas by halves.
pub open spec fn pairwise(xs: Seq<Formula>) -> Formula
    decreases xs.len(),
{
    if xs.len() == 0 {
        constant(0)
    } else if xs.len() == 1 {
        xs[0]
    } else if xs.len() == 2 {
        plus(xs[0], xs[1])
    } else {
        let mid = xs.len() as int / 2;
        plus(pairwise(xs.subrange(0, mid)), pairwise(xs.subrange(mid, xs.len() as int)))
    }
}

/// Numbers as formulas.
pub open spec fn leaves(xs: Seq<Double>) -> Seq<Formula> {
    Seq::new(xs.len(), |i: int| double(xs[i]))
}

fn pairwise_range<A: Arithmetic>(ar: &A, xs: &[Double], from: usize, to: usize) -> (r: Traced<
    Double,
>)
    requires
        from <= to <= xs@.len(),
    ensures
        r.holds(ar),
        r.formula@ == pairwise(leaves(xs@.subrange(from as int, to as int))),
    decreases to - from,
{
    let ghost part = leaves(xs@.subrange(from as int, to as int));
    let n: usize = to - from;
    if n == 0 {
        Traced::constant(ar, 0)
    } else if n == 1 {
        assert(part[0] == double(xs@[from as int]));
        Traced::new(ar, xs[from])
    } else if n == 2 {
        assert(part[0] == double(xs@[from as int]));
        assert(part[1] == double(xs@[from + 1]));
        let a: Traced<Double> = Traced::new(ar, xs[from]);
        a.plus(ar, Traced::new(ar, xs[from + 1]))
    } else {
        let mid: usize = from + n / 2;
        let a = pairwise_range(ar, xs, from, mid);
        let b = pairwise_range(ar, xs, mid, to);
        proof {
            let half = part.len() as int / 2;
            assert(part.subrange(0, half) =~= leaves(xs@.subrange(from as int, mid as int)));
            assert(part.subrange(half, part.len() as int) =~= leaves(
                xs@.subrange(mid as int, to as int),
            ));
        }
        a.plus(ar, b)
    }
}

/// The sum of numbers by halves, from zero for none.
pub fn pairwise_sum_f64_pub<A: Arithmetic>(ar: &A, xs: &[Double]) -> (r: Double)
    ensures
        is_double(ar, pairwise(leaves(xs@)), r),
{
    let n: usize = xs.len();
    let r = pairwise_range(ar, xs, 0, n);
    assert(xs@.subrange(0, n as int) =~= xs@);
    r.value
}

// ── The bandpass window ──────────────────────────────────────────────────

/// A wavelength in nanometres.
pub open spec fn nanometres(i: int) -> Formula {
    // 380 and 5
    plus(
        constant(0x4077_c000_0000_0000),
        times(Formula::Whole(i as u64), constant(0x4014_0000_0000_0000)),
    )
}

/// How far a wavelength lies from an edge, in widths of the edge.
pub open spec fn edge_distance(i: int, centre: Double, sigma: Double) -> Formula {
    over(
        minus(nanometres(i), double(centre)),
        times(double(sigma), constant(0x3ff6_a09e_667f_3bcd)),
    )
}

/// The window at a wavelength: it rises at the ultraviolet edge and falls at
/// the infrared one.
pub open spec fn window_at(i: int, p: Seq<Double>) -> Formula {
    let half = constant(0x3fe0_0000_0000_0000);
    let one = constant(ONE);
    times(
        times(half, plus(one, unary(Unary::Erf, edge_distance(i, p[0], p[1])))),
        times(half, minus(one, unary(Unary::Erf, edge_distance(i, p[2], p[3])))),
    )
}

fn distance_from<A: Arithmetic>(ar: &A, i: usize, centre: Double, sigma: Double) -> (r: Traced<
    Double,
>)
    ensures
        r.holds(ar),
        r.formula@ == edge_distance(i as int, centre, sigma),
{
    let at: Traced<Double> = Traced::whole(ar, i as u64);
    let start: Traced<Double> = Traced::constant(ar, 0x4077_c000_0000_0000);
    let step: Traced<Double> = Traced::constant(ar, 0x4014_0000_0000_0000);
    let wl = start.plus(ar, at.times(ar, step));
    let s: Traced<Double> = Traced::new(ar, sigma);
    let root2: Traced<Double> = Traced::constant(ar, 0x3ff6_a09e_667f_3bcd);
    wl.minus(ar, Traced::new(ar, centre)).over(ar, s.times(ar, root2))
}

/// The window over the wavelengths.
pub fn eval_erf4_bandpass<A: Arithmetic>(ar: &A, params: &[Double]) -> (r: Vec<Double>)
    requires
        params@.len() >= 4,
    ensures
        is_window(ar, params@, r@),
{
    let mut r: Vec<Double> = Vec::new();
    let mut i: usize = 0;
    while i < N_WAVELENGTHS
        invariant
            i <= N_WAVELENGTHS,
            params@.len() >= 4,
            r@.len() == i,
            forall|k: int|
                0 <= k < i ==> is_double(ar, window_at(k, params@), #[trigger] r@[k]),
        decreases N_WAVELENGTHS - i,
    {
        let half: Traced<Double> = Traced::constant(ar, 0x3fe0_0000_0000_0000);
        let one: Traced<Double> = Traced::constant(ar, ONE);
        let uv = distance_from(ar, i, params[0], params[1]).unary(ar, Unary::Erf);
        let ir = distance_from(ar, i, params[2], params[3]).unary(ar, Unary::Erf);
        let rise = half.times(ar, one.plus(ar, uv));
        let fall = half.times(ar, one.minus(ar, ir));
        r.push(rise.times(ar, fall).value);
        i += 1;
    }
    r
}

pub open spec fn is_window<A: Arithmetic>(ar: &A, params: Seq<Double>, r: Seq<Double>) -> bool {
    &&& r.len() == N_WAVELENGTHS
    &&& forall|k: int|
        0 <= k < r.len() ==> is_double(ar, window_at(k, params), #[trigger] r[k])
}

/// The window for the parameters: all ones where there are fewer than four.
pub open spec fn is_window_or_ones<A: Arithmetic>(
    ar: &A,
    params: Seq<Double>,
    r: Seq<Double>,
) -> bool {
    if params.len() >= 4 {
        is_window(ar, params, r)
    } else {
        r == Seq::new(N_WAVELENGTHS as nat, |k: int| Double { bits: ONE })
    }
}

fn window_or_ones<A: Arithmetic>(ar: &A, params: &[Double]) -> (r: Vec<Double>)
    ensures
        is_window_or_ones(ar, params@, r@),
        r@.len() == N_WAVELENGTHS,
{
    if params.len() >= 4 {
        return eval_erf4_bandpass(ar, params);
    }
    let mut r: Vec<Double> = Vec::new();
    let mut i: usize = 0;
    while i < N_WAVELENGTHS
        invariant
            i <= N_WAVELENGTHS,
            r@.len() == i,
            forall|k: int| 0 <= k < i ==> #[trigger] r@[k] == (Double { bits: ONE }),
        decreases N_WAVELENGTHS - i,
    {
        r.push(Double { bits: ONE });
        i += 1;
    }
    assert(r@ =~= Seq::new(N_WAVELENGTHS as nat, |k: int| Double { bits: ONE }));
    r
}

/// The light that a channel gets through the window, and without it, at each
/// wavelength.
pub open spec fn are_window_terms<A: Arithmetic>(
    ar: &A,
    sensitivity: Seq<[Double; 3]>,
    illuminant: Seq<Double>,
    window: Seq<Double>,
    c: int,
    n: nat,
    through: Seq<Double>,
    all: Seq<Double>,
) -> bool {
    &&& through.len() == n
    &&& all.len() == n
    &&& forall|wl: int|
        0 <= wl < n ==> is_double(
            ar,
            times(double(sensitivity[wl]@[c]), double(illuminant[wl])),
            #[trigger] all[wl],
        )
    &&& forall|wl: int|
        0 <= wl < n ==> is_double(
            ar,
            times(
                times(double(sensitivity[wl]@[c]), double(illuminant[wl])),
                double(window[wl]),
            ),
            #[trigger] through[wl],
        )
}

/// `r` is the window of a channel, divided by the share of light that it lets
/// through; where there is hardly any light it stays.
pub open spec fn is_normalized_window<A: Arithmetic>(
    ar: &A,
    sensitivity: Seq<[Double; 3]>,
    illuminant: Seq<Double>,
    window: Seq<Double>,
    c: int,
    n: nat,
    r: Seq<Double>,
) -> bool {
    exists|through: Seq<Double>, all: Seq<Double>, part: Double, whole: Double|
        {
            &&& #[trigger] are_window_terms(
                ar,
                sensitivity,
                illuminant,
                window,
                c,
                n,
                through,
                all,
            )
            &&& #[trigger] is_double(ar, pairwise(leaves(through)), part)
            &&& #[trigger] is_double(ar, pairwise(leaves(all)), whole)
            &&& r.len() == window.len()
            &&& if (Double { bits: SMALLEST_SUM }).below(part) && (Double {
                bits: SMALLEST_SUM,
            }).below(whole) {
                forall|wl: int|
                    0 <= wl < r.len() ==> if wl < n {
                        is_double(
                            ar,
                            over(double(window[wl]), over(double(part), double(whole))),
                            #[trigger] r[wl],
                        )
                    } else {
                        r[wl] == window[wl]
                    }
            } else {
                r == window
            }
        }
}

fn normalized_window<A: Arithmetic>(
    ar: &A,
    sensitivity: &[[Double; 3]],
    illuminant: &[Double],
    window: &Vec<Double>,
    c: usize,
    n: usize,
) -> (r: Vec<Double>)
    requires
        c < 3,
        n <= sensitivity@.len(),
        n <= illuminant@.len(),
        n <= window@.len(),
    ensures
        r@.len() == window@.len(),
        is_normalized_window(
            ar,
            sensitivity@,
            illuminant@,
            window@,
            c as int,
            n as nat,
            r@,
        ),
{
    let mut through: Vec<Double> = Vec::new();
    let mut all: Vec<Double> = Vec::new();
    let mut wl: usize = 0;
    while wl < n
        invariant
            wl <= n,
            c < 3,
            n <= sensitivity@.len(),
            n <= illuminant@.len(),
            n <= window@.len(),
            are_window_terms(
                ar,
                sensitivity@,
                illuminant@,
                window@,
                c as int,
                wl as nat,
                through@,
                all@,
            ),
        decreases n - wl,
    {
        let row = sensitivity[wl];
        let s: Traced<Double> = Traced::new(ar, row[c]);
        let si = s.times(ar, Traced::new(ar, illuminant[wl]));
        let t = si.times(ar, Traced::new(ar, window[wl]));
        through.push(t.value);
        all.push(si.value);
        wl += 1;
    }
    let part = pairwise_sum_f64_pub(ar, through.as_slice());
    let whole = pairwise_sum_f64_pub(ar, all.as_slice());
    let limit = Double { bits: SMALLEST_SUM };
    let scale: bool = limit.is_below(part) && limit.is_below(whole);
    let mut r: Vec<Double> = Vec::new();
    let mut i: usize = 0;
    while i < window.len()
        invariant
            i <= window@.len(),
            r@.len() == i,
            forall|k: int|
                0 <= k < i ==> if scale && k < n {
                    is_double(
                        ar,
                        over(double(window@[k]), over(double(part), double(whole))),
                        #[trigger] r@[k],
                    )
                } else {
                    r@[k] == window@[k]
                },
        decreases window.len() - i,
    {
        if scale && i < n {
            let p: Traced<Double> = Traced::new(ar, part);
            let share = p.over(ar, Traced::new(ar, whole));
            let v: Traced<Double> = Traced::new(ar, window[i]);
            r.push(v.over(ar, share).value);
        } else {
            r.push(window[i]);
        }
        i += 1;
    }
    proof {
        assert(is_double(ar, pairwise(leaves(through@)), part));
        assert(is_double(ar, pairwise(leaves(all@)), whole));
        if !scale {
            assert(r@ =~= window@);
        }
    }
    r
}

// ── Film exposure through the window ─────────────────────────────────────

/// The spectra as one matrix of `n` columns.
pub open spec fn is_spectra_matrix<A: Arithmetic>(
    ar: &A,
    spectra: SpectraLut,
    n: nat,
    r: Seq<Double>,
) -> bool {
    &&& r.len() == spectra.size * spectra.size * n
    &&& forall|p: int, wl: int|
        0 <= p < spectra.size * spectra.size && 0 <= wl < n ==> is_double(
            ar,
            widen(single(spectra.data@[p * spectra.n_wavelengths + wl])),
            #[trigger] r[p * n + wl],
        )
}

/// The windowed sensitivities as one matrix of three columns.
pub open spec fn is_sensitivity_matrix<A: Arithmetic>(
    ar: &A,
    sensitivity: Seq<[Double; 3]>,
    windows: Seq<Seq<Double>>,
    n: nat,
    r: Seq<Double>,
) -> bool {
    &&& r.len() == 3 * n
    &&& forall|wl: int, c: int|
        0 <= wl < n && 0 <= c < 3 ==> is_double(
            ar,
            times(double(sensitivity[wl]@[c]), double(windows[c][wl])),
            #[trigger] r[3 * wl + c],
        )
}

fn sensitivity_matrix<A: Arithmetic>(
    ar: &A,
    sensitivity: &[[Double; 3]],
    w0: &Vec<Double>,
    w1: &Vec<Double>,
    w2: &Vec<Double>,
    n: usize,
) -> (r: Vec<Double>)
    requires
        n <= sensitivity@.len(),
        n <= w0@.len(),
        n <= w1@.len(),
        n <= w2@.len(),
    ensures
        is_sensitivity_matrix(ar, sensitivity@, seq![w0@, w1@, w2@], n as nat, r@),
{
    let ghost windows = seq![w0@, w1@, w2@];
    let mut r: Vec<Double> = Vec::new();
    let mut wl: usize = 0;
    while wl < n
        invariant
            wl <= n,
            n <= sensitivity@.len(),
            n <= w0@.len(),
            n <= w1@.len(),
            n <= w2@.len(),
            windows == seq![w0@, w1@, w2@],
            is_sensitivity_matrix(ar, sensitivity@, windows, wl as nat, r@),
        decreases n - wl,
    {
        let row = sensitivity[wl];
        let s0: Traced<Double> = Traced::new(ar, row[0]);
        let s1: Traced<Double> = Traced::new(ar, row[1]);
        let s2: Traced<Double> = Traced::new(ar, row[2]);
        let v0 = s0.times(ar, Traced::new(ar, w0[wl])).value;
        let v1 = s1.times(ar, Traced::new(ar, w1[wl])).value;
        let v2 = s2.times(ar, Traced::new(ar, w2[wl])).value;
        let ghost before = r@;
        r.push(v0);
        r.push(v1);
        r.push(v2);
        proof {
            assert forall|k: int, c: int| 0 <= k < wl + 1 && 0 <= c < 3 implies is_double(
                ar,
                times(double(sensitivity@[k]@[c]), double(windows[c][k])),
                #[trigger] r@[3 * k + c],
            ) by {
                if k < wl {
                    assert(r@[3 * k + c] == before[3 * k + c]);
                } else {
                    assert(r@[3 * wl + 0] == v0);
                    assert(r@[3 * wl + 1] == v1);
                    assert(r@[3 * wl + 2] == v2);
                }
            }
        }
        wl += 1;
    }
    r
}

fn spectra_matrix<A: Arithmetic>(ar: &A, spectra: &SpectraLut, n: usize) -> (r: Vec<Double>)
    requires
        spectra.valid(),
        n <= spectra.n_wavelengths,
        spectra.size * spectra.size <= usize::MAX,
    ensures
        is_spectra_matrix(ar, *spectra, n as nat, r@),
{
    assert(0 <= spectra.size * spectra.size) by (nonlinear_arith);
    let count: usize = spectra.size * spectra.size;
    let total: usize = spectra.data.len();
    let stride: usize = spectra.n_wavelengths;
    let mut r: Vec<Double> = Vec::new();
    let mut p: usize = 0;
    let mut base: usize = 0;
    assert(0 * stride == 0) by (nonlinear_arith);
    assert(0 * n == 0) by (nonlinear_arith);
    while p < count
        invariant
            p <= count,
            count == spectra.size * spectra.size,
            total == spectra.data@.len(),
            total == count * stride,
            stride == spectra.n_wavelengths,
            n <= stride,
            base == p * stride,
            r@.len() == p * n,
            forall|q: int, wl: int|
                0 <= q < p && 0 <= wl < n ==> is_double(
                    ar,
                    widen(single(spectra.data@[q * stride + wl])),
                    #[trigger] r@[q * n + wl],
                ),
        decreases count - p,
    {
        proof {
            assert(p * stride + stride <= count * stride) by (nonlinear_arith)
                requires
                    p < count,
                    0 <= stride,
            ;
            assert((p + 1) * stride == p * stride + stride) by (nonlinear_arith);
            assert((p + 1) * n == p * n + n) by (nonlinear_arith);
        }
        let ghost before = r@;
        let mut wl: usize = 0;
        while wl < n
            invariant
                wl <= n,
                n <= stride,
                base + stride <= total,
                total == spectra.data@.len(),
                before.len() == p * n,
                r@.len() == before.len() + wl,
                forall|k: int| 0 <= k < before.len() ==> #[trigger] r@[k] == before[k],
                forall|k: int|
                    0 <= k < wl ==> is_double(
                        ar,
                        widen(single(spectra.data@[base + k])),
                        #[trigger] r@[before.len() + k],
                    ),
            decreases n - wl,
        {
            let s: Traced<Single> = Traced::new(ar, spectra.data[base + wl]);
            r.push(s.widen(ar).value);
            wl += 1;
        }
        proof {
            assert forall|q: int, k: int| 0 <= q < p + 1 && 0 <= k < n implies is_double(
                ar,
                widen(single(spectra.data@[q * stride + k])),
                #[trigger] r@[q * n + k],
            ) by {
                if q < p {
                    assert(0 <= q * n + k < p * n) by (nonlinear_arith)
                        requires
                            0 <= q < p,
                            0 <= k < n,
                    ;
                    assert(r@[q * n + k] == before[q * n + k]);
                } else {
                    assert(q * n + k == before.len() + k);
                    assert(is_double(
                        ar,
                        widen(single(spectra.data@[base + k])),
                        r@[before.len() + k],
                    ));
                }
            }
        }
        p += 1;
        base += stride;
    }
    r
}

/// Which operands a matrix product is made of: `rows` by `inner`, times
/// `inner` by 3.
#[derive(Clone, Copy, PartialEq, Eq, Structural)]
pub struct ProductShape {
    pub rows: usize,
    pub inner: usize,
}

/// The wavelengths that are counted: those of the table, of the sensitivities
/// and of the standard range.
pub open spec fn counted_wavelengths(spectra: SpectraLut, sensitivity: Seq<[Double; 3]>) -> nat {
    shorter(shorter(spectra.n_wavelengths as nat, sensitivity.len()), N_WAVELENGTHS as nat)
}

/// The operands of the product that gives the exposures.
pub open spec fn are_operands<A: Arithmetic>(
    ar: &A,
    spectra: SpectraLut,
    sensitivity: Seq<[Double; 3]>,
    window_params: Seq<Double>,
    illuminant: Seq<Double>,
    left: Seq<Double>,
    right: Seq<Double>,
) -> bool {
    let n = counted_wavelengths(spectra, sensitivity);
    exists|window: Seq<Double>, windows: Seq<Seq<Double>>|
        {
            &&& windows.len() == 3
            &&& forall|c: int|
                0 <= c < 3 ==> is_normalized_window(
                    ar,
                    sensitivity,
                    illuminant,
                    window,
                    c,
                    n,
                    #[trigger] windows[c],
                )
            &&& is_spectra_matrix(ar, spectra, n, left)
            &&& #[trigger] is_sensitivity_matrix(ar, sensitivity, windows, n, right)
            &&& #[trigger] is_window_or_ones(ar, window_params, window)
        }
}

/// `product` takes any two matrices, and gives three numbers for each row.
pub open spec fn fills<P: Fn(&Vec<Double>, &Vec<Double>, ProductShape) -> Vec<Double>>(
    product: P,
) -> bool {
    &&& forall|a: &Vec<Double>, b: &Vec<Double>, s: ProductShape| #[trigger]
        call_requires(product, (a, b, s))
    &&& forall|a: &Vec<Double>, b: &Vec<Double>, s: ProductShape, r: Vec<Double>| #[trigger]
        call_ensures(product, (a, b, s), r) ==> r@.len() == s.rows * 3
}

/// `r` is what `product` gives for two matrices.
pub open spec fn multiplies<P: Fn(&Vec<Double>, &Vec<Double>, ProductShape) -> Vec<Double>>(
    product: P,
    rows: usize,
    inner: usize,
    left: Vec<Double>,
    right: Vec<Double>,
    r: Vec<Double>,
) -> bool {
    call_ensures(product, (&left, &right, ProductShape { rows, inner }), r)
}

/// The film exposure over chromaticity, with the sensitivities seen through a
/// bandpass window. `product` multiplies the two matrices that it is handed.
pub fn compute_tc_lut_with_window<
    A: Arithmetic,
    P: Fn(&Vec<Double>, &Vec<Double>, ProductShape) -> Vec<Double>,
>(
    ar: &A,
    spectra_lut: &SpectraLut,
    sensitivity: &[[Double; 3]],
    window_params: &[Double],
    illuminant: &[Double],
    product: P,
) -> (r: TcLut)
    requires
        spectra_lut.valid(),
        spectra_lut.size * spectra_lut.size <= usize::MAX,
        illuminant@.len() >= counted_wavelengths(*spectra_lut, sensitivity@),
        fills(product),
    ensures
        r.size == spectra_lut.size,
        r.channels == 3,
        r.valid(),
        exists|left: Vec<Double>, right: Vec<Double>|
            multiplies(
                product,
                (spectra_lut.size * spectra_lut.size) as usize,
                counted_wavelengths(*spectra_lut, sensitivity@) as usize,
                left,
                right,
                r.data,
            ) && #[trigger] are_operands(
                ar,
                *spectra_lut,
                sensitivity@,
                window_params@,
                illuminant@,
                left@,
                right@,
            ),
{
    let mut n: usize = spectra_lut.n_wavelengths;
    if sensitivity.len() < n {
        n = sensitivity.len();
    }
    if N_WAVELENGTHS < n {
        n = N_WAVELENGTHS;
    }
    let window = window_or_ones(ar, window_params);
    let w0 = normalized_window(ar, sensitivity, illuminant, &window, 0, n);
    let w1 = normalized_window(ar, sensitivity, illuminant, &window, 1, n);
    let w2 = normalized_window(ar, sensitivity, illuminant, &window, 2, n);
    let left = spectra_matrix(ar, spectra_lut, n);
    let right = sensitivity_matrix(ar, sensitivity, &w0, &w1, &w2, n);
    assert(0 <= spectra_lut.size * spectra_lut.size) by (nonlinear_arith);
    let rows: usize = spectra_lut.size * spectra_lut.size;
    let shape = ProductShape { rows, inner: n };
    let data = product(&left, &right, shape);
    proof {
        assert(multiplies(product, rows, n, left, right, data));
        assert(n == counted_wavelengths(*spectra_lut, sensitivity@));
        let windows = seq![w0@, w1@, w2@];
        assert(is_sensitivity_matrix(ar, sensitivity@, windows, n as nat, right@));
        assert(is_window_or_ones(ar, window_params@, window@));
        assert forall|c: int| 0 <= c < 3 implies is_normalized_window(
            ar,
            sensitivity@,
            illuminant@,
            window@,
            c,
            n as nat,
            #[trigger] windows[c],
        ) by {
            if c == 0 {
                assert(windows[c] == w0@);
            } else if c == 1 {
                assert(windows[c] == w1@);
            } else {
                assert(windows[c] == w2@);
            }
        }
        assert(are_operands(
            ar,
            *spectra_lut,
            sensitivity@,
            window_params@,
            illuminant@,
            left@,
            right@,
        ));
    }
    TcLut { size: spectra_lut.size, channels: 3, data }
}

/// Exposure of a channel by a grey card of 18.4 %, over `n` wavelengths.
pub open spec fn midgray_sum(
    sensitivity: Seq<[Double; 3]>,
    illuminant: Seq<Single>,
    c: int,
    n: int,
) -> Formula {
    sum_from(
        constant(0),
        |wl: int|
            times(
                times(widen(single(illuminant[wl])), constant(0x3fc7_8d4f_df3b_645a)),
                double(sensitivity[wl]@[c]),
            ),
        n,
    )
}

/// `r` brings the green exposure of a grey card to 1, and is 1 where there is
/// hardly any.
pub open spec fn is_midgray_factor<A: Arithmetic>(
    ar: &A,
    sensitivity: Seq<[Double; 3]>,
    illuminant: Seq<Single>,
    r: Double,
) -> bool {
    exists|green: Double| #[trigger]
        is_double(
            ar,
            midgray_sum(
                sensitivity,
                illuminant,
                1,
                shorter(sensitivity.len(), illuminant.len()) as int,
            ),
            green,
        ) && if (Double { bits: SMALLEST_SUM }).below(green) {
            is_double(ar, over(constant(ONE), double(green)), r)
        } else {
            r.bits == ONE
        }
}

/// What brings the green exposure of a grey card to 1; 1 where there is
/// hardly any.
pub fn compute_midgray_normalization<A: Arithmetic>(
    ar: &A,
    sensitivity: &[[Double; 3]],
    illuminant: &[Single],
) -> (r: Double)
    ensures
        is_midgray_factor(ar, sensitivity@, illuminant@, r),
{
    let n: usize = if sensitivity.len() <= illuminant.len() {
        sensitivity.len()
    } else {
        illuminant.len()
    };
    let mut sum: Traced<Double> = Traced::constant(ar, 0);
    let mut wl: usize = 0;
    while wl < n
        invariant
            wl <= n,
            n <= sensitivity@.len(),
            n <= illuminant@.len(),
            sum.holds(ar),
            sum.formula@ == midgray_sum(sensitivity@, illuminant@, 1, wl as int),
        decreases n - wl,
    {
        let row = sensitivity[wl];
        let i: Traced<Single> = Traced::new(ar, illuminant[wl]);
        let gray: Traced<Double> = Traced::constant(ar, 0x3fc7_8d4f_df3b_645a);
        let k: Traced<Double> = Traced::new(ar, row[1]);
        sum = sum.plus(ar, i.widen(ar).times(ar, gray).times(ar, k));
        wl += 1;
    }
    assert(is_double(ar, midgray_sum(sensitivity@, illuminant@, 1, n as int), sum.value));
    let limit = Double { bits: SMALLEST_SUM };
    if limit.is_below(sum.value) {
        let one: Traced<Double> = Traced::constant(ar, ONE);
        one.over(ar, Traced::new(ar, sum.value)).value
    } else {
        Double { bits: ONE }
    }
}

// ── White through the window ─────────────────────────────────────────────

/// The light that a channel gets at each of `n` wavelengths.
pub open spec fn light_terms(
    sensitivity: Seq<[Double; 3]>,
    illuminant: Seq<Double>,
    c: int,
    n: nat,
) -> Seq<Formula> {
    Seq::new(n, |wl: int| times(double(sensitivity[wl]@[c]), double(illuminant[wl])))
}

/// The part of this light that a window lets through.
pub open spec fn window_terms(
    sensitivity: Seq<[Double; 3]>,
    illuminant: Seq<Double>,
    window: Seq<Double>,
    c: int,
    n: nat,
) -> Seq<Formula> {
    Seq::new(
        n,
        |wl: int|
            times(
                times(double(sensitivity[wl]@[c]), double(illuminant[wl])),
                double(window[wl]),
            ),
    )
}

/// The share of the light that a window lets through.
pub open spec fn window_share(
    sensitivity: Seq<[Double; 3]>,
    illuminant: Seq<Double>,
    window: Seq<Double>,
    c: int,
    n: nat,
) -> Formula {
    over(
        pairwise(window_terms(sensitivity, illuminant, window, c, n)),
        pairwise(light_terms(sensitivity, illuminant, c, n)),
    )
}

/// The exposure of a channel by the illuminant at each wavelength, with the
/// sensitivity seen through the window divided by its share.
pub open spec fn seen_terms(
    sensitivity: Seq<[Double; 3]>,
    illuminant: Seq<Double>,
    window: Seq<Double>,
    c: int,
    n: nat,
) -> Seq<Formula> {
    Seq::new(
        n,
        |wl: int|
            times(
                double(illuminant[wl]),
                times(
                    double(sensitivity[wl]@[c]),
                    over(
                        double(window[wl]),
                        window_share(sensitivity, illuminant, window, c, n),
                    ),
                ),
            ),
    )
}

/// Without rounding, a factor of every term is a factor of the sum.
proof fn lemma_pairwise_scaled(g: Functions, xs: Seq<Formula>, ys: Seq<Formula>, k: real)
    requires
        xs.len() == ys.len(),
        forall|i: int| 0 <= i < xs.len() ==> exact(g, #[trigger] ys[i]) == k * exact(g, xs[i]),
    ensures
        exact(g, pairwise(ys)) == k * exact(g, pairwise(xs)),
    decreases xs.len(),
{
    lemma_small_numbers();
    if xs.len() == 0 {
        lemma_factor_out(k, 0real, 0real);
    } else if xs.len() == 2 {
        lemma_factor_out(k, exact(g, xs[0]), exact(g, xs[1]));
        assert(exact(g, ys[0]) == k * exact(g, xs[0]));
        assert(exact(g, ys[1]) == k * exact(g, xs[1]));
    } else if xs.len() > 2 {
        let n = xs.len() as int;
        let mid = n / 2;
        lemma_pairwise_scaled(g, xs.subrange(0, mid), ys.subrange(0, mid), k);
        lemma_pairwise_scaled(g, xs.subrange(mid, n), ys.subrange(mid, n), k);
        lemma_factor_out(
            k,
            exact(g, pairwise(xs.subrange(0, mid))),
            exact(g, pairwise(xs.subrange(mid, n))),
        );
    }
}

/// A factor of a quotient is one of the dividend.
pub proof fn lemma_divided_term(i: real, s: real, w: real, q: real)
    by (nonlinear_arith)
    requires
        q != 0real,
    ensures
        i * (s * (w / q)) == (1real / q) * ((s * i) * w),
{
    assert(w / q == w * (1real / q));
}

proof fn lemma_share_restored(part: real, whole: real)
    by (nonlinear_arith)
    requires
        part != 0real,
        whole != 0real,
    ensures
        part / whole != 0real,
        (1real / (part / whole)) * part == whole,
{
    let q = part / whole;
    assert(q * whole == part);
    assert(q != 0real);
    assert((1real / q) * q == 1real);
}

/// Without rounding, the window leaves the exposure by the illuminant that it
/// is normalised with as it is: white stays white. There must be light, and
/// some of it must pass the window.
pub proof fn lemma_window_keeps_white(
    g: Functions,
    sensitivity: Seq<[Double; 3]>,
    illuminant: Seq<Double>,
    window: Seq<Double>,
    c: int,
    n: nat,
)
    requires
        exact(g, pairwise(light_terms(sensitivity, illuminant, c, n))) != 0real,
        exact(g, pairwise(window_terms(sensitivity, illuminant, window, c, n))) != 0real,
    ensures
        exact(g, pairwise(seen_terms(sensitivity, illuminant, window, c, n))) == exact(
            g,
            pairwise(light_terms(sensitivity, illuminant, c, n)),
        ),
{
    let through = window_terms(sensitivity, illuminant, window, c, n);
    let seen = seen_terms(sensitivity, illuminant, window, c, n);
    let part = exact(g, pairwise(through));
    let whole = exact(g, pairwise(light_terms(sensitivity, illuminant, c, n)));
    let share = window_share(sensitivity, illuminant, window, c, n);
    lemma_share_restored(part, whole);
    assert(exact(g, share) == part / whole);
    let k = 1real / exact(g, share);
    assert forall|wl: int| 0 <= wl < n implies exact(g, #[trigger] seen[wl]) == k * exact(
        g,
        through[wl],
    ) by {
        let i = exact(g, double(illuminant[wl]));
        let s = exact(g, double(sensitivity[wl]@[c]));
        let w = exact(g, double(window[wl]));
        lemma_divided_term(i, s, w, exact(g, share));
        let windowed = over(double(window[wl]), share);
        assert(exact(g, windowed) == w / exact(g, share));
        assert(exact(g, times(double(sensitivity[wl]@[c]), windowed)) == s * (w / exact(
            g,
            share,
        )));
        assert(exact(g, times(double(sensitivity[wl]@[c]), double(illuminant[wl]))) == s * i);
    }
    lemma_pairwise_scaled(g, through, seen, k);
}

} // verus!
