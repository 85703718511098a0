//! The backend that computes every operation on whole images here.

use vstd::prelude::*;

use crate::arith::{all_hold, constant, dot3, double, evaluates, formulas, is_double, larger, over};
use crate::arith::{plus, power, times, unary, Arithmetic, Formula, Sample, Traced, Unary};
use crate::backend::ComputeBackend;
use crate::bits::{Double, Single};
use crate::density_curves::interpolate_exposure_to_density_f64;
use crate::density_curves::{is_gamma_axis, is_read};
use crate::gaussian::{gaussian_blur, is_blurred};
use crate::hanatos::{hanatos2025_rgb_to_raw, is_taken};
use crate::image::{channel_of, ImageBuf};
use crate::printing::{channel_exposure, exposure_through, fewest, fewest_of, TEN};
use crate::resident::ChainInputs;
use crate::spectral::{cmf_f64, response, ColorSpace};
use crate::spectral_service::{TcLut, SMALLEST_SUM};

verus! {

/// The three densities of pixel `k`.
pub open spec fn densities<T: Sample>(data: Seq<T>, k: int) -> Seq<Formula> {
    seq![data[3 * k].fetched(), data[3 * k + 1].fetched(), data[3 * k + 2].fetched()]
}

fn pixel_densities<T: Sample, A: Arithmetic>(ar: &A, data: &Vec<T>, k: usize) -> (r: [Traced<
    Double,
>; 3])
    requires
        3 * k + 2 < data@.len(),
    ensures
        all_hold(ar, r@),
        formulas(r@) == densities(data@, k as int),
{
    let total: usize = data.len();
    assert(3 * k + 2 < total);
    let r: [Traced<Double>; 3] = [
        data[3 * k].fetch(ar),
        data[3 * k + 1].fetch(ar),
        data[3 * k + 2].fetch(ar),
    ];
    assert(formulas(r@) =~= densities(data@, k as int));
    r
}

/// The logarithm of a number that is kept above 0.
pub open spec fn safe_log(x: Formula) -> Formula {
    unary(Unary::Log10, plus(larger(x, constant(0)), constant(SMALLEST_SUM)))
}

fn safe_log_of<A: Arithmetic>(ar: &A, x: Traced<Double>) -> (r: Traced<Double>)
    requires
        x.holds(ar),
    ensures
        r.holds(ar),
        r.formula@ == safe_log(x.formula@),
{
    let none: Traced<Double> = Traced::constant(ar, 0);
    let least: Traced<Double> = Traced::constant(ar, SMALLEST_SUM);
    x.larger(ar, none).plus(ar, least).unary(ar, Unary::Log10)
}

fn store_pixel<T: Sample, A: Arithmetic>(ar: &A, v: [Traced<Double>; 3]) -> (r: [T; 3])
    requires
        all_hold(ar, v@),
    ensures
        forall|c: int|
            0 <= c < 3 ==> evaluates(
                ar,
                T::stored(formulas(v@)[c]),
                (#[trigger] r@[c]).number(),
            ),
{
    assert(v@[0].holds(ar) && v@[1].holds(ar) && v@[2].holds(ar));
    [T::store(ar, v[0]).value, T::store(ar, v[1]).value, T::store(ar, v[2]).value]
}

/// Pixel `k` of an image holds three values.
pub open spec fn holds_pixel<T: Sample, A: Arithmetic>(
    ar: &A,
    img: ImageBuf<T>,
    k: int,
    v: spec_fn(int) -> Formula,
) -> bool {
    &&& evaluates(ar, T::stored(v(0)), img.data@[3 * k].number())
    &&& evaluates(ar, T::stored(v(1)), img.data@[3 * k + 1].number())
    &&& evaluates(ar, T::stored(v(2)), img.data@[3 * k + 2].number())
}

// ── Printing ─────────────────────────────────────────────────────────────

/// The wavelengths that all of the inputs cover.
pub open spec fn common(a: Seq<[Double; 3]>, b: Seq<Double>, c: Seq<[Double; 3]>) -> int {
    fewest(b.len() as int, a.len() as int, c.len() as int)
}

/// Log exposure of channel `c` of the print behind a film density.
pub open spec fn print_value(
    d: Seq<Formula>,
    channel_density: Seq<[Double; 3]>,
    base: Seq<Double>,
    illuminant: Seq<Double>,
    sensitivity: Seq<[Double; 3]>,
    factor: Double,
    c: int,
) -> Formula {
    let n = common(channel_density, illuminant, sensitivity);
    safe_log(
        times(
            exposure_through(d, channel_density, base, illuminant, sensitivity, c, n, n),
            double(factor),
        ),
    )
}

fn print_pixel<A: Arithmetic>(
    ar: &A,
    d: [Traced<Double>; 3],
    channel_density: &[[Double; 3]],
    base: &[Double],
    illuminant: &[Double],
    sensitivity: &[[Double; 3]],
    factor: Double,
    c: usize,
) -> (r: Traced<Double>)
    requires
        all_hold(ar, d@),
        c < 3,
    ensures
        r.holds(ar),
        r.formula@ == print_value(
            formulas(d@),
            channel_density@,
            base@,
            illuminant@,
            sensitivity@,
            factor,
            c as int,
        ),
{
    let n: usize = fewest_of(illuminant.len(), channel_density.len(), sensitivity.len());
    let raw = channel_exposure(ar, d, channel_density, base, illuminant, sensitivity, c, n);
    safe_log_of(ar, raw.times(ar, Traced::new(ar, factor)))
}

/// `r` is the log exposure of the print behind a film density.
pub open spec fn is_printed_light<T: Sample, A: Arithmetic>(
    ar: &A,
    density: ImageBuf<T>,
    channel_density: Seq<[Double; 3]>,
    base: Seq<Double>,
    illuminant: Seq<Double>,
    sensitivity: Seq<[Double; 3]>,
    factor: Double,
    r: ImageBuf<T>,
) -> bool {
    &&& r.width == density.width
    &&& r.height == density.height
    &&& r.valid()
    &&& forall|k: int|
        0 <= k < density.data@.len() / 3 ==> #[trigger] print_holds(
            ar,
            density,
            channel_density,
            base,
            illuminant,
            sensitivity,
            factor,
            r,
            k,
        )
}

/// Pixel `k` of `r` is the log exposure of the print behind pixel `k`.
pub open spec fn print_holds<T: Sample, A: Arithmetic>(
    ar: &A,
    density: ImageBuf<T>,
    channel_density: Seq<[Double; 3]>,
    base: Seq<Double>,
    illuminant: Seq<Double>,
    sensitivity: Seq<[Double; 3]>,
    factor: Double,
    r: ImageBuf<T>,
    k: int,
) -> bool {
    holds_pixel(
        ar,
        r,
        k,
        |c: int|
            print_value(
                densities(density.data@, k),
                channel_density,
                base,
                illuminant,
                sensitivity,
                factor,
                c,
            ),
    )
}

/// The log exposure of the print behind a film density: the light of the
/// enlarger through the film, weighed by the sensitivities of the paper.
pub fn print_spectral_cpu<T: Sample, A: Arithmetic>(
    ar: &A,
    density: &ImageBuf<T>,
    channel_density: &[[Double; 3]],
    base_density: &[Double],
    illuminant: &[Double],
    sensitivity: &[[Double; 3]],
    factor: Double,
) -> (r: ImageBuf<T>)
    requires
        density.valid(),
    ensures
        is_printed_light(
            ar,
            *density,
            channel_density@,
            base_density@,
            illuminant@,
            sensitivity@,
            factor,
            r,
        ),
{
    let total: usize = density.data.len();
    let n: usize = total / 3;
    let mut pixels: Vec<[T; 3]> = Vec::new();
    let mut k: usize = 0;
    while k < n
        invariant
            k <= n,
            3 * n == total,
            total == density.data@.len(),
            pixels@.len() == k,
            forall|j: int, c: int|
                0 <= j < k && 0 <= c < 3 ==> evaluates(
                    ar,
                    T::stored(
                        print_value(
                            densities(density.data@, j),
                            channel_density@,
                            base_density@,
                            illuminant@,
                            sensitivity@,
                            factor,
                            c,
                        ),
                    ),
                    (#[trigger] pixels@[j]@[c]).number(),
                ),
        decreases n - k,
    {
        let d = pixel_densities(ar, &density.data, k);
        let v = [
            print_pixel(ar, d, channel_density, base_density, illuminant, sensitivity, factor, 0),
            print_pixel(ar, d, channel_density, base_density, illuminant, sensitivity, factor, 1),
            print_pixel(ar, d, channel_density, base_density, illuminant, sensitivity, factor, 2),
        ];
        let px: [T; 3] = store_pixel(ar, v);
        proof {
            assert forall|c: int| 0 <= c < 3 implies formulas(v@)[c] == print_value(
                densities(density.data@, k as int),
                channel_density@,
                base_density@,
                illuminant@,
                sensitivity@,
                factor,
                c,
            ) by {}
        }
        pixels.push(px);
        k += 1;
    }
    let r = ImageBuf::from_pixels(density.width, density.height, pixels.as_slice());
    proof {
        assert forall|j: int| 0 <= j < density.data@.len() / 3 implies #[trigger] print_holds(
            ar,
            *density,
            channel_density@,
            base_density@,
            illuminant@,
            sensitivity@,
            factor,
            r,
            j,
        ) by {
            assert(pixels@[j]@[0] == r.data@[3 * j]);
            assert(pixels@[j]@[1] == r.data@[3 * j + 1]);
            assert(pixels@[j]@[2] == r.data@[3 * j + 2]);
        }
    }
    r
}

// ── Scanning ─────────────────────────────────────────────────────────────

/// The responses of the observer, three to a row.
pub open spec fn observer() -> Seq<[Double; 3]> {
    Seq::new(81, |i: int| [response(0)[i], response(1)[i], response(2)[i]])
}

pub fn observer_rows() -> (r: Vec<[Double; 3]>)
    ensures
        r@ == observer(),
{
    let x = cmf_f64(0);
    let y = cmf_f64(1);
    let z = cmf_f64(2);
    let mut r: Vec<[Double; 3]> = Vec::new();
    let mut i: usize = 0;
    while i < 81
        invariant
            i <= 81,
            x@ == response(0),
            y@ == response(1),
            z@ == response(2),
            x@.len() == 81,
            y@.len() == 81,
            z@.len() == 81,
            r@.len() == i,
            forall|k: int| 0 <= k < i ==> #[trigger] r@[k] == observer()[k],
        decreases 81 - i,
    {
        let row = [x[i], y[i], z[i]];
        assert(row@ =~= [response(0)[i as int], response(1)[i as int], response(2)[i as int]]@);
        r.push(row);
        i += 1;
    }
    assert(r@ =~= observer());
    r
}

/// The logarithm of X, Y or Z behind a density.
pub open spec fn log_xyz_value(
    d: Seq<Formula>,
    channel_density: Seq<[Double; 3]>,
    base: Seq<Double>,
    illuminant: Seq<Double>,
    normalization: Double,
    c: int,
) -> Formula {
    let n = common(channel_density, illuminant, observer());
    safe_log(
        over(
            exposure_through(d, channel_density, base, illuminant, observer(), c, n, n),
            double(normalization),
        ),
    )
}

fn log_xyz_of<A: Arithmetic>(
    ar: &A,
    d: [Traced<Double>; 3],
    channel_density: &[[Double; 3]],
    base: &[Double],
    illuminant: &[Double],
    rows: &[[Double; 3]],
    normalization: Double,
    c: usize,
) -> (r: Traced<Double>)
    requires
        all_hold(ar, d@),
        c < 3,
        rows@ == observer(),
    ensures
        r.holds(ar),
        r.formula@ == log_xyz_value(
            formulas(d@),
            channel_density@,
            base@,
            illuminant@,
            normalization,
            c as int,
        ),
{
    let n: usize = fewest_of(illuminant.len(), channel_density.len(), rows.len());
    let raw = channel_exposure(ar, d, channel_density, base, illuminant, rows, c, n);
    safe_log_of(ar, raw.over(ar, Traced::new(ar, normalization)))
}

fn log_xyz_pixel<A: Arithmetic>(
    ar: &A,
    d: [Traced<Double>; 3],
    channel_density: &[[Double; 3]],
    base: &[Double],
    illuminant: &[Double],
    rows: &[[Double; 3]],
    normalization: Double,
) -> (r: [Traced<Double>; 3])
    requires
        all_hold(ar, d@),
        rows@ == observer(),
    ensures
        all_hold(ar, r@),
        formulas(r@) == Seq::new(
            3,
            |c: int|
                log_xyz_value(
                    formulas(d@),
                    channel_density@,
                    base@,
                    illuminant@,
                    normalization,
                    c,
                ),
        ),
{
    let r = [
        log_xyz_of(ar, d, channel_density, base, illuminant, rows, normalization, 0),
        log_xyz_of(ar, d, channel_density, base, illuminant, rows, normalization, 1),
        log_xyz_of(ar, d, channel_density, base, illuminant, rows, normalization, 2),
    ];
    proof {
        assert(formulas(r@) =~= Seq::new(
            3,
            |c: int|
                log_xyz_value(
                    formulas(d@),
                    channel_density@,
                    base@,
                    illuminant@,
                    normalization,
                    c,
                ),
        ));
    }
    r
}

/// The logarithms of X, Y and Z behind every pixel.
pub open spec fn are_log_xyz<T: Sample, A: Arithmetic>(
    ar: &A,
    density: ImageBuf<T>,
    channel_density: Seq<[Double; 3]>,
    base: Seq<Double>,
    illuminant: Seq<Double>,
    normalization: Double,
    r: Seq<Double>,
) -> bool {
    &&& r.len() == density.data@.len()
    &&& forall|i: int|
        0 <= i < r.len() ==> is_double(
            ar,
            log_xyz_value(
                densities(density.data@, i / 3),
                channel_density,
                base,
                illuminant,
                normalization,
                i % 3,
            ),
            #[trigger] r[i],
        )
}

/// The logarithms of X, Y and Z behind every pixel of a density image, three
/// numbers to a pixel.
pub fn scan_log_xyz_cpu<T: Sample, A: Arithmetic>(
    ar: &A,
    density: &ImageBuf<T>,
    channel_density: &[[Double; 3]],
    base_density: &[Double],
    illuminant: &[Double],
    normalization: Double,
) -> (r: Vec<Double>)
    requires
        density.valid(),
    ensures
        are_log_xyz(
            ar,
            *density,
            channel_density@,
            base_density@,
            illuminant@,
            normalization,
            r@,
        ),
{
    let rows = observer_rows();
    let total: usize = density.data.len();
    let n: usize = total / 3;
    let mut r: Vec<Double> = Vec::new();
    let mut k: usize = 0;
    while k < n
        invariant
            k <= n,
            3 * n == total,
            total == density.data@.len(),
            rows@ == observer(),
            r@.len() == 3 * k,
            forall|i: int|
                0 <= i < 3 * k ==> is_double(
                    ar,
                    log_xyz_value(
                        densities(density.data@, i / 3),
                        channel_density@,
                        base_density@,
                        illuminant@,
                        normalization,
                        i % 3,
                    ),
                    #[trigger] r@[i],
                ),
        decreases n - k,
    {
        let d = pixel_densities(ar, &density.data, k);
        let v = log_xyz_pixel(
            ar,
            d,
            channel_density,
            base_density,
            illuminant,
            rows.as_slice(),
            normalization,
        );
        let ghost before = r@;
        r.push(v[0].value);
        r.push(v[1].value);
        r.push(v[2].value);
        proof {
            let f = formulas(v@);
            assert(v@[0].holds(ar) && v@[1].holds(ar) && v@[2].holds(ar));
            assert(f[0] == v@[0].formula@ && f[1] == v@[1].formula@ && f[2] == v@[2].formula@);
            assert forall|i: int| 0 <= i < 3 * k + 3 implies is_double(
                ar,
                log_xyz_value(
                    densities(density.data@, i / 3),
                    channel_density@,
                    base_density@,
                    illuminant@,
                    normalization,
                    i % 3,
                ),
                #[trigger] r@[i],
            ) by {
                if i < 3 * k {
                    assert(r@[i] == before[i]);
                } else {
                    assert(i / 3 == k);
                    assert(i % 3 == i - 3 * k);
                }
            }
        }
        k += 1;
    }
    r
}

/// Channel `j` of a colour: `10` to the power of its logarithms, adapted by
/// one matrix and brought to RGB by another.
pub open spec fn rgb_value(
    cat: [[Double; 3]; 3],
    m: [[Double; 3]; 3],
    log: Seq<Formula>,
    j: int,
) -> Formula {
    let xyz = Seq::new(3, |c: int| power(constant(TEN), log[c]));
    transformed(m, Seq::new(3, |i: int| transformed(cat, xyz, i)), j)
}

/// Row `i` of a matrix times a vector.
pub open spec fn transformed(m: [[Double; 3]; 3], v: Seq<Formula>, i: int) -> Formula {
    dot3(crate::colorspace::leaves3(m@[i]), v)
}

pub fn transform<A: Arithmetic>(ar: &A, m: &[[Double; 3]; 3], v: [Traced<Double>; 3]) -> (r:
    [Traced<Double>; 3])
    requires
        all_hold(ar, v@),
    ensures
        all_hold(ar, r@),
        formulas(r@) == Seq::new(3, |i: int| transformed(*m, formulas(v@), i)),
{
    let r = [row_times(ar, m[0], v), row_times(ar, m[1], v), row_times(ar, m[2], v)];
    assert(formulas(r@) =~= Seq::new(3, |i: int| transformed(*m, formulas(v@), i)));
    r
}

fn row_times<A: Arithmetic>(ar: &A, row: [Double; 3], v: [Traced<Double>; 3]) -> (r: Traced<Double>)
    requires
        all_hold(ar, v@),
    ensures
        r.holds(ar),
        r.formula@ == dot3(crate::colorspace::leaves3(row), formulas(v@)),
{
    let a: [Traced<Double>; 3] = [
        Traced::new(ar, row[0]),
        Traced::new(ar, row[1]),
        Traced::new(ar, row[2]),
    ];
    assert(formulas(a@) =~= crate::colorspace::leaves3(row));
    Traced::dot3(ar, a, v)
}

/// A colour from the logarithms of its X, Y and Z.
pub fn rgb_of<A: Arithmetic>(
    ar: &A,
    cat: &[[Double; 3]; 3],
    m: &[[Double; 3]; 3],
    log: [Traced<Double>; 3],
) -> (r: [Traced<Double>; 3])
    requires
        all_hold(ar, log@),
    ensures
        all_hold(ar, r@),
        formulas(r@) == Seq::new(3, |j: int| rgb_value(*cat, *m, formulas(log@), j)),
{
    assert(log@[0].holds(ar) && log@[1].holds(ar) && log@[2].holds(ar));
    let ten: Traced<Double> = Traced::constant(ar, TEN);
    let xyz = [ten.power(ar, log[0]), ten.power(ar, log[1]), ten.power(ar, log[2])];
    let r = transform(ar, m, transform(ar, cat, xyz));
    proof {
        assert(formulas(xyz@) =~= Seq::new(
            3,
            |c: int| power(constant(TEN), formulas(log@)[c]),
        ));
        assert(formulas(r@) =~= Seq::new(3, |j: int| rgb_value(*cat, *m, formulas(log@), j)));
    }
    r
}

/// The logarithms of X, Y and Z behind a density.
pub open spec fn log_xyz(
    d: Seq<Formula>,
    channel_density: Seq<[Double; 3]>,
    base: Seq<Double>,
    illuminant: Seq<Double>,
    normalization: Double,
) -> Seq<Formula> {
    Seq::new(
        3,
        |c: int| log_xyz_value(d, channel_density, base, illuminant, normalization, c),
    )
}

/// Pixel `k` of `r` is the colour behind pixel `k`.
pub open spec fn scan_holds<T: Sample, A: Arithmetic>(
    ar: &A,
    density: ImageBuf<T>,
    channel_density: Seq<[Double; 3]>,
    base: Seq<Double>,
    illuminant: Seq<Double>,
    normalization: Double,
    cat: [[Double; 3]; 3],
    m: [[Double; 3]; 3],
    r: ImageBuf<T>,
    k: int,
) -> bool {
    holds_pixel(
        ar,
        r,
        k,
        |j: int|
            rgb_value(
                cat,
                m,
                log_xyz(
                    densities(density.data@, k),
                    channel_density,
                    base,
                    illuminant,
                    normalization,
                ),
                j,
            ),
    )
}

/// `r` is the colours behind a density image.
pub open spec fn is_scanned<T: Sample, A: Arithmetic>(
    ar: &A,
    density: ImageBuf<T>,
    channel_density: Seq<[Double; 3]>,
    base: Seq<Double>,
    illuminant: Seq<Double>,
    normalization: Double,
    cat: [[Double; 3]; 3],
    m: [[Double; 3]; 3],
    r: ImageBuf<T>,
) -> bool {
    &&& r.width == density.width
    &&& r.height == density.height
    &&& r.valid()
    &&& forall|k: int|
        0 <= k < density.data@.len() / 3 ==> #[trigger] scan_holds(
            ar,
            density,
            channel_density,
            base,
            illuminant,
            normalization,
            cat,
            m,
            r,
            k,
        )
}

/// The colours behind a density image.
pub fn scan_spectral_cpu<T: Sample, A: Arithmetic>(
    ar: &A,
    density: &ImageBuf<T>,
    channel_density: &[[Double; 3]],
    base_density: &[Double],
    illuminant: &[Double],
    normalization: Double,
    cat: &[[Double; 3]; 3],
    xyz_to_rgb: &[[Double; 3]; 3],
) -> (r: ImageBuf<T>)
    requires
        density.valid(),
    ensures
        is_scanned(
            ar,
            *density,
            channel_density@,
            base_density@,
            illuminant@,
            normalization,
            *cat,
            *xyz_to_rgb,
            r,
        ),
{
    let rows = observer_rows();
    let total: usize = density.data.len();
    let n: usize = total / 3;
    let mut pixels: Vec<[T; 3]> = Vec::new();
    let mut k: usize = 0;
    while k < n
        invariant
            k <= n,
            3 * n == total,
            total == density.data@.len(),
            rows@ == observer(),
            pixels@.len() == k,
            forall|j: int, c: int|
                0 <= j < k && 0 <= c < 3 ==> evaluates(
                    ar,
                    T::stored(
                        rgb_value(
                            *cat,
                            *xyz_to_rgb,
                            log_xyz(
                                densities(density.data@, j),
                                channel_density@,
                                base_density@,
                                illuminant@,
                                normalization,
                            ),
                            c,
                        ),
                    ),
                    (#[trigger] pixels@[j]@[c]).number(),
                ),
        decreases n - k,
    {
        let d = pixel_densities(ar, &density.data, k);
        let log = log_xyz_pixel(
            ar,
            d,
            channel_density,
            base_density,
            illuminant,
            rows.as_slice(),
            normalization,
        );
        let px: [T; 3] = store_pixel(ar, rgb_of(ar, cat, xyz_to_rgb, log));
        proof {
            assert(formulas(log@) =~= log_xyz(
                densities(density.data@, k as int),
                channel_density@,
                base_density@,
                illuminant@,
                normalization,
            ));
        }
        pixels.push(px);
        k += 1;
    }
    let r = ImageBuf::from_pixels(density.width, density.height, pixels.as_slice());
    proof {
        assert forall|j: int| 0 <= j < density.data@.len() / 3 implies #[trigger] scan_holds(
            ar,
            *density,
            channel_density@,
            base_density@,
            illuminant@,
            normalization,
            *cat,
            *xyz_to_rgb,
            r,
            j,
        ) by {
            assert(pixels@[j]@[0] == r.data@[3 * j]);
            assert(pixels@[j]@[1] == r.data@[3 * j + 1]);
            assert(pixels@[j]@[2] == r.data@[3 * j + 2]);
        }
    }
    r
}

// ── The backend ──────────────────────────────────────────────────────────

/// Computes with the arithmetic that it holds.
pub struct CpuBackend<A> {
    pub ar: A,
}

impl<T: Sample, A: Arithmetic> ComputeBackend<T> for CpuBackend<A> {
    fn gaussian_blur(&self, img: &ImageBuf<T>, sigma: Single) -> (r: ImageBuf<T>)
        ensures
            forall|c: int|
                0 <= c < 3 ==> is_blurred(
                    &self.ar,
                    img.width as nat,
                    img.height as nat,
                    sigma,
                    #[trigger] channel_of(img.data@, c),
                    channel_of(r.data@, c),
                ),
    {
        gaussian_blur(&self.ar, img, sigma)
    }

    fn hanatos2025_rgb_to_raw(
        &self,
        img: &ImageBuf<T>,
        tc_lut: &TcLut,
        space: ColorSpace,
        illuminant: &[Single],
    ) -> (r: ImageBuf<T>)
        ensures
            is_taken(&self.ar, *img, *tc_lut, space, illuminant@, r),
    {
        hanatos2025_rgb_to_raw(&self.ar, img, tc_lut, space, illuminant)
    }

    fn density_curve_interp(
        &self,
        log_raw: &ImageBuf<T>,
        log_exposure: &[Double],
        density_curves: &[[Double; 3]],
        gamma: Double,
    ) -> (r: ImageBuf<T>)
        ensures
            exists|axis: Seq<Double>| #[trigger]
                is_gamma_axis(&self.ar, log_exposure@, gamma, axis) && is_read(
                    &self.ar,
                    *log_raw,
                    axis,
                    density_curves@,
                    r,
                ),
    {
        interpolate_exposure_to_density_f64(
            &self.ar,
            log_raw,
            density_curves,
            log_exposure,
            gamma,
        )
    }

    fn print_spectral(
        &self,
        density: &ImageBuf<T>,
        channel_density: &[[Double; 3]],
        base_density: &[Double],
        illuminant: &[Double],
        sensitivity: &[[Double; 3]],
        factor: Double,
    ) -> (r: ImageBuf<T>)
        ensures
            is_printed_light(
                &self.ar,
                *density,
                channel_density@,
                base_density@,
                illuminant@,
                sensitivity@,
                factor,
                r,
            ),
    {
        print_spectral_cpu(
            &self.ar,
            density,
            channel_density,
            base_density,
            illuminant,
            sensitivity,
            factor,
        )
    }

    fn scan_spectral(
        &self,
        density: &ImageBuf<T>,
        channel_density: &[[Double; 3]],
        base_density: &[Double],
        illuminant: &[Double],
        normalization: Double,
        cat: &[[Double; 3]; 3],
        xyz_to_rgb: &[[Double; 3]; 3],
    ) -> (r: ImageBuf<T>)
        ensures
            is_scanned(
                &self.ar,
                *density,
                channel_density@,
                base_density@,
                illuminant@,
                normalization,
                *cat,
                *xyz_to_rgb,
                r,
            ),
    {
        scan_spectral_cpu(
            &self.ar,
            density,
            channel_density,
            base_density,
            illuminant,
            normalization,
            cat,
            xyz_to_rgb,
        )
    }

    fn try_run_film_chain(
        &self,
        image: &ImageBuf<T>,
        tc_lut: &TcLut,
        inputs: &ChainInputs,
    ) -> (r: Option<ImageBuf<T>>)
        ensures
            r is None,
    {
        None
    }
}

} // verus!
