//! Printing: the film enlarged onto paper.

use vstd::prelude::*;

use crate::arith::{constant, double, evaluates, is_double, larger, over, plus, power, single};
use crate::arith::{sum_from, times, unary, widen, without_nan};
use crate::arith::{minus, narrow, Arithmetic, Formula, Sample, Traced, Unary};
use crate::backend::ComputeBackend;
use crate::bits::{Double, Single};
use crate::density_curves::{channel_span, column, enlarger_lut_bounds};
use crate::filming::{are_curves, curve_read, longer};
use crate::image::ImageBuf;
use crate::params::RuntimeParams;
use crate::pchip::{prepare_pchip_3d, prepared};
use crate::pchip3d::PreparedPchip3d;
use crate::profile::{entry_or_zero, Profile};
use crate::spectral_service::SMALLEST_SUM;
use crate::tables::{are_scales, build_lut_grid, is_grid, is_table_value, scales, table_value};

verus! {

/// Encoding of 10.0.
pub const TEN: u64 = 0x4024_0000_0000_0000;

// ── Sensitivities ────────────────────────────────────────────────────────

/// The sensitivity behind a logarithm; nothing where that is no number.
pub open spec fn sensitivity_of(log: Double) -> Formula {
    without_nan(power(constant(TEN), double(log)))
}

/// `r` holds the sensitivities of a profile.
pub open spec fn are_sensitivities<A: Arithmetic>(
    ar: &A,
    profile: Profile,
    r: Seq<[Double; 3]>,
) -> bool {
    &&& r.len() == profile.data.log_sensitivity@.len()
    &&& forall|i: int, c: int|
        0 <= i < r.len() && 0 <= c < 3 ==> is_double(
            ar,
            sensitivity_of(entry_or_zero(profile.data.log_sensitivity@[i]@, c)),
            #[trigger] r[i]@[c],
        )
}

fn sensitivity<A: Arithmetic>(ar: &A, log: Double) -> (r: Double)
    ensures
        is_double(ar, sensitivity_of(log), r),
{
    let ten: Traced<Double> = Traced::constant(ar, TEN);
    ten.power(ar, Traced::new(ar, log)).without_nan(ar).value
}

/// The sensitivities of a profile, three to a row.
pub fn sensitivities<A: Arithmetic>(ar: &A, profile: &Profile) -> (r: Vec<[Double; 3]>)
    ensures
        are_sensitivities(ar, *profile, r@),
{
    let logs = profile.log_sensitivity_f64();
    let mut r: Vec<[Double; 3]> = Vec::new();
    let mut i: usize = 0;
    while i < logs.len()
        invariant
            i <= logs@.len(),
            logs@.len() == profile.data.log_sensitivity@.len(),
            forall|k: int, c: int|
                0 <= k < logs@.len() && 0 <= c < 3 ==> #[trigger] logs@[k]@[c] == entry_or_zero(
                    profile.data.log_sensitivity@[k]@,
                    c,
                ),
            r@.len() == i,
            forall|k: int, c: int|
                0 <= k < i && 0 <= c < 3 ==> is_double(
                    ar,
                    sensitivity_of(entry_or_zero(profile.data.log_sensitivity@[k]@, c)),
                    #[trigger] r@[k]@[c],
                ),
        decreases logs.len() - i,
    {
        let row = logs[i];
        assert(logs@[i as int]@[0] == row@[0] && logs@[i as int]@[1] == row@[1]
            && logs@[i as int]@[2] == row@[2]);
        r.push([sensitivity(ar, row[0]), sensitivity(ar, row[1]), sensitivity(ar, row[2])]);
        i += 1;
    }
    r
}

/// The channel densities of a profile, three to a row.
pub open spec fn are_channel_densities(profile: Profile, r: Seq<[Double; 3]>) -> bool {
    &&& r.len() == profile.data.channel_density@.len()
    &&& forall|i: int, c: int|
        0 <= i < r.len() && 0 <= c < 3 ==> #[trigger] r[i]@[c] == entry_or_zero(
            profile.data.channel_density@[i]@,
            c,
        )
}

// ── Light through the film ───────────────────────────────────────────────

/// What a backend is handed to print an image.
pub struct PrintInputs {
    pub channel_density: Vec<[Double; 3]>,
    pub base_density: Vec<Double>,
    pub illuminant: Vec<Double>,
    pub sensitivity: Vec<[Double; 3]>,
    pub factor: Double,
}

impl PrintInputs {
    /// The inputs are those of a film and a paper.
    pub open spec fn is_for<A: Arithmetic>(
        &self,
        ar: &A,
        film: Profile,
        print: Profile,
        illuminant: Seq<Double>,
        factor: Double,
    ) -> bool {
        &&& are_channel_densities(film, self.channel_density@)
        &&& self.base_density@ == film.data.base_density@
        &&& self.illuminant@ == illuminant
        &&& are_sensitivities(ar, print, self.sensitivity@)
        &&& self.factor == factor
    }

    pub fn new<A: Arithmetic>(
        ar: &A,
        film: &Profile,
        print: &Profile,
        illuminant: &[Double],
        factor: Double,
    ) -> (r: PrintInputs)
        ensures
            r.is_for(ar, *film, *print, illuminant@, factor),
    {
        PrintInputs {
            channel_density: film.channel_density_f64(),
            base_density: vstd::slice::slice_to_vec(film.data.base_density.as_slice()),
            illuminant: vstd::slice::slice_to_vec(illuminant),
            sensitivity: sensitivities(ar, print),
            factor,
        }
    }
}

/// `r` is what a backend prints of a density image.
pub open spec fn prints<T: Sample, B: ComputeBackend<T>>(
    backend: &B,
    density: ImageBuf<T>,
    inputs: PrintInputs,
    r: ImageBuf<T>,
) -> bool {
    exists|cd: &[[Double; 3]], bd: &[Double], il: &[Double], se: &[[Double; 3]]|
        {
            &&& cd@ == inputs.channel_density@
            &&& bd@ == inputs.base_density@
            &&& il@ == inputs.illuminant@
            &&& se@ == inputs.sensitivity@
            &&& #[trigger] call_ensures(
                B::print_spectral,
                (backend, &density, cd, bd, il, se, inputs.factor),
                r,
            )
        }
}

fn print_with<T: Sample, B: ComputeBackend<T>>(
    backend: &B,
    density: &ImageBuf<T>,
    inputs: &PrintInputs,
) -> (r: ImageBuf<T>)
    requires
        density.valid(),
    ensures
        prints(backend, *density, *inputs, r),
        r.width == density.width,
        r.height == density.height,
        r.valid(),
{
    backend.print_spectral(
        density,
        inputs.channel_density.as_slice(),
        inputs.base_density.as_slice(),
        inputs.illuminant.as_slice(),
        inputs.sensitivity.as_slice(),
        inputs.factor,
    )
}

// ── By a table ───────────────────────────────────────────────────────────

/// A table of this many steps can be built.
pub open spec fn buildable(steps: u32) -> bool {
    2 <= steps && steps * steps <= u32::MAX && steps * steps * steps * 3 <= usize::MAX
}

/// A table of this many steps a side can be built.
pub fn is_buildable(steps: u32) -> (r: bool)
    ensures
        r == buildable(steps),
{
    if steps < 2 {
        return false;
    }
    let s: u128 = steps as u128;
    proof {
        assert(0 <= s * s <= 0xffff_ffff * 0xffff_ffff) by (nonlinear_arith)
            requires
                0 <= s <= 0xffff_ffff,
        ;
    }
    let square: u128 = s * s;
    if square > u32::MAX as u128 {
        return false;
    }
    proof {
        assert(0 <= square * s <= 0xffff_ffff * 0xffff_ffff) by (nonlinear_arith)
            requires
                0 <= square <= 0xffff_ffff,
                0 <= s <= 0xffff_ffff,
        ;
        assert(square * s == steps * steps * steps);
    }
    square * s * 3 <= usize::MAX as u128
}

/// The numbers of an image as doubles.
pub open spec fn are_fetched<T: Sample, A: Arithmetic>(
    ar: &A,
    data: Seq<T>,
    r: Seq<Double>,
) -> bool {
    r.len() == data.len() && forall|i: int|
        0 <= i < data.len() ==> is_double(ar, data[i].fetched(), #[trigger] r[i])
}

fn fetched<T: Sample, A: Arithmetic>(ar: &A, data: &Vec<T>) -> (r: Vec<Double>)
    ensures
        are_fetched(ar, data@, r@),
{
    let mut r: Vec<Double> = Vec::new();
    let mut i: usize = 0;
    while i < data.len()
        invariant
            i <= data@.len(),
            r@.len() == i,
            forall|k: int| 0 <= k < i ==> is_double(ar, data@[k].fetched(), #[trigger] r@[k]),
        decreases data.len() - i,
    {
        r.push(data[i].fetch(ar).value);
        i += 1;
    }
    r
}

/// `r` is an image read from a table, pixel by pixel.
pub open spec fn is_table_image<T: Sample, A: Arithmetic>(
    ar: &A,
    p: PreparedPchip3d,
    low: [Double; 3],
    inv: [Double; 3],
    image: ImageBuf<T>,
    r: ImageBuf<T>,
) -> bool {
    &&& r.width == image.width
    &&& r.height == image.height
    &&& r.valid()
    &&& forall|k: int|
        0 <= k < image.data@.len() / 3 ==> #[trigger] is_table_pixel(ar, p, low, inv, image, r, k)
}

/// Pixel `k` of `r` is the table at pixel `k` of the image.
pub open spec fn is_table_pixel<T: Sample, A: Arithmetic>(
    ar: &A,
    p: PreparedPchip3d,
    low: [Double; 3],
    inv: [Double; 3],
    image: ImageBuf<T>,
    r: ImageBuf<T>,
    k: int,
) -> bool {
    exists|v: [Double; 3]|
        {
            &&& #[trigger] is_table_value(
                ar,
                p,
                low,
                inv,
                image.data@[3 * k],
                image.data@[3 * k + 1],
                image.data@[3 * k + 2],
                v,
            )
            &&& evaluates(ar, T::stored(double(v@[0])), r.data@[3 * k].number())
            &&& evaluates(ar, T::stored(double(v@[1])), r.data@[3 * k + 1].number())
            &&& evaluates(ar, T::stored(double(v@[2])), r.data@[3 * k + 2].number())
        }
}

fn stored<T: Sample, A: Arithmetic>(ar: &A, x: Double) -> (r: T)
    ensures
        evaluates(ar, T::stored(double(x)), r.number()),
{
    let v: Traced<Double> = Traced::new(ar, x);
    T::store(ar, v).value
}

/// Reads a table at every pixel of an image.
pub fn apply_pchip_lut<T: Sample, A: Arithmetic>(
    ar: &A,
    image: &ImageBuf<T>,
    p: &PreparedPchip3d,
    data_min: [Double; 3],
    inv: [Double; 3],
) -> (r: ImageBuf<T>)
    requires
        image.valid(),
        p.valid(),
        p.size >= 2,
    ensures
        is_table_image(ar, *p, data_min, inv, *image, r),
{
    let total: usize = image.data.len();
    let n: usize = total / 3;
    let mut pixels: Vec<[T; 3]> = Vec::new();
    let ghost mut values: Seq<[Double; 3]> = Seq::empty();
    let mut k: usize = 0;
    while k < n
        invariant
            k <= n,
            3 * n == total,
            total == image.data@.len(),
            p.valid(),
            p.size >= 2,
            pixels@.len() == k,
            values.len() == k,
            forall|j: int|
                0 <= j < k ==> is_table_value(
                    ar,
                    *p,
                    data_min,
                    inv,
                    image.data@[3 * j],
                    image.data@[3 * j + 1],
                    image.data@[3 * j + 2],
                    #[trigger] values[j],
                ),
            forall|j: int, c: int|
                0 <= j < k && 0 <= c < 3 ==> evaluates(
                    ar,
                    T::stored(double(values[j]@[c])),
                    (#[trigger] pixels@[j]@[c]).number(),
                ),
        decreases n - k,
    {
        let v = table_value(
            ar,
            p,
            data_min,
            inv,
            image.data[3 * k],
            image.data[3 * k + 1],
            image.data[3 * k + 2],
        );
        pixels.push([stored(ar, v[0]), stored(ar, v[1]), stored(ar, v[2])]);
        proof {
            values = values.push(v);
        }
        k += 1;
    }
    let r = ImageBuf::from_pixels(image.width, image.height, pixels.as_slice());
    proof {
        assert forall|j: int| 0 <= j < image.data@.len() / 3 implies #[trigger] is_table_pixel(
            ar,
            *p,
            data_min,
            inv,
            *image,
            r,
            j,
        ) by {
            assert(is_table_value(
                ar,
                *p,
                data_min,
                inv,
                image.data@[3 * j],
                image.data@[3 * j + 1],
                image.data@[3 * j + 2],
                values[j],
            ));
            assert(pixels@[j]@[0] == r.data@[3 * j]);
            assert(pixels@[j]@[1] == r.data@[3 * j + 1]);
            assert(pixels@[j]@[2] == r.data@[3 * j + 2]);
        }
    }
    r
}

/// `r` is the print of a density image by a table: the grid between the
/// bounds is printed, and the image read from it.
pub open spec fn is_table_print<T: Sample, A: Arithmetic, B: ComputeBackend<T>>(
    ar: &A,
    backend: &B,
    density: ImageBuf<T>,
    film: Profile,
    params: RuntimeParams,
    inputs: PrintInputs,
    r: ImageBuf<T>,
) -> bool {
    let steps = params.settings.lut_resolution as nat;
    exists|
        curves: Seq<[Double; 3]>,
        low: [Double; 3],
        high: [Double; 3],
        grid: ImageBuf<T>,
        printed: ImageBuf<T>,
        p: PreparedPchip3d,
        inv: [Double; 3],
    |
        {
            &&& #[trigger] are_curves(film, curves)
            &&& forall|c: int|
                0 <= c < 3 ==> #[trigger] low@[c]
                    == params.film_render.grain.density_min@[c].negation() && channel_span(
                    ar,
                    column(curves, c),
                    low@[c],
                    high@[c],
                )
            &&& #[trigger] is_grid(ar, steps, low, high, grid)
            &&& #[trigger] prints(backend, grid, inputs, printed)
            &&& are_fetched(ar, printed.data@, p.lut@)
            &&& p.size == steps
            &&& prepared(ar, p)
            &&& are_scales(ar, low, high, p.size as int, inv)
            &&& #[trigger] is_table_image(ar, p, low, inv, density, r)
        }
}

fn print_spectral_via_lut<T: Sample, A: Arithmetic, B: ComputeBackend<T>>(
    ar: &A,
    backend: &B,
    density: &ImageBuf<T>,
    film: &Profile,
    params: &RuntimeParams,
    inputs: &PrintInputs,
) -> (r: ImageBuf<T>)
    requires
        density.valid(),
        buildable(params.settings.lut_resolution),
    ensures
        is_table_print(ar, backend, *density, *film, *params, *inputs, r),
        r.width == density.width,
        r.height == density.height,
        r.valid(),
{
    let curves = film.density_curves_f64();
    let (low, high) = enlarger_lut_bounds(
        ar,
        curves.as_slice(),
        params.film_render.grain.density_min,
    );
    let steps: usize = params.settings.lut_resolution as usize;
    let grid: ImageBuf<T> = build_lut_grid(ar, steps, low, high);
    let printed = print_with(backend, &grid, inputs);
    let lut = fetched(ar, &printed.data);
    proof {
        assert(printed.data@.len() == grid.data@.len());
    }
    let p = prepare_pchip_3d(ar, lut, steps);
    let inv = scales(ar, low, high, steps);
    let r = apply_pchip_lut(ar, density, &p, low, inv);
    proof {
        assert(are_curves(*film, curves@));
        assert(is_grid(ar, steps as nat, low, high, grid));
        assert(prints(backend, grid, *inputs, printed));
        assert(is_table_image(ar, p, low, inv, *density, r));
    }
    r
}

// ── Exposure of the paper ────────────────────────────────────────────────

/// The paper's log exposure, from the logarithm before the print exposure.
pub open spec fn paper_exposure<T: Sample>(x: T, print_exposure: Single) -> Formula {
    T::stored(
        unary(
            Unary::Log10,
            plus(
                larger(
                    times(power(constant(TEN), x.fetched()), widen(single(print_exposure))),
                    constant(0),
                ),
                constant(SMALLEST_SUM),
            ),
        ),
    )
}

/// `r` is every number with the print exposure.
pub open spec fn is_paper_exposure<T: Sample, A: Arithmetic>(
    ar: &A,
    img: ImageBuf<T>,
    print_exposure: Single,
    r: ImageBuf<T>,
) -> bool {
    &&& r.width == img.width
    &&& r.height == img.height
    &&& r.data@.len() == img.data@.len()
    &&& forall|i: int|
        0 <= i < img.data@.len() ==> evaluates(
            ar,
            paper_exposure(img.data@[i], print_exposure),
            (#[trigger] r.data@[i]).number(),
        )
}

fn with_print_exposure<T: Sample, A: Arithmetic>(
    ar: &A,
    img: &ImageBuf<T>,
    print_exposure: Single,
) -> (r: ImageBuf<T>)
    ensures
        is_paper_exposure(ar, *img, print_exposure, r),
{
    let mut data: Vec<T> = Vec::new();
    let mut i: usize = 0;
    while i < img.data.len()
        invariant
            i <= img.data@.len(),
            data@.len() == i,
            forall|k: int|
                0 <= k < i ==> evaluates(
                    ar,
                    paper_exposure(img.data@[k], print_exposure),
                    (#[trigger] data@[k]).number(),
                ),
        decreases img.data.len() - i,
    {
        let ten: Traced<Double> = Traced::constant(ar, TEN);
        let share: Traced<Single> = Traced::new(ar, print_exposure);
        let none: Traced<Double> = Traced::constant(ar, 0);
        let least: Traced<Double> = Traced::constant(ar, SMALLEST_SUM);
        let raw = ten.power(ar, img.data[i].fetch(ar)).times(ar, share.widen(ar));
        let v = raw.larger(ar, none).plus(ar, least).unary(ar, Unary::Log10);
        data.push(T::store(ar, v).value);
        i += 1;
    }
    ImageBuf { width: img.width, height: img.height, data }
}

/// `r` is the paper's log exposure behind a film density.
pub open spec fn is_print_exposed<T: Sample, A: Arithmetic, B: ComputeBackend<T>>(
    ar: &A,
    backend: &B,
    density: ImageBuf<T>,
    film: Profile,
    print: Profile,
    params: RuntimeParams,
    illuminant: Seq<Double>,
    factor: Double,
    r: ImageBuf<T>,
) -> bool {
    exists|inputs: PrintInputs, log: ImageBuf<T>|
        {
            &&& #[trigger] inputs.is_for(ar, film, print, illuminant, factor)
            &&& if params.settings.use_enlarger_lut {
                is_table_print(ar, backend, density, film, params, inputs, log)
            } else {
                prints(backend, density, inputs, log)
            }
            &&& #[trigger] is_paper_exposure(ar, log, params.enlarger.print_exposure, r)
        }
}

/// The paper's log exposure, by the light of the enlarger and its exposure
/// factor.
pub fn expose_calibrated<T: Sample, A: Arithmetic, B: ComputeBackend<T>>(
    ar: &A,
    backend: &B,
    cmy_film: &ImageBuf<T>,
    film: &Profile,
    print: &Profile,
    params: &RuntimeParams,
    print_illuminant: &[Double],
    exposure_factor: Double,
) -> (r: ImageBuf<T>)
    requires
        cmy_film.valid(),
        params.settings.use_enlarger_lut ==> buildable(params.settings.lut_resolution),
    ensures
        is_print_exposed(
            ar,
            backend,
            *cmy_film,
            *film,
            *print,
            *params,
            print_illuminant@,
            exposure_factor,
            r,
        ),
        r.width == cmy_film.width,
        r.height == cmy_film.height,
        r.valid(),
{
    let inputs = PrintInputs::new(ar, film, print, print_illuminant, exposure_factor);
    let log = if params.settings.use_enlarger_lut {
        print_spectral_via_lut(ar, backend, cmy_film, film, params, &inputs)
    } else {
        print_with(backend, cmy_film, &inputs)
    };
    let r = with_print_exposure(ar, &log, params.enlarger.print_exposure);
    proof {
        assert(inputs.is_for(ar, *film, *print, print_illuminant@, exposure_factor));
        assert(is_paper_exposure(ar, log, params.enlarger.print_exposure, r));
    }
    r
}

/// `r` is the developed paper: its curves as they are.
pub open spec fn is_print_developed<T: Sample, A: Arithmetic, B: ComputeBackend<T>>(
    ar: &A,
    backend: &B,
    log_raw: ImageBuf<T>,
    print: Profile,
    params: RuntimeParams,
    r: ImageBuf<T>,
) -> bool {
    exists|axis: Vec<Double>, curves: Vec<[Double; 3]>, gamma: Double|
        {
            &&& axis@ == print.data.log_exposure@
            &&& are_curves(print, curves@)
            &&& is_double(ar, widen(single(params.print_render.density_curve_gamma)), gamma)
            &&& #[trigger] curve_read(backend, log_raw, axis, curves, gamma, r)
        }
}

/// Develops the paper.
pub fn develop<T: Sample, A: Arithmetic, B: ComputeBackend<T>>(
    ar: &A,
    backend: &B,
    log_raw_print: &ImageBuf<T>,
    print: &Profile,
    params: &RuntimeParams,
) -> (r: ImageBuf<T>)
    requires
        log_raw_print.valid(),
        print.data.log_exposure@.len() == print.data.density_curves@.len(),
        print.data.log_exposure@.len() > 0,
    ensures
        is_print_developed(ar, backend, *log_raw_print, *print, *params, r),
        r.width == log_raw_print.width,
        r.height == log_raw_print.height,
        r.valid(),
{
    let axis = print.log_exposure_f64();
    let curves = print.density_curves_f64();
    let g: Traced<Single> = Traced::new(ar, params.print_render.density_curve_gamma);
    let gamma = g.widen(ar).value;
    let r = backend.density_curve_interp(
        log_raw_print,
        axis.as_slice(),
        curves.as_slice(),
        gamma,
    );
    assert(curve_read(backend, *log_raw_print, axis, curves, gamma, r));
    r
}

/// `r` is the print of a film density.
pub open spec fn is_printed<T: Sample, A: Arithmetic, B: ComputeBackend<T>>(
    ar: &A,
    backend: &B,
    density: ImageBuf<T>,
    film: Profile,
    print: Profile,
    params: RuntimeParams,
    illuminant: Seq<Double>,
    factor: Double,
    r: ImageBuf<T>,
) -> bool {
    exists|log: ImageBuf<T>| #[trigger]
        is_print_exposed(
            ar,
            backend,
            density,
            film,
            print,
            params,
            illuminant,
            factor,
            log,
        ) && is_print_developed(ar, backend, log, print, params, r)
}

/// Prints a film density: exposure and development.
pub fn process_with_calibration<T: Sample, A: Arithmetic, B: ComputeBackend<T>>(
    ar: &A,
    backend: &B,
    cmy_film: &ImageBuf<T>,
    film: &Profile,
    print: &Profile,
    params: &RuntimeParams,
    print_illuminant: &[Double],
    exposure_factor: Double,
) -> (r: ImageBuf<T>)
    requires
        cmy_film.valid(),
        params.settings.use_enlarger_lut ==> buildable(params.settings.lut_resolution),
        print.data.log_exposure@.len() == print.data.density_curves@.len(),
        print.data.log_exposure@.len() > 0,
    ensures
        is_printed(
            ar,
            backend,
            *cmy_film,
            *film,
            *print,
            *params,
            print_illuminant@,
            exposure_factor,
            r,
        ),
        r.width == cmy_film.width,
        r.height == cmy_film.height,
        r.valid(),
{
    let log = expose_calibrated(
        ar,
        backend,
        cmy_film,
        film,
        print,
        params,
        print_illuminant,
        exposure_factor,
    );
    let r = develop(ar, backend, &log, print, params);
    proof {
        assert(is_print_exposed(
            ar,
            backend,
            *cmy_film,
            *film,
            *print,
            *params,
            print_illuminant@,
            exposure_factor,
            log,
        ));
    }
    r
}

// ── Light of one density ─────────────────────────────────────────────────

/// Density of the film at a wavelength: the dyes, and the base where it is
/// known.
pub open spec fn spectral_density(
    d: Seq<Formula>,
    row: [Double; 3],
    base: Option<Double>,
) -> Formula {
    let dyes = plus(
        plus(times(d[0], double(row@[0])), times(d[1], double(row@[1]))),
        times(d[2], double(row@[2])),
    );
    match base {
        Some(b) => plus(dyes, double(b)),
        None => dyes,
    }
}

/// Light that a density lets through; nothing where that is no number.
pub open spec fn light_through(density: Formula, light: Double) -> Formula {
    without_nan(
        times(power(constant(TEN), unary(Unary::Negate, density)), double(light)),
    )
}

/// The base density at a wavelength: it counts where it covers all `n`
/// wavelengths.
pub open spec fn base_at(base: Seq<Double>, n: int, wl: int) -> Option<Double> {
    if base.len() > 0 && base.len() >= n {
        Some(base[wl])
    } else {
        None
    }
}

/// Exposure of a channel by the light through a density, over `n`
/// wavelengths.
pub open spec fn exposure_through(
    d: Seq<Formula>,
    channel_density: Seq<[Double; 3]>,
    base: Seq<Double>,
    illuminant: Seq<Double>,
    sensitivity: Seq<[Double; 3]>,
    c: int,
    all: int,
    n: int,
) -> Formula {
    sum_from(
        constant(0),
        |wl: int|
            times(
                light_through(
                    spectral_density(d, channel_density[wl], base_at(base, all, wl)),
                    illuminant[wl],
                ),
                double(sensitivity[wl]@[c]),
            ),
        n,
    )
}

fn light_at<A: Arithmetic>(
    ar: &A,
    d: [Traced<Double>; 3],
    row: [Double; 3],
    base: Option<Double>,
    light: Double,
) -> (r: Traced<Double>)
    requires
        crate::arith::all_hold(ar, d@),
    ensures
        r.holds(ar),
        r.formula@ == light_through(
            spectral_density(crate::arith::formulas(d@), row, base),
            light,
        ),
{
    assert(d@[0].holds(ar) && d@[1].holds(ar) && d@[2].holds(ar));
    let a = d[0].times(ar, Traced::new(ar, row[0]));
    let b = d[1].times(ar, Traced::new(ar, row[1]));
    let c = d[2].times(ar, Traced::new(ar, row[2]));
    let dyes = a.plus(ar, b).plus(ar, c);
    let all = match base {
        Some(v) => dyes.plus(ar, Traced::new(ar, v)),
        None => dyes,
    };
    let ten: Traced<Double> = Traced::constant(ar, TEN);
    let t = ten.power(ar, all.unary(ar, Unary::Negate));
    t.times(ar, Traced::new(ar, light)).without_nan(ar)
}

/// The exposure of a channel by the light through a density.
pub fn channel_exposure<A: Arithmetic>(
    ar: &A,
    d: [Traced<Double>; 3],
    channel_density: &[[Double; 3]],
    base_density: &[Double],
    illuminant: &[Double],
    sensitivity: &[[Double; 3]],
    c: usize,
    n: usize,
) -> (r: Traced<Double>)
    requires
        crate::arith::all_hold(ar, d@),
        c < 3,
        n <= channel_density@.len(),
        n <= illuminant@.len(),
        n <= sensitivity@.len(),
    ensures
        r.holds(ar),
        r.formula@ == exposure_through(
            crate::arith::formulas(d@),
            channel_density@,
            base_density@,
            illuminant@,
            sensitivity@,
            c as int,
            n as int,
            n as int,
        ),
{
    let has_base: bool = base_density.len() > 0 && base_density.len() >= n;
    let mut sum: Traced<Double> = Traced::constant(ar, 0);
    let mut wl: usize = 0;
    while wl < n
        invariant
            wl <= n,
            c < 3,
            crate::arith::all_hold(ar, d@),
            n <= channel_density@.len(),
            n <= illuminant@.len(),
            n <= sensitivity@.len(),
            has_base == (base_density@.len() > 0 && base_density@.len() >= n),
            sum.holds(ar),
            sum.formula@ == exposure_through(
                crate::arith::formulas(d@),
                channel_density@,
                base_density@,
                illuminant@,
                sensitivity@,
                c as int,
                n as int,
                wl as int,
            ),
        decreases n - wl,
    {
        let base: Option<Double> = if has_base {
            Some(base_density[wl])
        } else {
            None
        };
        let light = light_at(ar, d, channel_density[wl], base, illuminant[wl]);
        let row = sensitivity[wl];
        sum = sum.plus(ar, light.times(ar, Traced::new(ar, row[c])));
        wl += 1;
    }
    sum
}

/// The exposures of the three channels by the light through one density.
pub fn compute_single_pixel_raw<A: Arithmetic>(
    ar: &A,
    density_cmy: [Double; 3],
    channel_density: &[[Double; 3]],
    base_density: &[Double],
    illuminant: &[Double],
    sensitivity: &[[Double; 3]],
    n_wl: usize,
) -> (r: [Double; 3])
    requires
        n_wl <= channel_density@.len(),
        n_wl <= illuminant@.len(),
        n_wl <= sensitivity@.len(),
    ensures
        forall|c: int|
            0 <= c < 3 ==> is_double(
                ar,
                exposure_through(
                    crate::colorspace::leaves3(density_cmy),
                    channel_density@,
                    base_density@,
                    illuminant@,
                    sensitivity@,
                    c,
                    n_wl as int,
                    n_wl as int,
                ),
                #[trigger] r@[c],
            ),
{
    let d: [Traced<Double>; 3] = [
        Traced::new(ar, density_cmy[0]),
        Traced::new(ar, density_cmy[1]),
        Traced::new(ar, density_cmy[2]),
    ];
    assert(crate::arith::formulas(d@) =~= crate::colorspace::leaves3(density_cmy));
    let a = channel_exposure(
        ar,
        d,
        channel_density,
        base_density,
        illuminant,
        sensitivity,
        0,
        n_wl,
    );
    let b = channel_exposure(
        ar,
        d,
        channel_density,
        base_density,
        illuminant,
        sensitivity,
        1,
        n_wl,
    );
    let c = channel_exposure(
        ar,
        d,
        channel_density,
        base_density,
        illuminant,
        sensitivity,
        2,
        n_wl,
    );
    [a.value, b.value, c.value]
}

// ── Exposure by the middle of the picture ────────────────────────────────

/// The distance of pixel `i` of `n` from the middle, in longer sides.
pub open spec fn offset(i: int, n: int, longest: int) -> Formula {
    let side = narrow(Formula::Whole(n as u64));
    times(
        minus(over(narrow(Formula::Whole(i as u64)), side), single(Single { bits: 0x3f00_0000 })),
        over(side, narrow(Formula::Whole(longest as u64))),
    )
}

/// Weight of a pixel: a bell of width one quarter over the picture.
pub open spec fn middle_weight(x: Formula, y: Formula) -> Formula {
    let quarter = single(Single { bits: 0x3e80_0000 });
    widen(
        unary(
            Unary::Exp,
            over(
                unary(Unary::Negate, plus(times(x, x), times(y, y))),
                times(times(single(Single { bits: 0x4000_0000 }), quarter), quarter),
            ),
        ),
    )
}

/// Weight of pixel `k`.
pub open spec fn weight_at(width: u32, height: u32, k: int) -> Formula {
    let longest = longer(width, height) as int;
    middle_weight(
        offset(k % (width as int), width as int, longest),
        offset(k / (width as int), height as int, longest),
    )
}

/// The weighted sum of channel `c` over `n` pixels.
pub open spec fn weighted_density<T: Sample>(img: ImageBuf<T>, c: int, n: int) -> Formula {
    sum_from(
        constant(0),
        |k: int| times(img.data@[3 * k + c].fetched(), weight_at(img.width, img.height, k)),
        n,
    )
}

/// The sum of the weights of `n` pixels.
pub open spec fn weight_sum(width: u32, height: u32, n: int) -> Formula {
    sum_from(constant(0), |k: int| weight_at(width, height, k), n)
}

fn pixel_offset<A: Arithmetic>(ar: &A, i: usize, n: usize, longest: usize) -> (r: Traced<Single>)
    ensures
        r.holds(ar),
        r.formula@ == offset(i as int, n as int, longest as int),
{
    let at: Traced<Double> = Traced::whole(ar, i as u64);
    let count: Traced<Double> = Traced::whole(ar, n as u64);
    let most: Traced<Double> = Traced::whole(ar, longest as u64);
    let side = count.narrow(ar);
    let half: Traced<Single> = Traced::new(ar, Single { bits: 0x3f00_0000 });
    at.narrow(ar).over(ar, side).minus(ar, half).times(ar, side.over(ar, most.narrow(ar)))
}

fn pixel_weight<A: Arithmetic>(ar: &A, width: usize, height: usize, k: usize) -> (r: Traced<Double>)
    requires
        0 < width <= u32::MAX,
        height <= u32::MAX,
    ensures
        r.holds(ar),
        r.formula@ == weight_at(width as u32, height as u32, k as int),
{
    let longest: usize = if height > width {
        height
    } else {
        width
    };
    let x = pixel_offset(ar, k % width, width, longest);
    let y = pixel_offset(ar, k / width, height, longest);
    let two: Traced<Single> = Traced::new(ar, Single { bits: 0x4000_0000 });
    let quarter: Traced<Single> = Traced::new(ar, Single { bits: 0x3e80_0000 });
    let d = x.times(ar, x).plus(ar, y.times(ar, y)).unary(ar, Unary::Negate);
    let rate = two.times(ar, quarter).times(ar, quarter);
    d.over(ar, rate).unary(ar, Unary::Exp).widen(ar)
}

/// The density in the middle of the picture: the mean of each channel,
/// weighted towards the middle.
pub fn compute_midgray_film_density<T: Sample, A: Arithmetic>(ar: &A, cmy_film: &ImageBuf<T>) -> (r:
    [Double; 3])
    requires
        cmy_film.valid(),
    ensures
        is_midgray(ar, *cmy_film, r),
{
    let total: usize = cmy_film.data.len();
    let n: usize = total / 3;
    let w: usize = cmy_film.width as usize;
    let h: usize = cmy_film.height as usize;
    let mut s0: Traced<Double> = Traced::constant(ar, 0);
    let mut s1: Traced<Double> = Traced::constant(ar, 0);
    let mut s2: Traced<Double> = Traced::constant(ar, 0);
    let mut wt: Traced<Double> = Traced::constant(ar, 0);
    let mut k: usize = 0;
    while k < n
        invariant
            k <= n,
            3 * n == total,
            total == cmy_film.data@.len(),
            w == cmy_film.width,
            h == cmy_film.height,
            n > 0 ==> w > 0,
            s0.holds(ar) && s1.holds(ar) && s2.holds(ar) && wt.holds(ar),
            s0.formula@ == weighted_density(*cmy_film, 0, k as int),
            s1.formula@ == weighted_density(*cmy_film, 1, k as int),
            s2.formula@ == weighted_density(*cmy_film, 2, k as int),
            wt.formula@ == weight_sum(cmy_film.width, cmy_film.height, k as int),
        decreases n - k,
    {
        let weight = pixel_weight(ar, w, h, k);
        s0 = s0.plus(ar, cmy_film.data[3 * k].fetch(ar).times(ar, weight));
        s1 = s1.plus(ar, cmy_film.data[3 * k + 1].fetch(ar).times(ar, weight));
        s2 = s2.plus(ar, cmy_film.data[3 * k + 2].fetch(ar).times(ar, weight));
        wt = wt.plus(ar, weight);
        k += 1;
    }
    [s0.over(ar, wt).value, s1.over(ar, wt).value, s2.over(ar, wt).value]
}

/// `r` is the density in the middle of the picture.
pub open spec fn is_midgray<T: Sample, A: Arithmetic>(
    ar: &A,
    img: ImageBuf<T>,
    r: [Double; 3],
) -> bool {
    let n = img.data@.len() / 3;
    forall|c: int|
        0 <= c < 3 ==> is_double(
            ar,
            over(weighted_density(img, c, n as int), weight_sum(img.width, img.height, n as int)),
            #[trigger] r@[c],
        )
}

/// The fewest of three.
pub open spec fn fewest(a: int, b: int, c: int) -> int {
    let ab = if a < b {
        a
    } else {
        b
    };
    if ab < c {
        ab
    } else {
        c
    }
}

pub fn fewest_of(a: usize, b: usize, c: usize) -> (r: usize)
    ensures
        r == fewest(a as int, b as int, c as int),
{
    let ab: usize = if a < b {
        a
    } else {
        b
    };
    if ab < c {
        ab
    } else {
        c
    }
}

/// The exposures of the channels by the light through a density.
pub open spec fn are_exposures<A: Arithmetic>(
    ar: &A,
    density: [Double; 3],
    inputs: PrintInputs,
    r: [Double; 3],
) -> bool {
    let n = fewest(
        inputs.illuminant@.len() as int,
        inputs.channel_density@.len() as int,
        inputs.sensitivity@.len() as int,
    );
    forall|c: int|
        0 <= c < 3 ==> is_double(
            ar,
            exposure_through(
                crate::colorspace::leaves3(density),
                inputs.channel_density@,
                inputs.base_density@,
                inputs.illuminant@,
                inputs.sensitivity@,
                c,
                n,
                n,
            ),
            #[trigger] r@[c],
        )
}

/// The factor that brings an exposure to the print exposure.
pub open spec fn normalization(print_exposure: Single, raw: [Double; 3]) -> Formula {
    over(
        widen(single(print_exposure)),
        larger(
            unary(
                Unary::CubeRoot,
                times(times(double(raw@[0]), double(raw@[1])), double(raw@[2])),
            ),
            constant(SMALLEST_SUM),
        ),
    )
}

/// `r` is the print of a film density, exposed by the middle of the picture.
pub open spec fn is_self_calibrated<T: Sample, A: Arithmetic, B: ComputeBackend<T>>(
    ar: &A,
    backend: &B,
    density: ImageBuf<T>,
    film: Profile,
    print: Profile,
    params: RuntimeParams,
    illuminant: Seq<Double>,
    r: ImageBuf<T>,
) -> bool {
    exists|mid: [Double; 3], raw: [Double; 3], inputs: PrintInputs, log: ImageBuf<T>|
        {
            &&& #[trigger] is_midgray(ar, density, mid)
            &&& #[trigger] are_exposures(ar, mid, inputs, raw)
            &&& inputs.is_for(ar, film, print, illuminant, inputs.factor)
            &&& is_double(ar, normalization(params.enlarger.print_exposure, raw), inputs.factor)
            &&& #[trigger] prints(backend, density, inputs, log)
            &&& is_print_developed(ar, backend, log, print, params, r)
        }
}

/// Prints a film density with the light of the enlarger, exposed by the
/// middle of the picture.
pub fn process<T: Sample, A: Arithmetic, B: ComputeBackend<T>>(
    ar: &A,
    backend: &B,
    cmy_film: &ImageBuf<T>,
    film: &Profile,
    print: &Profile,
    params: &RuntimeParams,
    illuminant: &[Double],
) -> (r: ImageBuf<T>)
    requires
        cmy_film.valid(),
        print.data.log_exposure@.len() == print.data.density_curves@.len(),
        print.data.log_exposure@.len() > 0,
    ensures
        is_self_calibrated(ar, backend, *cmy_film, *film, *print, *params, illuminant@, r),
        r.width == cmy_film.width,
        r.height == cmy_film.height,
        r.valid(),
{
    let mut inputs = PrintInputs::new(ar, film, print, illuminant, Double { bits: 0 });
    let n: usize = fewest_of(
        inputs.illuminant.len(),
        inputs.channel_density.len(),
        inputs.sensitivity.len(),
    );
    let mid = compute_midgray_film_density(ar, cmy_film);
    let raw = compute_single_pixel_raw(
        ar,
        mid,
        inputs.channel_density.as_slice(),
        inputs.base_density.as_slice(),
        inputs.illuminant.as_slice(),
        inputs.sensitivity.as_slice(),
        n,
    );
    let given: Traced<Single> = Traced::new(ar, params.enlarger.print_exposure);
    let a: Traced<Double> = Traced::new(ar, raw[0]);
    let product = a.times(ar, Traced::new(ar, raw[1])).times(ar, Traced::new(ar, raw[2]));
    let mean = product.unary(ar, Unary::CubeRoot).larger(ar, Traced::constant(ar, SMALLEST_SUM));
    inputs.factor = given.widen(ar).over(ar, mean).value;
    let log = print_with(backend, cmy_film, &inputs);
    let r = develop(ar, backend, &log, print, params);
    proof {
        assert(is_midgray(ar, *cmy_film, mid));
        assert(are_exposures(ar, mid, inputs, raw));
        assert(prints(backend, *cmy_film, inputs, log));
    }
    r
}

} // verus!
