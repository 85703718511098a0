//! A render that stays on the GPU: what it is handed, and the numbers that
//! its passes are set up with.

use vstd::prelude::*;

use crate::arith::{all_hold, constant, dot3, double, formulas, is_double, is_single, minus};
use crate::arith::{narrow, over, plus, power, single, times, unary};
use crate::arith::{widen, Arithmetic, Formula, Sample, Traced, Unary};
use crate::bits::{Double, Single};
use crate::colorspace::{build_rgb_to_adapted_xyz, chromatic_adaptation_matrix_f64};
use crate::colorspace::{colorspace_from_xyz_f64, colorspace_white_xyz_f64};
use crate::colorspace::{decoded, from_xyz_bits, illuminant_white, standard_white};
use crate::colorspace::{is_adaptation, is_adapted_xyz, is_product, is_white, mat3_mul3};
use crate::colorspace::{short_decoded, short_to_xyz_bits, white_chromaticity};
use crate::couplers::{are_wide, are_wide_rows, dir_tables, narrow_matrix, wide_numbers};
use crate::couplers::{wide_rows, DirSettings, DirTables};
use crate::density_curves::{column, highest_finite, is_single_extreme, max_density};
use crate::density_curves::{normalize_density_curves, normalize_density_curves_f64, normalized};
use crate::density_curves::{single_normalized, ONE};
use crate::filming::{are_curves, are_short, are_short_rows, couplers_matrix, couplings_of};
use crate::filming::{dir_settings, input_colorspace_to_xyz, is_autoexposure};
use crate::filming::{measure_autoexposure_ev, pixel_size};
use crate::filming::{pixel_size_um, settings_for, short_numbers, short_rows};
use crate::glare::{glare_distribution, log_mean, log_width};
use crate::image::ImageBuf;
use crate::params::{GlareParams, GrainParams, HalationParams, RuntimeParams};
use crate::pchip::{THREE, TWO};
use crate::printing::{are_channel_densities, are_sensitivities, sensitivities};
use crate::profile::Profile;
use crate::scanning::{short_light_of, short_light_sum, viewing};
use crate::spectral::{cmf, color_space_named, color_space_or, illuminant_named, input_color_space};
use crate::spectral::{output_color_space, select_illuminant, select_viewing_illuminant};
use crate::spectral::{short_response, ColorSpace, Illuminant};

verus! {

// ── What the chain is handed ─────────────────────────────────────────────

/// Halation, in pixels, averaged over the channels where the chain has one
/// width for all of them.
#[derive(Clone, Copy)]
pub struct HalationInputs {
    pub scatter_amount: Single,
    pub scatter_core_px: Single,
    pub scatter_tail_px: Single,
    pub scatter_tail_weight: [Single; 3],
    pub halation_amount: Single,
    pub halation_strength_avg: Single,
    pub halation_a_tot: [Single; 3],
    pub halation_first_sigma_px: Single,
    pub halation_n_bounces: u32,
    pub halation_bounce_decay: Single,
    pub halation_renormalize: bool,
}

/// DIR couplers.
pub struct DirInputs {
    pub couplers_matrix_scaled: [[Single; 3]; 3],
    pub density_max: [Single; 3],
    pub is_positive: bool,
    pub diffusion_size_px: Single,
    pub diffusion_tail_px: Single,
    pub diffusion_tail_weight: Single,
    pub density_curves_0: Vec<[Double; 3]>,
    pub log_exposure: Vec<Double>,
    pub gamma_factor: Double,
}

/// Grain.
#[derive(Clone, Copy)]
pub struct GrainInputs {
    pub density_min: [Single; 3],
    pub density_max: [Single; 3],
    pub n_particles_per_pixel: [Single; 3],
    pub grain_uniformity: [Single; 3],
    pub n_sub_layers: u32,
    pub base_seed: u32,
    pub grain_blur: Single,
}

/// Viewing glare.
#[derive(Clone, Copy)]
pub struct GlareInputs {
    pub mu: Single,
    pub sigma: Single,
    pub blur_px: Single,
    pub base_seed: u32,
    pub rgb_offset: [Single; 3],
}

/// Unsharp mask.
#[derive(Clone, Copy)]
pub struct UnsharpInputs {
    pub sigma_px: Single,
    pub amount: Single,
}

/// What a resident render is handed besides its image and its table.
pub struct ChainInputs {
    pub rgb_to_adapted_xyz: [[Double; 3]; 3],
    pub film_log_exposure: Vec<Double>,
    pub film_density_curves_normalized: Vec<[Double; 3]>,
    pub film_gamma: Double,
    pub film_channel_density: Vec<[Double; 3]>,
    pub film_base_density: Vec<Double>,
    pub print_illuminant: Vec<Double>,
    pub print_sensitivity: Vec<[Double; 3]>,
    pub print_normalization_factor: Double,
    pub print_log_exposure: Vec<Double>,
    pub print_density_curves: Vec<[Double; 3]>,
    pub print_gamma: Double,
    pub print_channel_density: Vec<[Double; 3]>,
    pub print_base_density: Vec<Double>,
    pub viewing_illuminant: Vec<Double>,
    pub scan_normalization: Double,
    pub scan_xyz_to_rgb: [[Double; 3]; 3],
    pub halation: Option<HalationInputs>,
    pub dir_couplers: Option<DirInputs>,
    pub grain: Option<GrainInputs>,
    pub glare: Option<GlareInputs>,
    pub unsharp: Option<UnsharpInputs>,
}

// ── Exposure ─────────────────────────────────────────────────────────────

/// Two to the power of an exposure value.
pub open spec fn ev_scale(ev: Single) -> Formula {
    power(constant(TWO), widen(single(ev)))
}

fn ev_scale_of<A: Arithmetic>(ar: &A, ev: Single) -> (r: Traced<Double>)
    ensures
        r.holds(ar),
        r.formula@ == ev_scale(ev),
{
    let two: Traced<Double> = Traced::constant(ar, TWO);
    let v: Traced<Single> = Traced::new(ar, ev);
    two.power(ar, v.widen(ar))
}

/// The scale of the exposure: the metered one, where metering is on, and the
/// compensation, where there is one.
pub open spec fn exposure_scale(metered: Option<Single>, compensation: Single) -> Formula {
    let first = match metered {
        Some(ev) => times(constant(ONE), ev_scale(ev)),
        None => constant(ONE),
    };
    if compensation.rank() == 0 {
        first
    } else {
        times(first, ev_scale(compensation))
    }
}

/// The metered exposure of an image, where metering is on.
pub open spec fn is_metering<T: Sample, A: Arithmetic>(
    ar: &A,
    image: ImageBuf<T>,
    params: RuntimeParams,
    r: Option<Single>,
) -> bool {
    if params.camera.auto_exposure {
        r matches Some(ev) && exists|m: [[Single; 3]; 3]| #[trigger]
            short_decoded(
                short_to_xyz_bits(
                    color_space_named(params.io.input_color_space@, ColorSpace::ProPhoto),
                ),
                m,
            ) && is_autoexposure(ar, image, m@[1], ev)
    } else {
        r is None
    }
}

fn metering<T: Sample, A: Arithmetic>(ar: &A, image: &ImageBuf<T>, params: &RuntimeParams) -> (r:
    Option<Single>)
    requires
        image.valid(),
    ensures
        is_metering(ar, *image, *params, r),
{
    if !params.camera.auto_exposure {
        return None;
    }
    let m = input_colorspace_to_xyz(params.io.input_color_space.as_str());
    let ev = measure_autoexposure_ev(ar, image, &m);
    Some(ev)
}

/// Encoding of 1e-9: a scale this close to 1 is left out.
pub const SCALE_TOLERANCE: u64 = 0x3e11_2e0b_e826_d695;

/// `r` is a matrix with the scale of the exposure in it, where that is not 1.
pub open spec fn is_scaled_matrix<A: Arithmetic>(
    ar: &A,
    m: [[Double; 3]; 3],
    scale: Double,
    r: [[Double; 3]; 3],
) -> bool {
    exists|off: Double| #[trigger]
        is_double(ar, unary(Unary::Absolute, minus(double(scale), constant(ONE))), off) && if (
        Double { bits: SCALE_TOLERANCE }).below(off) {
            forall|i: int, j: int|
                0 <= i < 3 && 0 <= j < 3 ==> is_double(
                    ar,
                    times(double(m@[i]@[j]), double(scale)),
                    #[trigger] r@[i]@[j],
                )
        } else {
            r == m
        }
}

/// `r` is the matrix from the image to the film's light, with the exposure in
/// it.
pub open spec fn is_exposure_matrix<T: Sample, A: Arithmetic>(
    ar: &A,
    image: ImageBuf<T>,
    film: Profile,
    params: RuntimeParams,
    r: [[Double; 3]; 3],
) -> bool {
    exists|m: [[Double; 3]; 3], ev: Option<Single>, scale: Double|
        {
            &&& #[trigger] is_adapted_xyz(
                ar,
                color_space_named(params.io.input_color_space@, ColorSpace::ProPhoto),
                illuminant_named(film.info.reference_illuminant@, Illuminant::D55).short_powers(),
                m,
            )
            &&& #[trigger] is_metering(ar, image, params, ev)
            &&& is_double(
                ar,
                exposure_scale(ev, params.camera.exposure_compensation_ev),
                scale,
            )
            &&& #[trigger] is_scaled_matrix(ar, m, scale, r)
        }
}

fn scaled_matrix<A: Arithmetic>(ar: &A, m: [[Double; 3]; 3], scale: Double) -> (r: [[Double; 3]; 3])
    ensures
        is_scaled_matrix(ar, m, scale, r),
{
    let s: Traced<Double> = Traced::new(ar, scale);
    let one: Traced<Double> = Traced::constant(ar, ONE);
    let off = s.minus(ar, one).unary(ar, Unary::Absolute).value;
    assert(is_double(ar, unary(Unary::Absolute, minus(double(scale), constant(ONE))), off));
    let tolerance = Double { bits: SCALE_TOLERANCE };
    if tolerance.is_below(off) {
        crate::couplers::scale_matrix(ar, m, scale)
    } else {
        m
    }
}

fn exposure_matrix<T: Sample, A: Arithmetic>(
    ar: &A,
    image: &ImageBuf<T>,
    film: &Profile,
    params: &RuntimeParams,
) -> (r: [[Double; 3]; 3])
    requires
        image.valid(),
    ensures
        is_exposure_matrix(ar, *image, *film, *params, r),
{
    let space = input_color_space(params.io.input_color_space.as_str());
    let illuminant = select_illuminant(film.info.reference_illuminant.as_str());
    let light = illuminant.power_numbers();
    let m = build_rgb_to_adapted_xyz(ar, space, light.as_slice());
    let ev = metering(ar, image, params);
    let mut scale: Traced<Double> = Traced::constant(ar, ONE);
    if let Some(v) = ev {
        scale = scale.times(ar, ev_scale_of(ar, v));
    }
    let comp = params.camera.exposure_compensation_ev;
    if !comp.is_zero() {
        scale = scale.times(ar, ev_scale_of(ar, comp));
    }
    let r = scaled_matrix(ar, m, scale.value);
    proof {
        assert(is_double(ar, exposure_scale(ev, comp), scale.value));
        assert(is_adapted_xyz(ar, space, light@, m));
        assert(is_metering(ar, *image, *params, ev));
        assert(is_scaled_matrix(ar, m, scale.value, r));
    }
    r
}

// ── Scanning ─────────────────────────────────────────────────────────────

/// `r` is the matrix from XYZ under the viewing light to the output.
pub open spec fn is_output_matrix<A: Arithmetic>(
    ar: &A,
    print: Profile,
    space_name: Seq<char>,
    r: [[Double; 3]; 3],
) -> bool {
    exists|from: [[Double; 3]; 3], src: [Double; 3], dst: [Double; 3], adapt: [[Double; 3]; 3]|
        {
            &&& decoded(from_xyz_bits(color_space_named(space_name, ColorSpace::Srgb)), from)
            &&& src@ == illuminant_white(viewing(print))
            &&& is_white(
                ar,
                white_chromaticity(color_space_named(space_name, ColorSpace::ProPhoto)).0,
                white_chromaticity(color_space_named(space_name, ColorSpace::ProPhoto)).1,
                dst,
            )
            &&& #[trigger] is_adaptation(ar, src, dst, adapt)
            &&& #[trigger] is_product(ar, from, adapt, r)
        }
}

fn output_matrix<A: Arithmetic>(ar: &A, print: &Profile, space_name: &str) -> (r: [[Double; 3]; 3])
    ensures
        is_output_matrix(ar, *print, space_name@, r),
{
    let src = standard_white(
        select_viewing_illuminant(print.info.viewing_illuminant.as_str()),
    );
    let dst = colorspace_white_xyz_f64(ar, color_space_or(space_name, ColorSpace::ProPhoto));
    let adapt = chromatic_adaptation_matrix_f64(ar, src, dst);
    let from = colorspace_from_xyz_f64(output_color_space(space_name));
    let r = mat3_mul3(ar, &from, &adapt);
    proof {
        assert(is_adaptation(ar, src, dst, adapt));
        assert(is_product(ar, from, adapt, r));
    }
    r
}

// ── Halation ─────────────────────────────────────────────────────────────

/// The mean of three numbers.
pub open spec fn mean3(a: [Double; 3]) -> Formula {
    over(plus(plus(double(a@[0]), double(a@[1])), double(a@[2])), constant(THREE))
}

fn mean3_of<A: Arithmetic>(ar: &A, a: [Double; 3]) -> (r: Traced<Double>)
    ensures
        r.holds(ar),
        r.formula@ == mean3(a),
{
    let x: Traced<Double> = Traced::new(ar, a[0]);
    let k: Traced<Double> = Traced::constant(ar, THREE);
    x.plus(ar, Traced::new(ar, a[1])).plus(ar, Traced::new(ar, a[2])).over(ar, k)
}

/// A mean length in pixels, scaled.
pub open spec fn mean_pixels(um: [Double; 3], scale: Double, pixel_um: Single) -> Formula {
    narrow(over(times(mean3(um), double(scale)), widen(single(pixel_um))))
}

fn mean_pixels_of<A: Arithmetic>(ar: &A, um: [Double; 3], scale: Double, pixel_um: Single) -> (r:
    Single)
    ensures
        is_single(ar, mean_pixels(um, scale, pixel_um), r),
{
    let p: Traced<Single> = Traced::new(ar, pixel_um);
    let s: Traced<Double> = Traced::new(ar, scale);
    mean3_of(ar, um).times(ar, s).over(ar, p.widen(ar)).narrow(ar).value
}

fn short<A: Arithmetic>(ar: &A, x: Double) -> (r: Single)
    ensures
        is_single(ar, narrow(double(x)), r),
{
    let v: Traced<Double> = Traced::new(ar, x);
    v.narrow(ar).value
}

/// `r` is three numbers in single precision.
pub open spec fn are_short3<A: Arithmetic>(ar: &A, x: [Double; 3], r: [Single; 3]) -> bool {
    forall|c: int| 0 <= c < 3 ==> is_single(ar, narrow(double(x@[c])), #[trigger] r@[c])
}

fn short3<A: Arithmetic>(ar: &A, x: [Double; 3]) -> (r: [Single; 3])
    ensures
        are_short3(ar, x, r),
{
    [short(ar, x[0]), short(ar, x[1]), short(ar, x[2])]
}

impl HalationInputs {
    /// The inputs are those of the halation of a film.
    pub open spec fn is_for<A: Arithmetic>(
        &self,
        ar: &A,
        p: HalationParams,
        pixel_um: Single,
    ) -> bool {
        &&& is_single(ar, narrow(double(p.scatter_amount)), self.scatter_amount)
        &&& is_single(
            ar,
            mean_pixels(p.scatter_core_um, p.scatter_spatial_scale, pixel_um),
            self.scatter_core_px,
        )
        &&& is_single(
            ar,
            mean_pixels(p.scatter_tail_um, p.scatter_spatial_scale, pixel_um),
            self.scatter_tail_px,
        )
        &&& are_short3(ar, p.scatter_tail_weight, self.scatter_tail_weight)
        &&& is_single(ar, narrow(double(p.halation_amount)), self.halation_amount)
        &&& is_single(
            ar,
            narrow(times(mean3(p.halation_strength), double(p.halation_amount))),
            self.halation_strength_avg,
        )
        &&& forall|c: int|
            0 <= c < 3 ==> is_single(
                ar,
                narrow(times(double(p.halation_strength@[c]), double(p.halation_amount))),
                #[trigger] self.halation_a_tot@[c],
            )
        &&& is_single(
            ar,
            mean_pixels(p.halation_first_sigma_um, p.halation_spatial_scale, pixel_um),
            self.halation_first_sigma_px,
        )
        &&& self.halation_n_bounces == p.halation_n_bounces
        &&& is_single(ar, narrow(double(p.halation_bounce_decay)), self.halation_bounce_decay)
        &&& self.halation_renormalize == p.halation_renormalize
    }
}

fn strength_of<A: Arithmetic>(ar: &A, strength: Double, amount: Double) -> (r: Single)
    ensures
        is_single(ar, narrow(times(double(strength), double(amount))), r),
{
    let s: Traced<Double> = Traced::new(ar, strength);
    s.times(ar, Traced::new(ar, amount)).narrow(ar).value
}

fn halation_inputs<A: Arithmetic>(ar: &A, p: &HalationParams, pixel_um: Single) -> (r: Option<
    HalationInputs,
>)
    ensures
        r is Some == p.active,
        r matches Some(h) ==> h.is_for(ar, *p, pixel_um),
{
    if !p.active {
        return None;
    }
    let a = p.halation_strength;
    let amount = p.halation_amount;
    let k: Traced<Double> = Traced::new(ar, amount);
    Some(
        HalationInputs {
            scatter_amount: short(ar, p.scatter_amount),
            scatter_core_px: mean_pixels_of(
                ar,
                p.scatter_core_um,
                p.scatter_spatial_scale,
                pixel_um,
            ),
            scatter_tail_px: mean_pixels_of(
                ar,
                p.scatter_tail_um,
                p.scatter_spatial_scale,
                pixel_um,
            ),
            scatter_tail_weight: short3(ar, p.scatter_tail_weight),
            halation_amount: short(ar, amount),
            halation_strength_avg: mean3_of(ar, a).times(ar, k).narrow(ar).value,
            halation_a_tot: [
                strength_of(ar, a[0], amount),
                strength_of(ar, a[1], amount),
                strength_of(ar, a[2], amount),
            ],
            halation_first_sigma_px: mean_pixels_of(
                ar,
                p.halation_first_sigma_um,
                p.halation_spatial_scale,
                pixel_um,
            ),
            halation_n_bounces: p.halation_n_bounces,
            halation_bounce_decay: short(ar, p.halation_bounce_decay),
            halation_renormalize: p.halation_renormalize,
        },
    )
}

// ── DIR couplers ─────────────────────────────────────────────────────────

impl DirInputs {
    /// The inputs are made of the prepared tables of the couplers.
    pub open spec fn from_tables<A: Arithmetic>(
        &self,
        ar: &A,
        t: DirTables,
        film: Profile,
        gamma: Single,
    ) -> bool {
        &&& forall|i: int, j: int|
            0 <= i < 3 && 0 <= j < 3 ==> is_single(
                ar,
                narrow(double(t.matrix@[i]@[j])),
                #[trigger] self.couplers_matrix_scaled@[i]@[j],
            )
        &&& self.density_max == t.top
        &&& self.is_positive == (film.info.film_type@ == "positive"@)
        &&& self.diffusion_size_px == t.spread.size
        &&& self.diffusion_tail_px == t.spread.tail
        &&& is_single(ar, narrow(double(t.spread.weight)), self.diffusion_tail_weight)
        &&& are_wide_rows(ar, t.curves@, self.density_curves_0@)
        &&& self.log_exposure@ == film.data.log_exposure@
        &&& is_double(ar, widen(single(gamma)), self.gamma_factor)
    }

    /// The inputs are those of the couplers of a film.
    pub open spec fn is_for<A: Arithmetic>(
        &self,
        ar: &A,
        film: Profile,
        params: RuntimeParams,
        pixel_um: Single,
    ) -> bool {
        exists|
            axis: Seq<Single>,
            curves: Seq<[Double; 3]>,
            rows: Seq<[Single; 3]>,
            matrix: [[Double; 3]; 3],
            t: DirTables,
        |
            {
                &&& are_short(ar, film.data.log_exposure@, axis)
                &&& #[trigger] are_curves(film, curves)
                &&& are_short_rows(ar, curves, rows)
                &&& is_couplers_matrix(ar, params, matrix)
                &&& #[trigger] t.is_for(
                    ar,
                    film_couplers(film, params, pixel_um),
                    axis,
                    rows,
                    matrix,
                )
                &&& self.from_tables(ar, t, film, params.film_render.density_curve_gamma)
            }
    }
}

/// What the couplers of a film act with.
pub open spec fn film_couplers(film: Profile, params: RuntimeParams, pixel_um: Single) -> DirSettings {
    dir_settings(
        params.film_render.dir_couplers,
        pixel_um,
        film.info.film_type@ == "positive"@,
        params.film_render.density_curve_gamma,
    )
}

/// `r` is the couplers matrix of the parameters.
pub open spec fn is_couplers_matrix<A: Arithmetic>(
    ar: &A,
    params: RuntimeParams,
    r: [[Double; 3]; 3],
) -> bool {
    forall|i: int, j: int|
        0 <= i < 3 && 0 <= j < 3 ==> is_double(
            ar,
            couplings_of(params.film_render.dir_couplers).entry(i, j),
            #[trigger] r@[i]@[j],
        )
}

fn dir_inputs<A: Arithmetic>(ar: &A, film: &Profile, params: &RuntimeParams, pixel_um: Single) -> (r:
    Option<DirInputs>)
    requires
        film.data.log_exposure@.len() == film.data.density_curves@.len(),
    ensures
        r is Some == params.film_render.dir_couplers.active,
        r matches Some(d) ==> d.is_for(ar, *film, *params, pixel_um),
{
    let p = &params.film_render.dir_couplers;
    if !p.active {
        return None;
    }
    let curves = film.density_curves_f64();
    let axis = short_numbers(ar, film.data.log_exposure.as_slice());
    let rows = short_rows(ar, curves.as_slice());
    let matrix = couplers_matrix(ar, p);
    let gamma = params.film_render.density_curve_gamma;
    let positive: bool = film.is_positive();
    let s = settings_for(p, pixel_um, positive, gamma);
    let t = dir_tables(ar, s, axis.as_slice(), rows.as_slice(), matrix);
    let g: Traced<Single> = Traced::new(ar, gamma);
    let r = DirInputs {
        couplers_matrix_scaled: narrow_matrix(ar, t.matrix),
        density_max: t.top,
        is_positive: positive,
        diffusion_size_px: t.spread.size,
        diffusion_tail_px: t.spread.tail,
        diffusion_tail_weight: short(ar, t.spread.weight),
        density_curves_0: wide_rows(ar, t.curves.as_slice()),
        log_exposure: film.log_exposure_f64(),
        gamma_factor: g.widen(ar).value,
    };
    proof {
        assert(are_curves(*film, curves@));
        assert(is_couplers_matrix(ar, *params, matrix));
        assert(s == film_couplers(*film, *params, pixel_um));
        assert(t.is_for(ar, film_couplers(*film, *params, pixel_um), axis@, rows@, matrix));
        assert(r.from_tables(ar, t, *film, gamma));
        assert(r.is_for(ar, *film, *params, pixel_um));
    }
    Some(r)
}

// ── Grain ────────────────────────────────────────────────────────────────

/// At least one sub-layer.
pub open spec fn at_least_one(n: u32) -> u32 {
    if n < 1 {
        1
    } else {
        n
    }
}

/// Particles of a pixel in one sub-layer.
pub open spec fn resident_particles(p: GrainParams, pixel_um: Single, c: int) -> Formula {
    narrow(
        over(
            over(
                widen(times(single(pixel_um), single(pixel_um))),
                times(double(p.agx_particle_area_um2), double(p.agx_particle_scale@[c])),
            ),
            Formula::Whole(at_least_one(p.n_sub_layers) as u64),
        ),
    )
}

fn resident_particles_of<A: Arithmetic>(ar: &A, p: &GrainParams, pixel_um: Single, c: usize) -> (r:
    Single)
    requires
        c < 3,
    ensures
        is_single(ar, resident_particles(*p, pixel_um, c as int), r),
{
    let s: Traced<Single> = Traced::new(ar, pixel_um);
    let area: Traced<Double> = Traced::new(ar, p.agx_particle_area_um2);
    let scales = p.agx_particle_scale;
    let n: u32 = if p.n_sub_layers < 1 {
        1
    } else {
        p.n_sub_layers
    };
    let layers: Traced<Double> = Traced::whole(ar, n as u64);
    let one = area.times(ar, Traced::new(ar, scales[c]));
    s.times(ar, s).widen(ar).over(ar, one).over(ar, layers).narrow(ar).value
}

/// The highest density of a channel with its lowest on top.
pub open spec fn resident_top(top: Single, low: Double) -> Formula {
    plus(single(top), narrow(double(low)))
}

fn resident_top_of<A: Arithmetic>(ar: &A, top: Single, low: Double) -> (r: Single)
    ensures
        is_single(ar, resident_top(top, low), r),
{
    let t: Traced<Single> = Traced::new(ar, top);
    let l: Traced<Double> = Traced::new(ar, low);
    t.plus(ar, l.narrow(ar)).value
}

/// The highest finite density of each channel of a film's normalised curves,
/// in single precision.
pub open spec fn are_short_tops<A: Arithmetic>(ar: &A, film: Profile, top: [Single; 3]) -> bool {
    exists|curves: Seq<[Double; 3]>, rows: Seq<[Single; 3]>, low: [Single; 3], norm: Seq<
        [Single; 3],
    >|
        {
            &&& #[trigger] are_curves(film, curves)
            &&& are_short_rows(ar, curves, rows)
            &&& #[trigger] single_normalized(ar, rows, low, norm)
            &&& forall|c: int|
                0 <= c < 3 ==> is_single_extreme(
                    column(norm, c),
                    highest_finite(),
                    #[trigger] top@[c],
                )
        }
}

fn short_tops<A: Arithmetic>(ar: &A, film: &Profile) -> (r: [Single; 3])
    ensures
        are_short_tops(ar, *film, r),
{
    let curves = film.density_curves_f64();
    let rows = short_rows(ar, curves.as_slice());
    let norm = normalize_density_curves(ar, rows.as_slice());
    let ghost low = choose|low: [Single; 3]| single_normalized(ar, rows@, low, norm@);
    let r = max_density(norm.as_slice());
    proof {
        assert(are_curves(*film, curves@));
        assert(single_normalized(ar, rows@, low, norm@));
    }
    r
}

impl GrainInputs {
    /// The inputs are those of the grain of a film.
    pub open spec fn is_for<A: Arithmetic>(
        &self,
        ar: &A,
        film: Profile,
        p: GrainParams,
        pixel_um: Single,
    ) -> bool {
        &&& are_short3(ar, p.density_min, self.density_min)
        &&& exists|top: [Single; 3]| #[trigger]
            are_short_tops(ar, film, top) && self.has_tops(ar, top, p)
        &&& forall|c: int|
            0 <= c < 3 ==> is_single(
                ar,
                resident_particles(p, pixel_um, c),
                #[trigger] self.n_particles_per_pixel@[c],
            )
        &&& are_short3(ar, p.uniformity, self.grain_uniformity)
        &&& self.n_sub_layers == at_least_one(p.n_sub_layers)
        &&& self.base_seed == 0
        &&& self.grain_blur == p.blur
    }

    pub open spec fn has_tops<A: Arithmetic>(&self, ar: &A, top: [Single; 3], p: GrainParams) -> bool {
        forall|c: int|
            0 <= c < 3 ==> is_single(
                ar,
                resident_top(top@[c], p.density_min@[c]),
                #[trigger] self.density_max@[c],
            )
    }
}

fn grain_inputs<A: Arithmetic>(ar: &A, film: &Profile, p: &GrainParams, pixel_um: Single) -> (r:
    Option<GrainInputs>)
    ensures
        r is Some == p.active,
        r matches Some(g) ==> g.is_for(ar, *film, *p, pixel_um),
{
    if !p.active {
        return None;
    }
    let top = short_tops(ar, film);
    let low = p.density_min;
    let n: u32 = if p.n_sub_layers < 1 {
        1
    } else {
        p.n_sub_layers
    };
    let r = GrainInputs {
        density_min: short3(ar, low),
        density_max: [
            resident_top_of(ar, top[0], low[0]),
            resident_top_of(ar, top[1], low[1]),
            resident_top_of(ar, top[2], low[2]),
        ],
        n_particles_per_pixel: [
            resident_particles_of(ar, p, pixel_um, 0),
            resident_particles_of(ar, p, pixel_um, 1),
            resident_particles_of(ar, p, pixel_um, 2),
        ],
        grain_uniformity: short3(ar, p.uniformity),
        n_sub_layers: n,
        base_seed: 0,
        grain_blur: p.blur,
    };
    proof {
        assert(are_short_tops(ar, *film, top));
        assert(r.has_tops(ar, top, *p));
    }
    Some(r)
}

// ── Glare ────────────────────────────────────────────────────────────────

/// The colour of the glare in one output channel, in hundredths.
pub open spec fn glare_offset(
    power: Seq<Double>,
    n: int,
    norm: Double,
    row: [Double; 3],
) -> Formula {
    let light = Seq::new(
        3,
        |c: int| over(short_light_sum(power, short_response(c), n), double(norm)),
    );
    narrow(over(dot3(crate::colorspace::leaves3(row), light), constant(0x4059_0000_0000_0000)))
}

fn glare_offset_of<A: Arithmetic>(
    ar: &A,
    power: &Vec<Double>,
    n: usize,
    norm: Double,
    row: [Double; 3],
) -> (r: Single)
    requires
        n <= power@.len(),
        n <= 81,
    ensures
        is_single(ar, glare_offset(power@, n as int, norm, row), r),
{
    let k: Traced<Double> = Traced::new(ar, norm);
    let light = [
        short_light_of(ar, power, &cmf(0), n).over(ar, k),
        short_light_of(ar, power, &cmf(1), n).over(ar, k),
        short_light_of(ar, power, &cmf(2), n).over(ar, k),
    ];
    let a: [Traced<Double>; 3] = [
        Traced::new(ar, row[0]),
        Traced::new(ar, row[1]),
        Traced::new(ar, row[2]),
    ];
    proof {
        assert(formulas(a@) =~= crate::colorspace::leaves3(row));
        assert(formulas(light@) =~= Seq::new(
            3,
            |c: int| over(short_light_sum(power@, short_response(c), n as int), double(norm)),
        ));
        assert(all_hold(ar, a@) && all_hold(ar, light@));
    }
    let hundred: Traced<Double> = Traced::constant(ar, 0x4059_0000_0000_0000);
    Traced::dot3(ar, a, light).over(ar, hundred).narrow(ar).value
}

/// There is glare to add.
pub open spec fn glares(p: GlareParams) -> bool {
    p.active && (Single { bits: 0 }).below(p.percent)
}

impl GlareInputs {
    /// The inputs are those of the glare of a print.
    pub open spec fn is_for<A: Arithmetic>(
        &self,
        ar: &A,
        p: GlareParams,
        power: Seq<Double>,
        n: int,
        norm: Double,
        m: [[Double; 3]; 3],
    ) -> bool {
        &&& is_single(ar, narrow(log_mean(p.percent, p.roughness)), self.mu)
        &&& is_single(ar, narrow(log_width(p.percent, p.roughness)), self.sigma)
        &&& self.blur_px == p.blur
        &&& self.base_seed == 42
        &&& forall|i: int|
            0 <= i < 3 ==> is_single(
                ar,
                glare_offset(power, n, norm, m@[i]),
                #[trigger] self.rgb_offset@[i],
            )
    }
}

fn glare_inputs<A: Arithmetic>(
    ar: &A,
    p: &GlareParams,
    power: &Vec<Double>,
    n: usize,
    norm: Double,
    m: [[Double; 3]; 3],
) -> (r: Option<GlareInputs>)
    requires
        n <= power@.len(),
        n <= 81,
    ensures
        r is Some == glares(*p),
        r matches Some(g) ==> g.is_for(ar, *p, power@, n as int, norm, m),
{
    let none = Single { bits: 0 };
    if !(p.active && none.is_below(p.percent)) {
        return None;
    }
    let (mu, sigma) = glare_distribution(ar, p.percent, p.roughness);
    Some(
        GlareInputs {
            mu: mu.narrow(ar).value,
            sigma: sigma.narrow(ar).value,
            blur_px: p.blur,
            base_seed: 42,
            rgb_offset: [
                glare_offset_of(ar, power, n, norm, m[0]),
                glare_offset_of(ar, power, n, norm, m[1]),
                glare_offset_of(ar, power, n, norm, m[2]),
            ],
        },
    )
}

/// The unsharp mask of the scanner, where it has a width and an amount.
pub open spec fn unsharp_of(mask: [Single; 2]) -> Option<UnsharpInputs> {
    if (Single { bits: 0 }).below(mask@[0]) && (Single { bits: 0 }).below(mask@[1]) {
        Some(UnsharpInputs { sigma_px: mask@[0], amount: mask@[1] })
    } else {
        None
    }
}

fn unsharp_inputs(mask: [Single; 2]) -> (r: Option<UnsharpInputs>)
    ensures
        r == unsharp_of(mask),
{
    let none = Single { bits: 0 };
    if none.is_below(mask[0]) && none.is_below(mask[1]) {
        Some(UnsharpInputs { sigma_px: mask[0], amount: mask[1] })
    } else {
        None
    }
}

// ── All inputs ───────────────────────────────────────────────────────────

impl ChainInputs {
    /// The tables of the film.
    pub open spec fn film_part<A: Arithmetic>(
        &self,
        ar: &A,
        film: Profile,
        params: RuntimeParams,
    ) -> bool {
        &&& self.film_log_exposure@ == film.data.log_exposure@
        &&& exists|curves: Seq<[Double; 3]>, low: [Double; 3]|
            are_curves(film, curves) && #[trigger] normalized(
                ar,
                curves,
                low,
                self.film_density_curves_normalized@,
            )
        &&& is_double(ar, widen(single(params.film_render.density_curve_gamma)), self.film_gamma)
        &&& are_channel_densities(film, self.film_channel_density@)
        &&& self.film_base_density@ == film.data.base_density@
    }

    /// The tables of the print.
    pub open spec fn print_part<A: Arithmetic>(
        &self,
        ar: &A,
        print: Profile,
        params: RuntimeParams,
        illuminant: Seq<Double>,
        factor: Double,
    ) -> bool {
        &&& self.print_illuminant@ == illuminant
        &&& are_sensitivities(ar, print, self.print_sensitivity@)
        &&& is_double(
            ar,
            times(double(factor), widen(single(params.enlarger.print_exposure))),
            self.print_normalization_factor,
        )
        &&& self.print_log_exposure@ == print.data.log_exposure@
        &&& are_curves(print, self.print_density_curves@)
        &&& is_double(ar, widen(single(params.print_render.density_curve_gamma)), self.print_gamma)
        &&& are_channel_densities(print, self.print_channel_density@)
        &&& self.print_base_density@ == print.data.base_density@
    }

    /// The tables of the scan.
    pub open spec fn scan_part<A: Arithmetic>(
        &self,
        ar: &A,
        print: Profile,
        params: RuntimeParams,
    ) -> bool {
        &&& are_wide(ar, viewing(print).short_powers(), self.viewing_illuminant@)
        &&& is_double(
            ar,
            short_light_sum(
                self.viewing_illuminant@,
                short_response(1),
                print.data.channel_density@.len() as int,
            ),
            self.scan_normalization,
        )
        &&& is_output_matrix(ar, print, params.io.output_color_space@, self.scan_xyz_to_rgb)
    }

    /// The optional passes.
    pub open spec fn effects_part<A: Arithmetic>(
        &self,
        ar: &A,
        film: Profile,
        print: Profile,
        params: RuntimeParams,
        pixel_um: Single,
    ) -> bool {
        &&& self.halation is Some == params.film_render.halation.active
        &&& self.halation matches Some(h) ==> h.is_for(
            ar,
            params.film_render.halation,
            pixel_um,
        )
        &&& self.dir_couplers is Some == params.film_render.dir_couplers.active
        &&& self.dir_couplers matches Some(d) ==> d.is_for(ar, film, params, pixel_um)
        &&& self.grain is Some == params.film_render.grain.active
        &&& self.grain matches Some(g) ==> g.is_for(
            ar,
            film,
            params.film_render.grain,
            pixel_um,
        )
        &&& self.glare is Some == glares(params.print_render.glare)
        &&& self.glare matches Some(g) ==> g.is_for(
            ar,
            params.print_render.glare,
            self.viewing_illuminant@,
            print.data.channel_density@.len() as int,
            self.scan_normalization,
            self.scan_xyz_to_rgb,
        )
        &&& self.unsharp == unsharp_of(params.scanner.unsharp_mask)
    }

    /// The inputs are those of a render.
    pub open spec fn is_for<T: Sample, A: Arithmetic>(
        &self,
        ar: &A,
        image: ImageBuf<T>,
        film: Profile,
        print: Profile,
        params: RuntimeParams,
        illuminant: Seq<Double>,
        factor: Double,
    ) -> bool {
        &&& is_exposure_matrix(ar, image, film, params, self.rgb_to_adapted_xyz)
        &&& self.film_part(ar, film, params)
        &&& self.print_part(ar, print, params, illuminant, factor)
        &&& self.scan_part(ar, print, params)
        &&& exists|pixel_um: Single| #[trigger]
            is_single(
                ar,
                pixel_size(params.camera.film_format_mm, image.width, image.height),
                pixel_um,
            ) && self.effects_part(ar, film, print, params, pixel_um)
    }
}

/// The inputs of a resident render.
pub fn resident_inputs<T: Sample, A: Arithmetic>(
    ar: &A,
    image: &ImageBuf<T>,
    film: &Profile,
    print: &Profile,
    params: &RuntimeParams,
    print_illuminant: &Vec<Double>,
    print_exposure_factor: Double,
) -> (r: ChainInputs)
    requires
        image.valid(),
        film.data.log_exposure@.len() == film.data.density_curves@.len(),
        print.data.channel_density@.len() <= 81,
    ensures
        r.is_for(
            ar,
            *image,
            *film,
            *print,
            *params,
            print_illuminant@,
            print_exposure_factor,
        ),
{
    let matrix = exposure_matrix(ar, image, film, params);
    let film_curves = film.density_curves_f64();
    let film_norm = normalize_density_curves_f64(ar, film_curves.as_slice());
    let ghost low = choose|low: [Double; 3]| normalized(ar, film_curves@, low, film_norm@);
    let fg: Traced<Single> = Traced::new(ar, params.film_render.density_curve_gamma);
    let pg: Traced<Single> = Traced::new(ar, params.print_render.density_curve_gamma);
    let factor: Traced<Double> = Traced::new(ar, print_exposure_factor);
    let exposure: Traced<Single> = Traced::new(ar, params.enlarger.print_exposure);
    let print_density = print.channel_density_f64();
    let n: usize = print_density.len();
    let short_power = select_viewing_illuminant(
        print.info.viewing_illuminant.as_str(),
    ).power_numbers();
    let power = wide_numbers(ar, short_power.as_slice());
    let norm = short_light_of(ar, &power, &cmf(1), n).value;
    let to_rgb = output_matrix(ar, print, params.io.output_color_space.as_str());
    let pixel_um = pixel_size_um(ar, params.camera.film_format_mm, image.width, image.height);
    let halation = halation_inputs(ar, &params.film_render.halation, pixel_um);
    let dir_couplers = dir_inputs(ar, film, params, pixel_um);
    let grain = grain_inputs(ar, film, &params.film_render.grain, pixel_um);
    let glare = glare_inputs(ar, &params.print_render.glare, &power, n, norm, to_rgb);
    let unsharp = unsharp_inputs(params.scanner.unsharp_mask);
    let r = ChainInputs {
        rgb_to_adapted_xyz: matrix,
        film_log_exposure: film.log_exposure_f64(),
        film_density_curves_normalized: film_norm,
        film_gamma: fg.widen(ar).value,
        film_channel_density: film.channel_density_f64(),
        film_base_density: vstd::slice::slice_to_vec(film.data.base_density.as_slice()),
        print_illuminant: vstd::slice::slice_to_vec(print_illuminant.as_slice()),
        print_sensitivity: sensitivities(ar, print),
        print_normalization_factor: factor.times(ar, exposure.widen(ar)).value,
        print_log_exposure: print.log_exposure_f64(),
        print_density_curves: print.density_curves_f64(),
        print_gamma: pg.widen(ar).value,
        print_channel_density: print_density,
        print_base_density: vstd::slice::slice_to_vec(print.data.base_density.as_slice()),
        viewing_illuminant: power,
        scan_normalization: norm,
        scan_xyz_to_rgb: to_rgb,
        halation,
        dir_couplers,
        grain,
        glare,
        unsharp,
    };
    proof {
        assert(normalized(ar, film_curves@, low, r.film_density_curves_normalized@));
        assert(r.film_part(ar, *film, *params));
        assert(r.print_part(
            ar,
            *print,
            *params,
            print_illuminant@,
            print_exposure_factor,
        ));
        assert(r.scan_part(ar, *print, *params));
        assert(is_single(
            ar,
            pixel_size(params.camera.film_format_mm, image.width, image.height),
            pixel_um,
        ));
        assert(r.effects_part(ar, *film, *print, *params, pixel_um));
    }
    r
}

} // verus!
