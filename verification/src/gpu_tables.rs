//! What is uploaded to the GPU: the tables of a resident render, and the
//! dispatch of a stage on its own.

use vstd::prelude::*;

use crate::arith::{double, is_double, is_single, narrow, single, unary};
use crate::arith::{Arithmetic, Formula, Sample, Traced, Unary};
use crate::bits::{Double, Single};
use crate::colorspace::{build_rgb_to_adapted_xyz, is_adapted_xyz, is_product, mat3_mul3};
use crate::couplers::narrow_matrix;
use crate::film_chain::{BlurId, Buffer, Shader};
use crate::film_uniforms::{column_words, density_block, density_words, hanatos_block};
use crate::film_uniforms::{print_block, scan_block};
use crate::gpu_setup::{bounce_sigma, bounce_width, gamma_inverse, gamma_inverse_of, gpu_kernel};
use crate::gpu_setup::{blur_radius, is_blur_radius, is_even_axis, is_gpu_kernel, is_kept_width};
use crate::gpu_setup::{is_short_matrix, is_uniform, kept_width, short};
use crate::image::ImageBuf;
use crate::interp::SINGLE_ONE;
use crate::resident::ChainInputs;
use crate::spectral::{cmf, short_response, ColorSpace};
use crate::spectral_service::TcLut;

verus! {

/// Encoding of 1000 in single precision: a density that lets no light
/// through.
pub const OPAQUE_DENSITY: u32 = 0x447a_0000;

/// Radii beyond this have no kernel.
pub const RADIUS_LIMIT: u32 = 0x4000_0000;

// ── Words ────────────────────────────────────────────────────────────────

/// `w` is the encoding of a double in single precision.
pub open spec fn is_short_word<A: Arithmetic>(ar: &A, x: Double, w: u32) -> bool {
    is_single(ar, narrow(double(x)), Single { bits: w })
}

/// `w` is the encoding of a measurement; a missing one counts as zero.
pub open spec fn is_known_word<A: Arithmetic>(ar: &A, x: Double, w: u32) -> bool {
    if x.nan() {
        w == 0
    } else {
        is_short_word(ar, x, w)
    }
}

/// `w` is the encodings of doubles in single precision.
pub open spec fn are_short_words<A: Arithmetic>(ar: &A, xs: Seq<Double>, w: Seq<u32>) -> bool {
    w.len() == xs.len() && forall|i: int|
        0 <= i < w.len() ==> is_short_word(ar, xs[i], #[trigger] w[i])
}

/// `w` is rows of measurements, one after the other.
pub open spec fn are_row_words<A: Arithmetic>(ar: &A, rows: Seq<[Double; 3]>, w: Seq<u32>) -> bool {
    w.len() == 3 * rows.len() && forall|i: int, c: int|
        0 <= i < rows.len() && 0 <= c < 3 ==> is_known_word(
            ar,
            #[trigger] rows[i]@[c],
            w[3 * i + c],
        )
}

/// The encodings of numbers.
pub open spec fn words_of(xs: Seq<Single>) -> Seq<u32> {
    xs.map_values(|x: Single| x.bits)
}

/// `w` is the numbers of an image in single precision.
pub open spec fn are_image_words<T: Sample, A: Arithmetic>(
    ar: &A,
    data: Seq<T>,
    w: Seq<u32>,
) -> bool {
    w.len() == data.len() && forall|i: int|
        0 <= i < w.len() ==> is_single(ar, data[i].shortened(), Single { bits: #[trigger] w[i] })
}

fn short_words<A: Arithmetic>(ar: &A, xs: &[Double]) -> (r: Vec<u32>)
    ensures
        are_short_words(ar, xs@, r@),
{
    let mut r: Vec<u32> = Vec::new();
    let mut i: usize = 0;
    while i < xs.len()
        invariant
            i <= xs@.len(),
            r@.len() == i,
            forall|k: int| 0 <= k < i ==> is_short_word(ar, xs@[k], #[trigger] r@[k]),
        decreases xs.len() - i,
    {
        let v = short(ar, xs[i]);
        r.push(v.bits);
        i += 1;
    }
    r
}

fn known_word<A: Arithmetic>(ar: &A, x: Double) -> (r: u32)
    ensures
        is_known_word(ar, x, r),
{
    if x.is_nan() {
        0
    } else {
        short(ar, x).bits
    }
}

fn row_words<A: Arithmetic>(ar: &A, rows: &[[Double; 3]]) -> (r: Vec<u32>)
    ensures
        are_row_words(ar, rows@, r@),
{
    let mut r: Vec<u32> = Vec::new();
    let mut k: usize = 0;
    while k < rows.len()
        invariant
            k <= rows@.len(),
            r@.len() == 3 * k,
            forall|i: int, c: int|
                0 <= i < k && 0 <= c < 3 ==> is_known_word(
                    ar,
                    #[trigger] rows@[i]@[c],
                    r@[3 * i + c],
                ),
        decreases rows.len() - k,
    {
        let row = rows[k];
        r.push(known_word(ar, row[0]));
        r.push(known_word(ar, row[1]));
        r.push(known_word(ar, row[2]));
        k += 1;
    }
    r
}

fn bits_of(xs: &Vec<Single>) -> (r: Vec<u32>)
    ensures
        r@ == words_of(xs@),
{
    let mut r: Vec<u32> = Vec::new();
    let mut i: usize = 0;
    while i < xs.len()
        invariant
            i <= xs@.len(),
            r@.len() == i,
            forall|k: int| 0 <= k < i ==> #[trigger] r@[k] == xs@[k].bits,
        decreases xs.len() - i,
    {
        r.push(xs[i].bits);
        i += 1;
    }
    assert(r@ =~= words_of(xs@));
    r
}

/// The numbers of an image in single precision.
pub fn image_words<T: Sample, A: Arithmetic>(ar: &A, data: &[T]) -> (r: Vec<u32>)
    ensures
        are_image_words(ar, data@, r@),
{
    let mut r: Vec<u32> = Vec::new();
    let mut i: usize = 0;
    while i < data.len()
        invariant
            i <= data@.len(),
            r@.len() == i,
            forall|k: int|
                0 <= k < i ==> is_single(
                    ar,
                    data@[k].shortened(),
                    Single { bits: #[trigger] r@[k] },
                ),
        decreases data.len() - i,
    {
        let v = data[i].shorten(ar).value;
        r.push(v.bits);
        i += 1;
    }
    r
}

// ── Measurements ─────────────────────────────────────────────────────────

/// A measurement of this wavelength is missing.
pub open spec fn row_incomplete(row: Seq<Double>, base: Seq<Double>, i: int) -> bool {
    row[0].nan() || row[1].nan() || row[2].nan() || i >= base.len() || base[i].nan()
}

/// `w` is the densities of the base. A shader may be compiled on the premise
/// that nothing is a NaN, so a wavelength with a missing measurement is made
/// opaque, which takes it out of every sum.
pub open spec fn are_base_words<A: Arithmetic>(
    ar: &A,
    rows: Seq<[Double; 3]>,
    base: Seq<Double>,
    w: Seq<u32>,
) -> bool {
    w.len() == rows.len() && forall|i: int|
        0 <= i < w.len() ==> #[trigger] is_base_word(ar, rows, base, i, w[i])
}

/// `w` is the density of the base at wavelength `i`.
pub open spec fn is_base_word<A: Arithmetic>(
    ar: &A,
    rows: Seq<[Double; 3]>,
    base: Seq<Double>,
    i: int,
    w: u32,
) -> bool {
    if row_incomplete(rows[i]@, base, i) {
        w == OPAQUE_DENSITY
    } else {
        is_short_word(ar, base[i], w)
    }
}

/// Channel and base densities as the shaders take them.
pub fn sanitize_spectral_inputs<A: Arithmetic>(
    ar: &A,
    channel_density: &[[Double; 3]],
    base_density: &[Double],
) -> (r: (Vec<u32>, Vec<u32>))
    ensures
        are_row_words(ar, channel_density@, r.0@),
        are_base_words(ar, channel_density@, base_density@, r.1@),
{
    let cd = row_words(ar, channel_density);
    let mut bd: Vec<u32> = Vec::new();
    let mut wl: usize = 0;
    while wl < channel_density.len()
        invariant
            wl <= channel_density@.len(),
            bd@.len() == wl,
            forall|i: int|
                0 <= i < wl ==> #[trigger] is_base_word(
                    ar,
                    channel_density@,
                    base_density@,
                    i,
                    bd@[i],
                ),
        decreases channel_density.len() - wl,
    {
        let row = channel_density[wl];
        let missing = row[0].is_nan() || row[1].is_nan() || row[2].is_nan() || wl
            >= base_density.len() || base_density[wl].is_nan();
        let word: u32 = if missing {
            OPAQUE_DENSITY
        } else {
            short(ar, base_density[wl]).bits
        };
        assert(is_base_word(ar, channel_density@, base_density@, wl as int, word));
        let ghost before = bd@;
        bd.push(word);
        proof {
            assert forall|i: int| 0 <= i < wl + 1 implies #[trigger] is_base_word(
                ar,
                channel_density@,
                base_density@,
                i,
                bd@[i],
            ) by {
                if i < wl {
                    assert(is_base_word(ar, channel_density@, base_density@, i, before[i]));
                }
            }
        }
        wl += 1;
    }
    (cd, bd)
}

// ── Kernels ──────────────────────────────────────────────────────────────

/// Width of a blur of a render.
pub open spec fn blur_width(c: ChainInputs, id: BlurId) -> Option<Formula> {
    match id {
        BlurId::ScatterCore => match c.halation {
            Some(h) => Some(single(h.scatter_core_px)),
            None => None,
        },
        BlurId::ScatterTail => match c.halation {
            Some(h) => Some(single(h.scatter_tail_px)),
            None => None,
        },
        BlurId::Bounce(k) => match c.halation {
            Some(h) => if k < h.halation_n_bounces {
                Some(bounce_sigma(h.halation_first_sigma_px, k as int))
            } else {
                None
            },
            None => None,
        },
        BlurId::DirGaussian => match c.dir_couplers {
            Some(d) => Some(single(d.diffusion_size_px)),
            None => None,
        },
        BlurId::DirTail => match c.dir_couplers {
            Some(d) => Some(single(d.diffusion_tail_px)),
            None => None,
        },
        BlurId::Grain => match c.grain {
            Some(g) => Some(single(g.grain_blur)),
            None => None,
        },
        BlurId::Glare => match c.glare {
            Some(g) => Some(single(g.blur_px)),
            None => None,
        },
        BlurId::Unsharp => match c.unsharp {
            Some(u) => Some(single(u.sigma_px)),
            None => None,
        },
    }
}

fn width_of<A: Arithmetic>(ar: &A, c: &ChainInputs, id: BlurId) -> (r: Option<Traced<Single>>)
    ensures
        match blur_width(*c, id) {
            Some(f) => r matches Some(t) && t.holds(ar) && t.formula@ == f,
            None => r is None,
        },
{
    match id {
        BlurId::ScatterCore => match &c.halation {
            Some(h) => Some(Traced::new(ar, h.scatter_core_px)),
            None => None,
        },
        BlurId::ScatterTail => match &c.halation {
            Some(h) => Some(Traced::new(ar, h.scatter_tail_px)),
            None => None,
        },
        BlurId::Bounce(k) => match &c.halation {
            Some(h) => if k < h.halation_n_bounces {
                Some(bounce_width(ar, h.halation_first_sigma_px, k))
            } else {
                None
            },
            None => None,
        },
        BlurId::DirGaussian => match &c.dir_couplers {
            Some(d) => Some(Traced::new(ar, d.diffusion_size_px)),
            None => None,
        },
        BlurId::DirTail => match &c.dir_couplers {
            Some(d) => Some(Traced::new(ar, d.diffusion_tail_px)),
            None => None,
        },
        BlurId::Grain => match &c.grain {
            Some(g) => Some(Traced::new(ar, g.grain_blur)),
            None => None,
        },
        BlurId::Glare => match &c.glare {
            Some(g) => Some(Traced::new(ar, g.blur_px)),
            None => None,
        },
        BlurId::Unsharp => match &c.unsharp {
            Some(u) => Some(Traced::new(ar, u.sigma_px)),
            None => None,
        },
    }
}

/// The contents of a buffer.
pub enum Upload {
    /// An image that a pass fills.
    Scratch,
    Words(Vec<u32>),
    /// A blur too wide for a kernel.
    TooWide,
    /// A table of a stage that takes no part.
    Absent,
}

/// `r` is the kernel of a blur.
pub open spec fn is_kernel_upload<A: Arithmetic>(ar: &A, sigma: Formula, r: Upload) -> bool {
    exists|s: Single, radius: u32|
        {
            &&& #[trigger] is_kept_width(ar, sigma, s)
            &&& #[trigger] is_blur_radius(ar, s, radius)
            &&& if radius < RADIUS_LIMIT {
                r matches Upload::Words(w) && exists|k: Seq<Single>| #[trigger]
                    is_gpu_kernel(ar, s, radius, k) && w@ == words_of(k)
            } else {
                r is TooWide
            }
        }
}

fn kernel_upload<A: Arithmetic>(ar: &A, sigma: Traced<Single>) -> (r: Upload)
    requires
        sigma.holds(ar),
    ensures
        is_kernel_upload(ar, sigma.formula@, r),
{
    let s = kept_width(ar, sigma);
    let radius: u32 = blur_radius(ar, s);
    proof {
        assert(is_kept_width(ar, sigma.formula@, s));
        assert(is_blur_radius(ar, s, radius));
    }
    if radius < RADIUS_LIMIT {
        let k = gpu_kernel(ar, s, radius);
        assert(is_gpu_kernel(ar, s, radius, k@));
        Upload::Words(bits_of(&k))
    } else {
        Upload::TooWide
    }
}

// ── The tables of a render ───────────────────────────────────────────────

/// `r` holds doubles.
pub open spec fn is_number_upload<A: Arithmetic>(ar: &A, xs: Seq<Double>, r: Upload) -> bool {
    r matches Upload::Words(w) && are_short_words(ar, xs, w@)
}

/// `r` holds rows of measurements.
pub open spec fn is_row_upload<A: Arithmetic>(ar: &A, rows: Seq<[Double; 3]>, r: Upload) -> bool {
    r matches Upload::Words(w) && are_row_words(ar, rows, w@)
}

/// `r` holds the densities of a base.
pub open spec fn is_base_upload<A: Arithmetic>(
    ar: &A,
    rows: Seq<[Double; 3]>,
    base: Seq<Double>,
    r: Upload,
) -> bool {
    r matches Upload::Words(w) && are_base_words(ar, rows, base, w@)
}

/// `r` is the contents of a buffer of a render.
pub open spec fn is_upload<A: Arithmetic>(
    ar: &A,
    lut: TcLut,
    c: ChainInputs,
    buffer: Buffer,
    r: Upload,
) -> bool {
    match buffer {
        Buffer::TcLut => is_number_upload(ar, lut.data@, r),
        Buffer::FilmLogExposure => is_number_upload(ar, c.film_log_exposure@, r),
        Buffer::FilmCurves => is_row_upload(ar, c.film_density_curves_normalized@, r),
        Buffer::FilmChannelDensity => is_row_upload(ar, c.film_channel_density@, r),
        Buffer::FilmBaseDensity => is_base_upload(
            ar,
            c.film_channel_density@,
            c.film_base_density@,
            r,
        ),
        Buffer::PrintIlluminant => is_number_upload(ar, c.print_illuminant@, r),
        Buffer::PrintSensitivity => is_row_upload(ar, c.print_sensitivity@, r),
        Buffer::PrintLogExposure => is_number_upload(ar, c.print_log_exposure@, r),
        Buffer::PrintCurves => is_row_upload(ar, c.print_density_curves@, r),
        Buffer::PrintChannelDensity => is_row_upload(ar, c.print_channel_density@, r),
        Buffer::PrintBaseDensity => is_base_upload(
            ar,
            c.print_channel_density@,
            c.print_base_density@,
            r,
        ),
        Buffer::ViewingIlluminant => is_number_upload(ar, c.viewing_illuminant@, r),
        Buffer::CmfX => r matches Upload::Words(w) && w@ == words_of(short_response(0)),
        Buffer::CmfY => r matches Upload::Words(w) && w@ == words_of(short_response(1)),
        Buffer::CmfZ => r matches Upload::Words(w) && w@ == words_of(short_response(2)),
        Buffer::DirLogExposure => match c.dir_couplers {
            Some(d) => is_number_upload(ar, d.log_exposure@, r),
            None => r is Absent,
        },
        Buffer::DirCurves => match c.dir_couplers {
            Some(d) => is_row_upload(ar, d.density_curves_0@, r),
            None => r is Absent,
        },
        Buffer::Weights(id) => match blur_width(c, id) {
            Some(f) => is_kernel_upload(ar, f, r),
            None => r is Absent,
        },
        _ => r is Scratch,
    }
}

/// The contents of a buffer of a render.
pub fn upload<A: Arithmetic>(ar: &A, lut: &TcLut, c: &ChainInputs, buffer: Buffer) -> (r: Upload)
    ensures
        is_upload(ar, *lut, *c, buffer, r),
{
    match buffer {
        Buffer::TcLut => Upload::Words(short_words(ar, lut.data.as_slice())),
        Buffer::FilmLogExposure => Upload::Words(short_words(ar, c.film_log_exposure.as_slice())),
        Buffer::FilmCurves => Upload::Words(
            row_words(ar, c.film_density_curves_normalized.as_slice()),
        ),
        Buffer::FilmChannelDensity => Upload::Words(
            row_words(ar, c.film_channel_density.as_slice()),
        ),
        Buffer::FilmBaseDensity => {
            let (_, bd) = sanitize_spectral_inputs(
                ar,
                c.film_channel_density.as_slice(),
                c.film_base_density.as_slice(),
            );
            Upload::Words(bd)
        },
        Buffer::PrintIlluminant => Upload::Words(short_words(ar, c.print_illuminant.as_slice())),
        Buffer::PrintSensitivity => Upload::Words(row_words(ar, c.print_sensitivity.as_slice())),
        Buffer::PrintLogExposure => Upload::Words(
            short_words(ar, c.print_log_exposure.as_slice()),
        ),
        Buffer::PrintCurves => Upload::Words(row_words(ar, c.print_density_curves.as_slice())),
        Buffer::PrintChannelDensity => Upload::Words(
            row_words(ar, c.print_channel_density.as_slice()),
        ),
        Buffer::PrintBaseDensity => {
            let (_, bd) = sanitize_spectral_inputs(
                ar,
                c.print_channel_density.as_slice(),
                c.print_base_density.as_slice(),
            );
            Upload::Words(bd)
        },
        Buffer::ViewingIlluminant => Upload::Words(
            short_words(ar, c.viewing_illuminant.as_slice()),
        ),
        Buffer::CmfX => Upload::Words(bits_of(&cmf(0))),
        Buffer::CmfY => Upload::Words(bits_of(&cmf(1))),
        Buffer::CmfZ => Upload::Words(bits_of(&cmf(2))),
        Buffer::DirLogExposure => match &c.dir_couplers {
            Some(d) => Upload::Words(short_words(ar, d.log_exposure.as_slice())),
            None => Upload::Absent,
        },
        Buffer::DirCurves => match &c.dir_couplers {
            Some(d) => Upload::Words(row_words(ar, d.density_curves_0.as_slice())),
            None => Upload::Absent,
        },
        Buffer::Weights(id) => match width_of(ar, c, id) {
            Some(t) => kernel_upload(ar, t),
            None => Upload::Absent,
        },
        _ => Upload::Scratch,
    }
}

// ── Stages on their own ──────────────────────────────────────────────────

/// A pass over one image: its shader, its uniform block, and the buffers that
/// it reads in the order of their bindings. The output comes last, and is as
/// long as the image.
pub struct Dispatch {
    pub shader: Shader,
    pub uniform: Vec<u32>,
    pub inputs: Vec<Vec<u32>>,
}

/// A dispatch of RGB to film exposure, by one matrix.
pub open spec fn is_hanatos_dispatch<T: Sample, A: Arithmetic>(
    ar: &A,
    image: ImageBuf<T>,
    lut: TcLut,
    space: ColorSpace,
    illuminant: Seq<Single>,
    r: Dispatch,
) -> bool {
    exists|m: [[Double; 3]; 3], short: [[Single; 3]; 3]|
        {
            &&& #[trigger] is_adapted_xyz(ar, space, illuminant, m)
            &&& #[trigger] is_short_matrix(ar, m, short)
            &&& r.shader == Shader::Hanatos
            &&& r.uniform@ == seq![image.width, image.height, lut.size as u32, 0] + column_words(
                short@,
            )
            &&& r.inputs@.len() == 2
            &&& are_image_words(ar, image.data@, r.inputs@[0]@)
            &&& are_short_words(ar, lut.data@, r.inputs@[1]@)
        }
}

/// The dispatch of RGB to film exposure.
pub fn hanatos_dispatch<T: Sample, A: Arithmetic>(
    ar: &A,
    image: &ImageBuf<T>,
    lut: &TcLut,
    space: ColorSpace,
    illuminant: &[Single],
) -> (r: Dispatch)
    requires
        lut.size <= u32::MAX,
    ensures
        is_hanatos_dispatch(ar, *image, *lut, space, illuminant@, r),
{
    let m = build_rgb_to_adapted_xyz(ar, space, illuminant);
    let short = narrow_matrix(ar, m);
    let mut inputs: Vec<Vec<u32>> = Vec::new();
    inputs.push(image_words(ar, image.data.as_slice()));
    inputs.push(short_words(ar, lut.data.as_slice()));
    let uniform = hanatos_block(image.width, image.height, lut.size as u32, &short);
    proof {
        assert(is_adapted_xyz(ar, space, illuminant@, m));
        assert(is_short_matrix(ar, m, short));
    }
    Dispatch { shader: Shader::Hanatos, uniform, inputs }
}

/// `r` is one over a gamma; 1 where that is next to 0.
pub open spec fn is_stage_gamma<A: Arithmetic>(ar: &A, gamma: Double, r: Single) -> bool {
    exists|size: Double| #[trigger]
        is_double(ar, unary(Unary::Absolute, double(gamma)), size) && if (Double {
            // 1e-12
            bits: 0x3d71_9799_812d_ea11,
        }).below(size) {
            is_single(ar, gamma_inverse(gamma), r)
        } else {
            r.bits == SINGLE_ONE
        }
}

fn stage_gamma<A: Arithmetic>(ar: &A, gamma: Double) -> (r: Single)
    ensures
        is_stage_gamma(ar, gamma, r),
{
    let g: Traced<Double> = Traced::new(ar, gamma);
    let size = g.unary(ar, Unary::Absolute).value;
    assert(is_double(ar, unary(Unary::Absolute, double(gamma)), size));
    let least = Double { bits: 0x3d71_9799_812d_ea11 };
    if least.is_below(size) {
        gamma_inverse_of(ar, gamma)
    } else {
        Single { bits: SINGLE_ONE }
    }
}

/// A dispatch of log exposure to density.
pub open spec fn is_density_dispatch<T: Sample, A: Arithmetic>(
    ar: &A,
    log_raw: ImageBuf<T>,
    axis: Seq<Double>,
    curves: Seq<[Double; 3]>,
    gamma: Double,
    r: Dispatch,
) -> bool {
    exists|even: bool, inverse: Single|
        {
            &&& #[trigger] is_even_axis(ar, axis, even)
            &&& #[trigger] is_stage_gamma(ar, gamma, inverse)
            &&& r.shader == Shader::DensityCurve
            &&& r.uniform@ == density_words(
                log_raw.width,
                log_raw.height,
                axis.len() as u32,
                even,
                inverse,
            )
            &&& r.inputs@.len() == 3
            &&& are_image_words(ar, log_raw.data@, r.inputs@[0]@)
            &&& are_short_words(ar, axis, r.inputs@[1]@)
            &&& are_row_words(ar, curves, r.inputs@[2]@)
        }
}

/// The dispatch of log exposure to density.
pub fn density_dispatch<T: Sample, A: Arithmetic>(
    ar: &A,
    log_raw: &ImageBuf<T>,
    axis: &[Double],
    curves: &[[Double; 3]],
    gamma: Double,
) -> (r: Dispatch)
    requires
        axis@.len() <= u32::MAX,
    ensures
        is_density_dispatch(ar, *log_raw, axis@, curves@, gamma, r),
{
    let even = is_uniform(ar, axis);
    let inverse = stage_gamma(ar, gamma);
    let mut inputs: Vec<Vec<u32>> = Vec::new();
    inputs.push(image_words(ar, log_raw.data.as_slice()));
    inputs.push(short_words(ar, axis));
    inputs.push(row_words(ar, curves));
    let uniform = density_block(
        log_raw.width,
        log_raw.height,
        axis.len() as u32,
        even,
        inverse,
    );
    proof {
        assert(is_even_axis(ar, axis@, even));
        assert(is_stage_gamma(ar, gamma, inverse));
    }
    Dispatch { shader: Shader::DensityCurve, uniform, inputs }
}

/// A dispatch of film density to print exposure.
pub open spec fn is_print_dispatch<T: Sample, A: Arithmetic>(
    ar: &A,
    density: ImageBuf<T>,
    channel_density: Seq<[Double; 3]>,
    base_density: Seq<Double>,
    illuminant: Seq<Double>,
    sensitivity: Seq<[Double; 3]>,
    factor: Double,
    r: Dispatch,
) -> bool {
    exists|f: Single|
        {
            &&& #[trigger] is_single(ar, narrow(double(factor)), f)
            &&& r.shader == Shader::PrintSpectral
            &&& r.uniform@ == seq![
                density.width,
                density.height,
                channel_density.len() as u32,
                f.bits,
            ]
            &&& r.inputs@.len() == 5
            &&& are_image_words(ar, density.data@, r.inputs@[0]@)
            &&& are_row_words(ar, channel_density, r.inputs@[1]@)
            &&& are_base_words(ar, channel_density, base_density, r.inputs@[2]@)
            &&& are_short_words(ar, illuminant, r.inputs@[3]@)
            &&& are_row_words(ar, sensitivity, r.inputs@[4]@)
        }
}

/// The dispatch of film density to print exposure.
pub fn print_dispatch<T: Sample, A: Arithmetic>(
    ar: &A,
    density: &ImageBuf<T>,
    channel_density: &[[Double; 3]],
    base_density: &[Double],
    illuminant: &[Double],
    sensitivity: &[[Double; 3]],
    factor: Double,
) -> (r: Dispatch)
    requires
        channel_density@.len() <= u32::MAX,
    ensures
        is_print_dispatch(
            ar,
            *density,
            channel_density@,
            base_density@,
            illuminant@,
            sensitivity@,
            factor,
            r,
        ),
{
    let f = short(ar, factor);
    assert(is_single(ar, narrow(double(factor)), f));
    let (cd, bd) = sanitize_spectral_inputs(ar, channel_density, base_density);
    let mut inputs: Vec<Vec<u32>> = Vec::new();
    inputs.push(image_words(ar, density.data.as_slice()));
    inputs.push(cd);
    inputs.push(bd);
    inputs.push(short_words(ar, illuminant));
    inputs.push(row_words(ar, sensitivity));
    let uniform = print_block(density.width, density.height, channel_density.len() as u32, f);
    Dispatch { shader: Shader::PrintSpectral, uniform, inputs }
}

/// A dispatch of density to RGB, by one matrix.
pub open spec fn is_scan_dispatch<T: Sample, A: Arithmetic>(
    ar: &A,
    density: ImageBuf<T>,
    channel_density: Seq<[Double; 3]>,
    base_density: Seq<Double>,
    illuminant: Seq<Double>,
    normalization: Double,
    cat: [[Double; 3]; 3],
    xyz_to_rgb: [[Double; 3]; 3],
    r: Dispatch,
) -> bool {
    exists|f: Single, m: [[Double; 3]; 3], short: [[Single; 3]; 3]|
        {
            &&& #[trigger] is_single(ar, narrow(double(normalization)), f)
            &&& #[trigger] is_product(ar, xyz_to_rgb, cat, m)
            &&& #[trigger] is_short_matrix(ar, m, short)
            &&& r.shader == Shader::ScanSpectral
            &&& r.uniform@ == seq![
                density.width,
                density.height,
                channel_density.len() as u32,
                f.bits,
            ] + column_words(short@)
            &&& r.inputs@.len() == 7
            &&& are_image_words(ar, density.data@, r.inputs@[0]@)
            &&& are_row_words(ar, channel_density, r.inputs@[1]@)
            &&& are_base_words(ar, channel_density, base_density, r.inputs@[2]@)
            &&& are_short_words(ar, illuminant, r.inputs@[3]@)
            &&& r.inputs@[4]@ == words_of(short_response(0))
            &&& r.inputs@[5]@ == words_of(short_response(1))
            &&& r.inputs@[6]@ == words_of(short_response(2))
        }
}

/// The dispatch of density to RGB.
pub fn scan_dispatch<T: Sample, A: Arithmetic>(
    ar: &A,
    density: &ImageBuf<T>,
    channel_density: &[[Double; 3]],
    base_density: &[Double],
    illuminant: &[Double],
    normalization: Double,
    cat: &[[Double; 3]; 3],
    xyz_to_rgb: &[[Double; 3]; 3],
) -> (r: Dispatch)
    requires
        channel_density@.len() <= u32::MAX,
    ensures
        is_scan_dispatch(
            ar,
            *density,
            channel_density@,
            base_density@,
            illuminant@,
            normalization,
            *cat,
            *xyz_to_rgb,
            r,
        ),
{
    let f = short(ar, normalization);
    let m = mat3_mul3(ar, xyz_to_rgb, cat);
    let short = narrow_matrix(ar, m);
    proof {
        assert(is_single(ar, narrow(double(normalization)), f));
        assert(is_product(ar, *xyz_to_rgb, *cat, m));
        assert(is_short_matrix(ar, m, short));
    }
    let (cd, bd) = sanitize_spectral_inputs(ar, channel_density, base_density);
    let mut inputs: Vec<Vec<u32>> = Vec::new();
    inputs.push(image_words(ar, density.data.as_slice()));
    inputs.push(cd);
    inputs.push(bd);
    inputs.push(short_words(ar, illuminant));
    inputs.push(bits_of(&cmf(0)));
    inputs.push(bits_of(&cmf(1)));
    inputs.push(bits_of(&cmf(2)));
    let uniform = scan_block(
        density.width,
        density.height,
        channel_density.len() as u32,
        f,
        &short,
    );
    Dispatch { shader: Shader::ScanSpectral, uniform, inputs }
}

} // verus!
