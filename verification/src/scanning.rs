//! Scanning: a density image back to RGB.

use vstd::prelude::*;

use crate::arith::{at_most, below, constant, double, evaluates, formulas, is_double};
use crate::arith::{minus, over, plus, single, sum_from, times, widen};
use crate::arith::{Arithmetic, Formula, Sample, Traced};
use crate::backend::{addressable, ComputeBackend};
use crate::bits::{Double, Single};
use crate::colorspace::{chromatic_adaptation_matrix_f64, colorspace_from_xyz_f64};
use crate::colorspace::{colorspace_to_xyz_f64, colorspace_white_xyz_f64, decoded, from_xyz_bits};
use crate::colorspace::{is_adaptation, is_product, is_white, mat3_mul3, srgb_encode, srgb_encoded};
use crate::colorspace::{to_xyz_bits, white_chromaticity};
use crate::cpu_backend::{are_log_xyz, rgb_of, rgb_value, scan_log_xyz_cpu, transform, transformed};
use crate::density_curves::{channel_span, column, scanner_low, scanner_lut_bounds, ONE};
use crate::diffusion::sharpened;
use crate::filming::{are_curves, same_image};
use crate::glare::{add_glare_with_amount, compute_random_glare_amount, draws_counted, image_fits};
use crate::glare::{is_glare_amount, is_glared, GLARE_SEED};
use crate::image::ImageBuf;
use crate::interp::num;
use crate::params::{GlareParams, RuntimeParams};
use crate::pchip::{prepare_pchip_3d, prepared};
use crate::pchip3d::PreparedPchip3d;
use crate::printing::{are_channel_densities, buildable};
use crate::profile::Profile;
use crate::spectral::{cmf, cmf_f64, color_space_named, color_space_or, illuminant_named, response};
use crate::spectral::{output_color_space, select_viewing_illuminant, short_response};
use crate::spectral::{ColorSpace, Illuminant};
use crate::tables::{are_scales, build_lut_grid, is_grid, is_table_value, scales, table_value};

verus! {

// ── The light that is viewed under ───────────────────────────────────────

/// The light of an illuminant in one response, over `n` wavelengths.
pub open spec fn light_sum(power: Seq<Double>, response: Seq<Double>, n: int) -> Formula {
    sum_from(constant(0), |i: int| times(double(power[i]), double(response[i])), n)
}

/// The same in a response of single precision.
pub open spec fn short_light_sum(power: Seq<Double>, response: Seq<Single>, n: int) -> Formula {
    sum_from(constant(0), |i: int| times(double(power[i]), widen(single(response[i]))), n)
}

fn light_of<A: Arithmetic>(ar: &A, power: &Vec<Double>, response: &Vec<Double>, n: usize) -> (r:
    Traced<Double>)
    requires
        n <= power@.len(),
        n <= response@.len(),
    ensures
        r.holds(ar),
        r.formula@ == light_sum(power@, response@, n as int),
{
    let mut sum: Traced<Double> = Traced::constant(ar, 0);
    let mut i: usize = 0;
    while i < n
        invariant
            i <= n,
            n <= power@.len(),
            n <= response@.len(),
            sum.holds(ar),
            sum.formula@ == light_sum(power@, response@, i as int),
        decreases n - i,
    {
        let a: Traced<Double> = Traced::new(ar, power[i]);
        sum = sum.plus(ar, a.times(ar, Traced::new(ar, response[i])));
        i += 1;
    }
    sum
}

pub fn short_light_of<A: Arithmetic>(
    ar: &A,
    power: &Vec<Double>,
    response: &Vec<Single>,
    n: usize,
) -> (r: Traced<Double>)
    requires
        n <= power@.len(),
        n <= response@.len(),
    ensures
        r.holds(ar),
        r.formula@ == short_light_sum(power@, response@, n as int),
{
    let mut sum: Traced<Double> = Traced::constant(ar, 0);
    let mut i: usize = 0;
    while i < n
        invariant
            i <= n,
            n <= power@.len(),
            n <= response@.len(),
            sum.holds(ar),
            sum.formula@ == short_light_sum(power@, response@, i as int),
        decreases n - i,
    {
        let a: Traced<Double> = Traced::new(ar, power[i]);
        let b: Traced<Single> = Traced::new(ar, response[i]);
        sum = sum.plus(ar, a.times(ar, b.widen(ar)));
        i += 1;
    }
    sum
}

/// One coordinate of the colour of an illuminant.
pub open spec fn light_colour(power: Seq<Double>, n: int, norm: Double, c: int) -> Formula {
    over(light_sum(power, response(c), n), double(norm))
}

/// Chromaticity of an illuminant: coordinate `c` over the sum.
pub open spec fn light_share(power: Seq<Double>, n: int, norm: Double, c: int) -> Formula {
    over(
        light_colour(power, n, norm, c),
        plus(
            plus(light_colour(power, n, norm, 0), light_colour(power, n, norm, 1)),
            light_colour(power, n, norm, 2),
        ),
    )
}

/// `r` is the white of an illuminant, with Y at 1.
pub open spec fn is_viewing_white<A: Arithmetic>(
    ar: &A,
    power: Seq<Double>,
    n: int,
    norm: Double,
    r: [Double; 3],
) -> bool {
    let x = light_share(power, n, norm, 0);
    let y = light_share(power, n, norm, 1);
    &&& is_double(ar, over(x, y), r@[0])
    &&& r@[1].bits == ONE
    &&& is_double(ar, over(minus(minus(constant(ONE), x), y), y), r@[2])
}

fn viewing_white<A: Arithmetic>(ar: &A, power: &Vec<Double>, n: usize, norm: Double) -> (r: [Double;
    3])
    requires
        n <= power@.len(),
        n <= 81,
    ensures
        is_viewing_white(ar, power@, n as int, norm, r),
{
    let scale: Traced<Double> = Traced::new(ar, norm);
    let a = light_of(ar, power, &cmf_f64(0), n).over(ar, scale);
    let b = light_of(ar, power, &cmf_f64(1), n).over(ar, scale);
    let c = light_of(ar, power, &cmf_f64(2), n).over(ar, scale);
    let sum = a.plus(ar, b).plus(ar, c);
    let x = a.over(ar, sum);
    let y = b.over(ar, sum);
    let one: Traced<Double> = Traced::constant(ar, ONE);
    let last = one.minus(ar, x).minus(ar, y).over(ar, y);
    [x.over(ar, y).value, Double { bits: ONE }, last.value]
}

/// The wavelengths that a profile covers.
pub open spec fn covered(profile: Profile) -> int {
    if profile.data.channel_density@.len() < 81 {
        profile.data.channel_density@.len() as int
    } else {
        81
    }
}

/// What turns densities into colours.
pub struct ScanInputs {
    pub channel_density: Vec<[Double; 3]>,
    pub base_density: Vec<Double>,
    pub illuminant: Vec<Double>,
    pub normalization: Double,
    pub cat: [[Double; 3]; 3],
    pub xyz_to_rgb: [[Double; 3]; 3],
}

/// The illuminant that a profile is viewed under.
pub open spec fn viewing(profile: Profile) -> Illuminant {
    illuminant_named(profile.info.viewing_illuminant@, Illuminant::D50)
}

/// `cat` adapts colours from the white of the viewing light to that of a
/// colour space.
pub open spec fn adapts<A: Arithmetic>(
    ar: &A,
    profile: Profile,
    space: ColorSpace,
    norm: Double,
    src: [Double; 3],
    dst: [Double; 3],
    cat: [[Double; 3]; 3],
) -> bool {
    &&& is_viewing_white(ar, viewing(profile).powers(), covered(profile), norm, src)
    &&& is_white(ar, white_chromaticity(space).0, white_chromaticity(space).1, dst)
    &&& is_adaptation(ar, src, dst, cat)
}

impl ScanInputs {
    /// The inputs are those of a profile and an output colour space.
    pub open spec fn is_for<A: Arithmetic>(
        &self,
        ar: &A,
        profile: Profile,
        space_name: Seq<char>,
    ) -> bool {
        let power = viewing(profile).powers();
        let n = covered(profile);
        &&& are_channel_densities(profile, self.channel_density@)
        &&& self.base_density@ == profile.data.base_density@
        &&& self.illuminant@ == power
        &&& is_double(ar, light_sum(power, response(1), n), self.normalization)
        &&& decoded(from_xyz_bits(color_space_named(space_name, ColorSpace::Srgb)), self.xyz_to_rgb)
        &&& exists|src: [Double; 3], dst: [Double; 3]| #[trigger]
            adapts(
                ar,
                profile,
                color_space_named(space_name, ColorSpace::ProPhoto),
                self.normalization,
                src,
                dst,
                self.cat,
            )
    }

    /// The inputs for a profile and an output colour space.
    pub fn new<A: Arithmetic>(ar: &A, profile: &Profile, space_name: &str) -> (r: ScanInputs)
        ensures
            r.is_for(ar, *profile, space_name@),
            r.illuminant@.len() == 81,
    {
        let power = select_viewing_illuminant(profile.info.viewing_illuminant.as_str()).power_f64();
        let channel_density = profile.channel_density_f64();
        let n: usize = if channel_density.len() < 81 {
            channel_density.len()
        } else {
            81
        };
        let y = cmf_f64(1);
        let norm = light_of(ar, &power, &y, n).value;
        let src = viewing_white(ar, &power, n, norm);
        let dst = colorspace_white_xyz_f64(ar, color_space_or(space_name, ColorSpace::ProPhoto));
        let cat = chromatic_adaptation_matrix_f64(ar, src, dst);
        let xyz_to_rgb = colorspace_from_xyz_f64(output_color_space(space_name));
        let r = ScanInputs {
            channel_density,
            base_density: vstd::slice::slice_to_vec(profile.data.base_density.as_slice()),
            illuminant: power,
            normalization: norm,
            cat,
            xyz_to_rgb,
        };
        proof {
            let white = color_space_named(space_name@, ColorSpace::ProPhoto);
            assert(adapts(ar, *profile, white, r.normalization, src, dst, r.cat));
            assert(exists|a: [Double; 3], b: [Double; 3]| #[trigger]
                adapts(ar, *profile, white, r.normalization, a, b, r.cat));
        }
        r
    }
}

// ── Density to RGB ───────────────────────────────────────────────────────

/// `r` is what a backend makes of a density image.
pub open spec fn scans<T: Sample, B: ComputeBackend<T>>(
    backend: &B,
    density: ImageBuf<T>,
    inputs: ScanInputs,
    r: ImageBuf<T>,
) -> bool {
    exists|cd: &[[Double; 3]], bd: &[Double], il: &[Double]|
        {
            &&& cd@ == inputs.channel_density@
            &&& bd@ == inputs.base_density@
            &&& il@ == inputs.illuminant@
            &&& #[trigger] call_ensures(
                B::scan_spectral,
                (
                    backend,
                    &density,
                    cd,
                    bd,
                    il,
                    inputs.normalization,
                    &inputs.cat,
                    &inputs.xyz_to_rgb,
                ),
                r,
            )
        }
}

/// Pixel `k` of `r` is the colour that a table of logarithms gives.
pub open spec fn is_table_colour<T: Sample, A: Arithmetic>(
    ar: &A,
    p: PreparedPchip3d,
    low: [Double; 3],
    inv: [Double; 3],
    inputs: ScanInputs,
    density: ImageBuf<T>,
    r: ImageBuf<T>,
    k: int,
) -> bool {
    exists|v: [Double; 3]|
        {
            &&& #[trigger] is_table_value(
                ar,
                p,
                low,
                inv,
                density.data@[3 * k],
                density.data@[3 * k + 1],
                density.data@[3 * k + 2],
                v,
            )
            &&& colour_holds(ar, inputs.cat, inputs.xyz_to_rgb, v, r, k)
        }
}

/// Pixel `k` of an image is the colour of three logarithms.
pub open spec fn colour_holds<T: Sample, A: Arithmetic>(
    ar: &A,
    cat: [[Double; 3]; 3],
    m: [[Double; 3]; 3],
    log: [Double; 3],
    r: ImageBuf<T>,
    k: int,
) -> bool {
    let v = crate::colorspace::leaves3(log);
    &&& evaluates(ar, T::stored(rgb_value(cat, m, v, 0)), r.data@[3 * k].number())
    &&& evaluates(ar, T::stored(rgb_value(cat, m, v, 1)), r.data@[3 * k + 1].number())
    &&& evaluates(ar, T::stored(rgb_value(cat, m, v, 2)), r.data@[3 * k + 2].number())
}

/// `r` is the colours of a density image by a table of logarithms.
pub open spec fn is_table_scan<T: Sample, A: Arithmetic>(
    ar: &A,
    density: ImageBuf<T>,
    profile: Profile,
    params: RuntimeParams,
    inputs: ScanInputs,
    r: ImageBuf<T>,
) -> bool {
    let steps = params.settings.lut_resolution as nat;
    exists|
        curves: Seq<[Double; 3]>,
        low: [Double; 3],
        high: [Double; 3],
        grid: ImageBuf<T>,
        p: PreparedPchip3d,
        inv: [Double; 3],
    |
        {
            &&& #[trigger] are_curves(profile, curves)
            &&& forall|c: int|
                0 <= c < 3 ==> scanner_low(
                    params.io.scan_film,
                    params.film_render.grain.density_min@[c],
                    column(curves, c),
                    #[trigger] low@[c],
                ) && channel_span(ar, column(curves, c), low@[c], high@[c])
            &&& #[trigger] is_grid(ar, steps, low, high, grid)
            &&& are_log_xyz(
                ar,
                grid,
                inputs.channel_density@,
                inputs.base_density@,
                inputs.illuminant@,
                inputs.normalization,
                p.lut@,
            )
            &&& p.size == steps
            &&& prepared(ar, p)
            &&& are_scales(ar, low, high, p.size as int, inv)
            &&& #[trigger] are_table_colours(ar, p, low, inv, inputs, density, r)
        }
}

/// Every pixel of `r` is the colour that a table of logarithms gives.
pub open spec fn are_table_colours<T: Sample, A: Arithmetic>(
    ar: &A,
    p: PreparedPchip3d,
    low: [Double; 3],
    inv: [Double; 3],
    inputs: ScanInputs,
    density: ImageBuf<T>,
    r: ImageBuf<T>,
) -> bool {
    &&& r.width == density.width
    &&& r.height == density.height
    &&& r.valid()
    &&& forall|k: int|
        0 <= k < density.data@.len() / 3 ==> #[trigger] is_table_colour(
            ar,
            p,
            low,
            inv,
            inputs,
            density,
            r,
            k,
        )
}

fn colour_of<T: Sample, A: Arithmetic>(ar: &A, inputs: &ScanInputs, log: [Double; 3]) -> (r: [T; 3])
    ensures
        forall|j: int|
            0 <= j < 3 ==> evaluates(
                ar,
                T::stored(
                    rgb_value(inputs.cat, inputs.xyz_to_rgb, crate::colorspace::leaves3(log), j),
                ),
                (#[trigger] r@[j]).number(),
            ),
{
    let v: [Traced<Double>; 3] = [
        Traced::new(ar, log[0]),
        Traced::new(ar, log[1]),
        Traced::new(ar, log[2]),
    ];
    assert(formulas(v@) =~= crate::colorspace::leaves3(log));
    let rgb = rgb_of(ar, &inputs.cat, &inputs.xyz_to_rgb, v);
    proof {
        assert(rgb@[0].holds(ar) && rgb@[1].holds(ar) && rgb@[2].holds(ar));
        let f = formulas(rgb@);
        assert(f[0] == rgb@[0].formula@ && f[1] == rgb@[1].formula@ && f[2] == rgb@[2].formula@);
    }
    [T::store(ar, rgb[0]).value, T::store(ar, rgb[1]).value, T::store(ar, rgb[2]).value]
}

fn table_colours<T: Sample, A: Arithmetic>(
    ar: &A,
    p: &PreparedPchip3d,
    low: [Double; 3],
    inv: [Double; 3],
    inputs: &ScanInputs,
    density: &ImageBuf<T>,
) -> (r: ImageBuf<T>)
    requires
        density.valid(),
        p.valid(),
        p.size >= 2,
    ensures
        are_table_colours(ar, *p, low, inv, *inputs, *density, r),
{
    let total: usize = density.data.len();
    let n: usize = total / 3;
    let mut pixels: Vec<[T; 3]> = Vec::new();
    let ghost mut values: Seq<[Double; 3]> = Seq::empty();
    let mut k: usize = 0;
    while k < n
        invariant
            k <= n,
            3 * n == total,
            total == density.data@.len(),
            p.valid(),
            p.size >= 2,
            pixels@.len() == k,
            values.len() == k,
            forall|j: int|
                0 <= j < k ==> is_table_value(
                    ar,
                    *p,
                    low,
                    inv,
                    density.data@[3 * j],
                    density.data@[3 * j + 1],
                    density.data@[3 * j + 2],
                    #[trigger] values[j],
                ),
            forall|j: int, c: int|
                0 <= j < k && 0 <= c < 3 ==> evaluates(
                    ar,
                    T::stored(
                        rgb_value(
                            inputs.cat,
                            inputs.xyz_to_rgb,
                            crate::colorspace::leaves3(values[j]),
                            c,
                        ),
                    ),
                    (#[trigger] pixels@[j]@[c]).number(),
                ),
        decreases n - k,
    {
        let v = table_value(
            ar,
            p,
            low,
            inv,
            density.data[3 * k],
            density.data[3 * k + 1],
            density.data[3 * k + 2],
        );
        pixels.push(colour_of(ar, inputs, v));
        proof {
            values = values.push(v);
        }
        k += 1;
    }
    let r = ImageBuf::from_pixels(density.width, density.height, pixels.as_slice());
    proof {
        assert forall|j: int| 0 <= j < density.data@.len() / 3 implies #[trigger] is_table_colour(
            ar,
            *p,
            low,
            inv,
            *inputs,
            *density,
            r,
            j,
        ) by {
            assert(is_table_value(
                ar,
                *p,
                low,
                inv,
                density.data@[3 * j],
                density.data@[3 * j + 1],
                density.data@[3 * j + 2],
                values[j],
            ));
            assert(pixels@[j]@[0] == r.data@[3 * j]);
            assert(pixels@[j]@[1] == r.data@[3 * j + 1]);
            assert(pixels@[j]@[2] == r.data@[3 * j + 2]);
            assert(colour_holds(ar, inputs.cat, inputs.xyz_to_rgb, values[j], r, j));
        }
    }
    r
}

fn scan_spectral_via_lut<T: Sample, A: Arithmetic>(
    ar: &A,
    density: &ImageBuf<T>,
    profile: &Profile,
    params: &RuntimeParams,
    inputs: &ScanInputs,
) -> (r: ImageBuf<T>)
    requires
        density.valid(),
        buildable(params.settings.lut_resolution),
    ensures
        is_table_scan(ar, *density, *profile, *params, *inputs, r),
        r.width == density.width,
        r.height == density.height,
        r.valid(),
{
    let curves = profile.density_curves_f64();
    let (low, high) = scanner_lut_bounds(
        ar,
        curves.as_slice(),
        params.io.scan_film,
        params.film_render.grain.density_min,
    );
    let steps: usize = params.settings.lut_resolution as usize;
    let grid: ImageBuf<T> = build_lut_grid(ar, steps, low, high);
    let lut = scan_log_xyz_cpu(
        ar,
        &grid,
        inputs.channel_density.as_slice(),
        inputs.base_density.as_slice(),
        inputs.illuminant.as_slice(),
        inputs.normalization,
    );
    let p = prepare_pchip_3d(ar, lut, steps);
    let inv = scales(ar, low, high, steps);
    let r = table_colours(ar, &p, low, inv, inputs, density);
    proof {
        assert(are_curves(*profile, curves@));
        assert(is_grid(ar, steps as nat, low, high, grid));
        assert(are_table_colours(ar, p, low, inv, *inputs, *density, r));
    }
    r
}

// ── White and black ──────────────────────────────────────────────────────

/// Infinity.
pub open spec fn infinity<T: Sample>() -> T {
    T::literal_value(0x7f80_0000, 0x7ff0_0000_0000_0000)
}

/// Minus infinity.
pub open spec fn minus_infinity<T: Sample>() -> T {
    T::literal_value(0xff80_0000, 0xfff0_0000_0000_0000)
}

/// The smaller number; the first of two equal ones.
pub open spec fn lesser<T: Sample>(a: T, b: T) -> T {
    if below(b, a) {
        b
    } else {
        a
    }
}

/// The greater number; the first of two equal ones.
pub open spec fn greater<T: Sample>(a: T, b: T) -> T {
    if below(a, b) {
        b
    } else {
        a
    }
}

/// The smallest number of channel `c` among the first `n` pixels.
pub open spec fn channel_low<T: Sample>(data: Seq<T>, c: int, n: int) -> T
    decreases n,
{
    if n <= 0 {
        infinity()
    } else {
        lesser(channel_low(data, c, n - 1), data[3 * (n - 1) + c])
    }
}

/// The greatest number of channel `c` among the first `n` pixels.
pub open spec fn channel_high<T: Sample>(data: Seq<T>, c: int, n: int) -> T
    decreases n,
{
    if n <= 0 {
        minus_infinity()
    } else {
        greater(channel_high(data, c, n - 1), data[3 * (n - 1) + c])
    }
}

/// The smallest number of an image.
pub open spec fn darkest<T: Sample>(data: Seq<T>) -> T {
    let n = data.len() as int / 3;
    lesser(
        lesser(channel_low(data, 0, n), channel_low(data, 1, n)),
        channel_low(data, 2, n),
    )
}

/// The greatest number of an image.
pub open spec fn brightest<T: Sample>(data: Seq<T>) -> T {
    let n = data.len() as int / 3;
    greater(
        greater(channel_high(data, 0, n), channel_high(data, 1, n)),
        channel_high(data, 2, n),
    )
}

/// The infinities are numbers.
pub open spec fn ordered_infinities<T: Sample>() -> bool {
    !infinity::<T>().is_no_number() && !minus_infinity::<T>().is_no_number()
}

/// In both precisions the infinities are numbers.
pub proof fn lemma_ordered_infinities()
    ensures
        ordered_infinities::<Single>(),
        ordered_infinities::<Double>(),
{
}

proof fn lemma_channel_numbers<T: Sample>(data: Seq<T>, c: int, n: int)
    requires
        ordered_infinities::<T>(),
    ensures
        !channel_low(data, c, n).is_no_number(),
        !channel_high(data, c, n).is_no_number(),
    decreases n,
{
    if n > 0 {
        lemma_channel_numbers(data, c, n - 1);
    }
}

proof fn lemma_channel_extent<T: Sample>(data: Seq<T>, c: int, n: int, i: int)
    requires
        ordered_infinities::<T>(),
        0 <= i < n,
    ensures
        !below(data[3 * i + c], channel_low(data, c, n)),
        !below(channel_high(data, c, n), data[3 * i + c]),
    decreases n,
{
    lemma_channel_numbers(data, c, n - 1);
    if i < n - 1 {
        lemma_channel_extent(data, c, n - 1, i);
    }
}

/// No number of an image is below its darkest or above its brightest.
pub proof fn lemma_extent<T: Sample>(data: Seq<T>, i: int)
    requires
        ordered_infinities::<T>(),
        data.len() % 3 == 0,
        0 <= i < data.len(),
    ensures
        !below(data[i], darkest(data)),
        !below(brightest(data), data[i]),
{
    let n = data.len() as int / 3;
    lemma_channel_numbers(data, 0, n);
    lemma_channel_numbers(data, 1, n);
    lemma_channel_numbers(data, 2, n);
    lemma_channel_extent(data, i % 3, n, i / 3);
    assert(3 * (i / 3) + i % 3 == i);
    assert(i % 3 == 0 || i % 3 == 1 || i % 3 == 2);
}

fn lesser_of<T: Sample>(a: T, b: T) -> (r: T)
    ensures
        r == lesser(a, b),
{
    if b.lt(a) {
        b
    } else {
        a
    }
}

fn greater_of<T: Sample>(a: T, b: T) -> (r: T)
    ensures
        r == greater(a, b),
{
    if a.lt(b) {
        b
    } else {
        a
    }
}

fn channel_extent<T: Sample>(data: &Vec<T>, c: usize) -> (r: (T, T))
    requires
        c < 3,
        data@.len() % 3 == 0,
    ensures
        r.0 == channel_low(data@, c as int, data@.len() as int / 3),
        r.1 == channel_high(data@, c as int, data@.len() as int / 3),
{
    let total: usize = data.len();
    let n: usize = total / 3;
    let mut low: T = T::literal(0x7f80_0000, 0x7ff0_0000_0000_0000);
    let mut high: T = T::literal(0xff80_0000, 0xfff0_0000_0000_0000);
    let mut k: usize = 0;
    while k < n
        invariant
            k <= n,
            c < 3,
            3 * n == total,
            total == data@.len(),
            low == channel_low(data@, c as int, k as int),
            high == channel_high(data@, c as int, k as int),
        decreases n - k,
    {
        let x = data[3 * k + c];
        low = lesser_of(low, x);
        high = greater_of(high, x);
        k += 1;
    }
    (low, high)
}

/// The level that a correction aims at.
pub open spec fn is_target<T: Sample, A: Arithmetic>(
    ar: &A,
    corrected: bool,
    level: Single,
    found: T,
    r: T,
) -> bool {
    if corrected {
        evaluates(ar, T::extended(single(level)), r.number())
    } else {
        r == found
    }
}

/// A number after the correction.
pub open spec fn leveled<T: Sample>(x: T, low: T, range: T, bottom: T, top: T) -> Formula {
    plus(
        times(minus(num(x), num(low)), over(minus(num(top), num(bottom)), num(range))),
        num(bottom),
    )
}

/// The smallest range that is corrected, 1e-6.
pub open spec fn smallest_range<T: Sample>() -> T {
    T::literal_value(0x3586_37bd, 0x3eb0_c6f7_a0b5_ed8d)
}

/// `r` is an image whose numbers span from black to white.
pub open spec fn is_leveled<T: Sample, A: Arithmetic>(
    ar: &A,
    img: ImageBuf<T>,
    white_level: Single,
    black_level: Single,
    white: bool,
    black: bool,
    r: ImageBuf<T>,
) -> bool {
    let low = darkest(img.data@);
    let high = brightest(img.data@);
    exists|bottom: T, top: T, range: T|
        {
            &&& #[trigger] is_target(ar, black, black_level, low, bottom)
            &&& #[trigger] is_target(ar, white, white_level, high, top)
            &&& evaluates(ar, minus(num(high), num(low)), range.number())
            &&& #[trigger] is_rescaled(ar, img, low, range, bottom, top, r)
        }
}

/// `r` is an image whose numbers are rescaled, where their range is not too
/// small.
pub open spec fn is_rescaled<T: Sample, A: Arithmetic>(
    ar: &A,
    img: ImageBuf<T>,
    low: T,
    range: T,
    bottom: T,
    top: T,
    r: ImageBuf<T>,
) -> bool {
    &&& r.width == img.width
    &&& r.height == img.height
    &&& r.data@.len() == img.data@.len()
    &&& if below(smallest_range(), range) {
        forall|i: int|
            0 <= i < img.data@.len() ==> evaluates(
                ar,
                leveled(img.data@[i], low, range, bottom, top),
                (#[trigger] r.data@[i]).number(),
            )
    } else {
        r.data@ == img.data@
    }
}

fn target<T: Sample, A: Arithmetic>(ar: &A, corrected: bool, level: Single, found: T) -> (r: T)
    ensures
        is_target(ar, corrected, level, found, r),
{
    if corrected {
        let v: Traced<Single> = Traced::new(ar, level);
        T::extend(ar, v).value
    } else {
        found
    }
}

/// Stretches the numbers of an image to the levels that are corrected.
pub fn apply_white_black_correction<T: Sample, A: Arithmetic>(
    ar: &A,
    rgb: ImageBuf<T>,
    white_level: Single,
    black_level: Single,
    white_corr: bool,
    black_corr: bool,
) -> (r: ImageBuf<T>)
    requires
        rgb.valid(),
    ensures
        is_leveled(ar, rgb, white_level, black_level, white_corr, black_corr, r),
        r.valid(),
        r.width == rgb.width,
        r.height == rgb.height,
{
    let e0 = channel_extent(&rgb.data, 0);
    let e1 = channel_extent(&rgb.data, 1);
    let e2 = channel_extent(&rgb.data, 2);
    let low = lesser_of(lesser_of(e0.0, e1.0), e2.0);
    let high = greater_of(greater_of(e0.1, e1.1), e2.1);
    let bottom = target(ar, black_corr, black_level, low);
    let top = target(ar, white_corr, white_level, high);
    let lo: Traced<T> = Traced::new(ar, low);
    let hi: Traced<T> = Traced::new(ar, high);
    let range = hi.minus(ar, lo).value;
    let ghost before = rgb;
    proof {
        assert(is_target(ar, black_corr, black_level, darkest(before.data@), bottom));
        assert(is_target(ar, white_corr, white_level, brightest(before.data@), top));
    }
    let least: T = T::literal(0x3586_37bd, 0x3eb0_c6f7_a0b5_ed8d);
    if !least.lt(range) {
        assert(is_rescaled(ar, before, low, range, bottom, top, rgb));
        return rgb;
    }
    let mut data: Vec<T> = Vec::new();
    let mut i: usize = 0;
    while i < rgb.data.len()
        invariant
            i <= rgb.data@.len(),
            data@.len() == i,
            forall|k: int|
                0 <= k < i ==> evaluates(
                    ar,
                    leveled(rgb.data@[k], low, range, bottom, top),
                    (#[trigger] data@[k]).number(),
                ),
        decreases rgb.data.len() - i,
    {
        let x: Traced<T> = Traced::new(ar, rgb.data[i]);
        let l: Traced<T> = Traced::new(ar, low);
        let b: Traced<T> = Traced::new(ar, bottom);
        let t: Traced<T> = Traced::new(ar, top);
        let scale = t.minus(ar, b).over(ar, Traced::new(ar, range));
        data.push(x.minus(ar, l).times(ar, scale).plus(ar, b).value);
        i += 1;
    }
    let r = ImageBuf { width: rgb.width, height: rgb.height, data };
    assert(is_rescaled(ar, before, low, range, bottom, top, r));
    r
}

// ── Glare, blur and sharpening ───────────────────────────────────────────

/// The glare of a scan: that of the film where the film is scanned.
pub open spec fn glare_of(params: RuntimeParams) -> GlareParams {
    if params.io.scan_film {
        params.film_render.glare
    } else {
        params.print_render.glare
    }
}

/// The colour of the glare.
pub open spec fn is_glare_colour<T: Sample, A: Arithmetic>(
    ar: &A,
    profile: Profile,
    inputs: ScanInputs,
    r: [T; 3],
) -> bool {
    let n = covered(profile);
    let light = Seq::new(
        3,
        |c: int|
            over(
                short_light_sum(inputs.illuminant@, short_response(c), n),
                double(inputs.normalization),
            ),
    );
    let adapted = Seq::new(3, |i: int| transformed(inputs.cat, light, i));
    forall|j: int|
        0 <= j < 3 ==> evaluates(
            ar,
            T::stored(transformed(inputs.xyz_to_rgb, adapted, j)),
            (#[trigger] r@[j]).number(),
        )
}

fn glare_colour<T: Sample, A: Arithmetic>(ar: &A, profile: &Profile, inputs: &ScanInputs) -> (r: [T;
    3])
    requires
        inputs.illuminant@.len() == 81,
        inputs.channel_density@.len() == profile.data.channel_density@.len(),
    ensures
        is_glare_colour(ar, *profile, *inputs, r),
{
    let n: usize = if inputs.channel_density.len() < 81 {
        inputs.channel_density.len()
    } else {
        81
    };
    let norm: Traced<Double> = Traced::new(ar, inputs.normalization);
    let light = [
        short_light_of(ar, &inputs.illuminant, &cmf(0), n).over(ar, norm),
        short_light_of(ar, &inputs.illuminant, &cmf(1), n).over(ar, norm),
        short_light_of(ar, &inputs.illuminant, &cmf(2), n).over(ar, norm),
    ];
    let rgb = transform(ar, &inputs.xyz_to_rgb, transform(ar, &inputs.cat, light));
    proof {
        assert(formulas(light@) =~= Seq::new(
            3,
            |c: int|
                over(
                    short_light_sum(inputs.illuminant@, short_response(c), n as int),
                    double(inputs.normalization),
                ),
        ));
        assert(rgb@[0].holds(ar) && rgb@[1].holds(ar) && rgb@[2].holds(ar));
        let f = formulas(rgb@);
        assert(f[0] == rgb@[0].formula@ && f[1] == rgb@[1].formula@ && f[2] == rgb@[2].formula@);
    }
    [T::store(ar, rgb[0]).value, T::store(ar, rgb[1]).value, T::store(ar, rgb[2]).value]
}

/// `r` is a scan with its glare, where there is one.
pub open spec fn has_glare<
    T: Sample,
    A: Arithmetic,
    D: Fn(Double, Double, u64, usize) -> Vec<Double>,
>(
    ar: &A,
    rgb: ImageBuf<T>,
    profile: Profile,
    params: RuntimeParams,
    inputs: ScanInputs,
    draw: D,
    r: ImageBuf<T>,
) -> bool {
    let g = glare_of(params);
    if g.active && (Single { bits: 0 }).below(g.percent) {
        exists|colour: [T; 3], amount: Seq<T>|
            {
                &&& #[trigger] is_glare_colour(ar, profile, inputs, colour)
                &&& is_glare_amount(
                    ar,
                    rgb.width,
                    rgb.height,
                    g.percent,
                    g.roughness,
                    g.blur,
                    GLARE_SEED,
                    draw,
                    amount,
                )
                &&& #[trigger] is_glared(ar, rgb, amount, colour, r)
            }
    } else {
        same_image(rgb, r)
    }
}

fn with_glare<T: Sample, A: Arithmetic, D: Fn(Double, Double, u64, usize) -> Vec<Double>>(
    ar: &A,
    rgb: ImageBuf<T>,
    profile: &Profile,
    params: &RuntimeParams,
    inputs: &ScanInputs,
    draw: &D,
) -> (r: ImageBuf<T>)
    requires
        rgb.valid(),
        addressable(rgb),
        draws_counted(*draw),
        inputs.illuminant@.len() == 81,
        inputs.channel_density@.len() == profile.data.channel_density@.len(),
    ensures
        has_glare(ar, rgb, *profile, *params, *inputs, *draw, r),
        r.width == rgb.width,
        r.height == rgb.height,
        r.valid(),
{
    let g = if params.io.scan_film {
        &params.film_render.glare
    } else {
        &params.print_render.glare
    };
    let none = Single { bits: 0 };
    if !(g.active && none.is_below(g.percent)) {
        return rgb;
    }
    let total: usize = rgb.data.len();
    assert(image_fits(rgb.width, rgb.height));
    let colour = glare_colour(ar, profile, inputs);
    let amount: Vec<T> = compute_random_glare_amount(
        ar,
        rgb.width,
        rgb.height,
        g.percent,
        g.roughness,
        g.blur,
        GLARE_SEED,
        draw,
    );
    let r = add_glare_with_amount(ar, &rgb, &amount, colour);
    proof {
        assert(is_glare_colour(ar, *profile, *inputs, colour));
        assert(is_glared(ar, rgb, amount@, colour, r));
    }
    r
}

/// `r` is an image blurred by a backend, where there is a width.
pub open spec fn is_lens_blurred<T: Sample, B: ComputeBackend<T>>(
    backend: &B,
    img: ImageBuf<T>,
    sigma: Single,
    r: ImageBuf<T>,
) -> bool {
    if (Single { bits: 0 }).below(sigma) {
        call_ensures(B::gaussian_blur, (backend, &img, sigma), r)
    } else {
        same_image(img, r)
    }
}

/// `r` is an image sharpened by what a backend's blur takes from it.
pub open spec fn is_sharpened<T: Sample, A: Arithmetic, B: ComputeBackend<T>>(
    ar: &A,
    backend: &B,
    img: ImageBuf<T>,
    sigma: Single,
    amount: Single,
    r: ImageBuf<T>,
) -> bool {
    if (Single { bits: 0 }).below(sigma) && (Single { bits: 0 }).below(amount) {
        &&& r.width == img.width
        &&& r.height == img.height
        &&& exists|b: ImageBuf<T>|
            #[trigger] call_ensures(B::gaussian_blur, (backend, &img, sigma), b) && are_sharpened(
                ar,
                img.data@,
                b.data@,
                amount,
                r.data@,
            )
    } else {
        same_image(img, r)
    }
}

/// `r` is numbers sharpened against their blur.
pub open spec fn are_sharpened<T: Sample, A: Arithmetic>(
    ar: &A,
    xs: Seq<T>,
    b: Seq<T>,
    amount: Single,
    r: Seq<T>,
) -> bool {
    r.len() == xs.len() && forall|i: int|
        0 <= i < xs.len() ==> evaluates(
            ar,
            sharpened(xs[i], b[i], amount),
            (#[trigger] r[i]).number(),
        )
}

fn lens_blurred<T: Sample, B: ComputeBackend<T>>(backend: &B, img: ImageBuf<T>, sigma: Single) -> (r:
    ImageBuf<T>)
    requires
        img.valid(),
        addressable(img),
    ensures
        is_lens_blurred(backend, img, sigma, r),
        r.width == img.width,
        r.height == img.height,
        r.valid(),
{
    let none = Single { bits: 0 };
    if none.is_below(sigma) {
        backend.gaussian_blur(&img, sigma)
    } else {
        img
    }
}

fn unsharp<T: Sample, A: Arithmetic, B: ComputeBackend<T>>(
    ar: &A,
    backend: &B,
    img: ImageBuf<T>,
    sigma: Single,
    amount: Single,
) -> (r: ImageBuf<T>)
    requires
        img.valid(),
        addressable(img),
    ensures
        is_sharpened(ar, backend, img, sigma, amount, r),
        r.width == img.width,
        r.height == img.height,
        r.valid(),
{
    let none = Single { bits: 0 };
    if !(none.is_below(sigma) && none.is_below(amount)) {
        return img;
    }
    let b = backend.gaussian_blur(&img, sigma);
    let mut data: Vec<T> = Vec::new();
    let mut i: usize = 0;
    while i < img.data.len()
        invariant
            i <= img.data@.len(),
            b.data@.len() == img.data@.len(),
            data@.len() == i,
            forall|k: int|
                0 <= k < i ==> evaluates(
                    ar,
                    sharpened(img.data@[k], b.data@[k], amount),
                    (#[trigger] data@[k]).number(),
                ),
        decreases img.data.len() - i,
    {
        let given: Traced<Single> = Traced::new(ar, amount);
        let share: Traced<T> = T::extend(ar, given);
        let o: Traced<T> = Traced::new(ar, img.data[i]);
        let p: Traced<T> = Traced::new(ar, b.data[i]);
        data.push(o.plus(ar, share.times(ar, o.minus(ar, p))).value);
        i += 1;
    }
    assert(are_sharpened(ar, img.data@, b.data@, amount, data@));
    ImageBuf { width: img.width, height: img.height, data }
}

// ── Encoding ─────────────────────────────────────────────────────────────

/// A number kept between 0 and 1; a NaN stays.
pub open spec fn unit<T: Sample>(x: T) -> T {
    if below(x, T::zero_value()) {
        T::zero_value()
    } else if below(T::one_value(), x) {
        T::one_value()
    } else {
        x
    }
}

pub fn unit_of<T: Sample>(x: T) -> (r: T)
    ensures
        r == unit(x),
{
    if x.lt(T::zero()) {
        T::zero()
    } else if T::one().lt(x) {
        T::one()
    } else {
        x
    }
}

/// `r` is `x` brought to an image's precision, kept between 0 and 1, and
/// encoded.
pub open spec fn is_encoded<T: Sample, A: Arithmetic>(ar: &A, x: Formula, r: T) -> bool {
    exists|y: T| #[trigger]
        evaluates(ar, T::stored(x), y.number()) && evaluates(ar, srgb_encoded(unit(y)), r.number())
}

/// Channel `j` of pixel `k`, through a matrix.
pub open spec fn mixed<T: Sample>(m: [[Double; 3]; 3], data: Seq<T>, k: int, j: int) -> Formula {
    transformed(m, crate::cpu_backend::densities(data, k), j)
}

/// `r` is an image encoded for output: each pixel through the matrix from the
/// colour space to itself, kept between 0 and 1, and encoded.
pub open spec fn is_output_encoded<T: Sample, A: Arithmetic>(
    ar: &A,
    img: ImageBuf<T>,
    m: [[Double; 3]; 3],
    r: ImageBuf<T>,
) -> bool {
    &&& r.width == img.width
    &&& r.height == img.height
    &&& r.data@.len() == img.data@.len()
    &&& forall|i: int|
        0 <= i < img.data@.len() ==> is_encoded(
            ar,
            mixed(m, img.data@, i / 3, i % 3),
            #[trigger] r.data@[i],
        )
}

/// `r` is an image whose numbers are kept between 0 and 1.
pub open spec fn is_clipped<T: Sample>(img: ImageBuf<T>, r: ImageBuf<T>) -> bool {
    &&& r.width == img.width
    &&& r.height == img.height
    &&& r.data@ == img.data@.map(|i: int, x: T| unit(x))
}

/// The matrix from a colour space to XYZ and back: close to the identity.
pub open spec fn is_round_trip<A: Arithmetic>(
    ar: &A,
    space: ColorSpace,
    m: [[Double; 3]; 3],
) -> bool {
    exists|from: [[Double; 3]; 3], to: [[Double; 3]; 3]|
        {
            &&& #[trigger] decoded(from_xyz_bits(space), from)
            &&& #[trigger] decoded(to_xyz_bits(space), to)
            &&& is_product(ar, from, to, m)
        }
}

/// The matrix from a colour space to XYZ and back.
pub fn rgb_to_rgb_identity_matrix<A: Arithmetic>(ar: &A, name: &str) -> (r: [[Double; 3]; 3])
    ensures
        is_round_trip(ar, color_space_named(name@, ColorSpace::Srgb), r),
{
    let space = output_color_space(name);
    let from = colorspace_from_xyz_f64(space);
    let to = colorspace_to_xyz_f64(space);
    let r = mat3_mul3(ar, &from, &to);
    proof {
        assert(decoded(from_xyz_bits(space), from));
        assert(decoded(to_xyz_bits(space), to));
    }
    r
}

fn encoded_number<T: Sample, A: Arithmetic>(ar: &A, x: Traced<Double>) -> (r: T)
    requires
        x.holds(ar),
    ensures
        is_encoded(ar, x.formula@, r),
{
    let y: T = T::store(ar, x).value;
    let r = srgb_encode(ar, unit_of(y));
    assert(evaluates(ar, T::stored(x.formula@), y.number()));
    r
}

fn encoded_pixel<T: Sample, A: Arithmetic>(
    ar: &A,
    m: &[[Double; 3]; 3],
    data: &Vec<T>,
    k: usize,
) -> (r: [T; 3])
    requires
        3 * k + 2 < data@.len(),
    ensures
        forall|j: int|
            0 <= j < 3 ==> is_encoded(ar, mixed(*m, data@, k as int, j), #[trigger] r@[j]),
{
    let total: usize = data.len();
    assert(3 * k + 2 < total);
    let v: [Traced<Double>; 3] = [
        data[3 * k].fetch(ar),
        data[3 * k + 1].fetch(ar),
        data[3 * k + 2].fetch(ar),
    ];
    let o = transform(ar, m, v);
    proof {
        assert(formulas(v@) =~= crate::cpu_backend::densities(data@, k as int));
        assert(o@[0].holds(ar) && o@[1].holds(ar) && o@[2].holds(ar));
        let f = formulas(o@);
        assert(f[0] == o@[0].formula@ && f[1] == o@[1].formula@ && f[2] == o@[2].formula@);
    }
    [encoded_number(ar, o[0]), encoded_number(ar, o[1]), encoded_number(ar, o[2])]
}

/// Encodes an image for output.
pub fn encode_output<T: Sample, A: Arithmetic>(ar: &A, img: &ImageBuf<T>, m: &[[Double; 3]; 3]) -> (r:
    ImageBuf<T>)
    requires
        img.valid(),
    ensures
        is_output_encoded(ar, *img, *m, r),
{
    let total: usize = img.data.len();
    let n: usize = total / 3;
    let mut data: Vec<T> = Vec::new();
    let mut k: usize = 0;
    while k < n
        invariant
            k <= n,
            3 * n == total,
            total == img.data@.len(),
            data@.len() == 3 * k,
            forall|i: int|
                0 <= i < 3 * k ==> is_encoded(
                    ar,
                    mixed(*m, img.data@, i / 3, i % 3),
                    #[trigger] data@[i],
                ),
        decreases n - k,
    {
        let px = encoded_pixel(ar, m, &img.data, k);
        let ghost before = data@;
        data.push(px[0]);
        data.push(px[1]);
        data.push(px[2]);
        proof {
            assert forall|i: int| 0 <= i < 3 * k + 3 implies is_encoded(
                ar,
                mixed(*m, img.data@, i / 3, i % 3),
                #[trigger] data@[i],
            ) by {
                if i < 3 * k {
                    assert(data@[i] == before[i]);
                } else {
                    assert(i / 3 == k);
                    assert(i % 3 == i - 3 * k);
                    assert(data@[i] == px@[i - 3 * k]);
                }
            }
        }
        k += 1;
    }
    ImageBuf { width: img.width, height: img.height, data }
}

/// Keeps the numbers of an image between 0 and 1.
pub fn clip<T: Sample>(img: &ImageBuf<T>) -> (r: ImageBuf<T>)
    ensures
        is_clipped(*img, r),
{
    let mut data: Vec<T> = Vec::new();
    let mut i: usize = 0;
    while i < img.data.len()
        invariant
            i <= img.data@.len(),
            data@.len() == i,
            forall|k: int| 0 <= k < i ==> #[trigger] data@[k] == unit(img.data@[k]),
        decreases img.data.len() - i,
    {
        data.push(unit_of(img.data[i]));
        i += 1;
    }
    assert(data@ =~= img.data@.map(|i: int, x: T| unit(x)));
    ImageBuf { width: img.width, height: img.height, data }
}

/// `r` is an image made ready for output.
pub open spec fn is_output<T: Sample, A: Arithmetic>(
    ar: &A,
    img: ImageBuf<T>,
    encode: bool,
    space_name: Seq<char>,
    r: ImageBuf<T>,
) -> bool {
    if encode {
        exists|m: [[Double; 3]; 3]| #[trigger]
            is_round_trip(ar, color_space_named(space_name, ColorSpace::Srgb), m)
                && is_output_encoded(ar, img, m, r)
    } else {
        is_clipped(img, r)
    }
}

/// Makes an image ready for output.
pub fn output<T: Sample, A: Arithmetic>(
    ar: &A,
    img: &ImageBuf<T>,
    encode: bool,
    space_name: &str,
) -> (r: ImageBuf<T>)
    requires
        img.valid(),
    ensures
        is_output(ar, *img, encode, space_name@, r),
        r.width == img.width,
        r.height == img.height,
        r.valid(),
{
    if encode {
        let m = rgb_to_rgb_identity_matrix(ar, space_name);
        let r = encode_output(ar, img, &m);
        assert(is_round_trip(ar, color_space_named(space_name@, ColorSpace::Srgb), m));
        r
    } else {
        clip(img)
    }
}

/// Zero and one are in order, and numbers.
pub open spec fn ordered_units<T: Sample>() -> bool {
    &&& !T::zero_value().is_no_number()
    &&& !T::one_value().is_no_number()
    &&& T::zero_value().place() <= T::one_value().place()
}

/// A clipped number is between 0 and 1, or a NaN.
pub proof fn lemma_clipped_range<T: Sample>(x: T)
    requires
        ordered_units::<T>(),
    ensures
        x.is_no_number() ==> unit(x) == x,
        !x.is_no_number() ==> at_most(T::zero_value(), unit(x)) && at_most(unit(x), T::one_value()),
{
}

/// Clipping twice is clipping once.
pub proof fn lemma_clip_idempotent<T: Sample>(x: T)
    requires
        ordered_units::<T>(),
    ensures
        unit(unit(x)) == unit(x),
{
}

/// In both precisions zero and one are in order.
pub proof fn lemma_ordered_units()
    ensures
        ordered_units::<Single>(),
        ordered_units::<Double>(),
{
}

// ── The stage ────────────────────────────────────────────────────────────

/// `r` is an image with its white and black corrected, where that is asked
/// for.
pub open spec fn is_corrected<T: Sample, A: Arithmetic>(
    ar: &A,
    img: ImageBuf<T>,
    params: RuntimeParams,
    r: ImageBuf<T>,
) -> bool {
    let s = params.scanner;
    if s.white_correction || s.black_correction {
        is_leveled(
            ar,
            img,
            s.white_level,
            s.black_level,
            s.white_correction,
            s.black_correction,
            r,
        )
    } else {
        same_image(img, r)
    }
}

/// `r` is the scan of a density image: the colours, the correction, the
/// glare, the lens, the sharpening and the encoding, in this order.
pub open spec fn is_scan<
    T: Sample,
    A: Arithmetic,
    B: ComputeBackend<T>,
    D: Fn(Double, Double, u64, usize) -> Vec<Double>,
>(
    ar: &A,
    backend: &B,
    density: ImageBuf<T>,
    profile: Profile,
    params: RuntimeParams,
    draw: D,
    r: ImageBuf<T>,
) -> bool {
    exists|
        inputs: ScanInputs,
        rgb: ImageBuf<T>,
        corrected: ImageBuf<T>,
        glared: ImageBuf<T>,
        blurred: ImageBuf<T>,
        sharp: ImageBuf<T>,
    |
        {
            &&& #[trigger] inputs.is_for(ar, profile, params.io.output_color_space@)
            &&& is_colour(ar, backend, density, profile, params, inputs, rgb)
            &&& #[trigger] is_corrected(ar, rgb, params, corrected)
            &&& #[trigger] has_glare(ar, corrected, profile, params, inputs, draw, glared)
            &&& is_lens_blurred(backend, glared, params.scanner.lens_blur, blurred)
            &&& #[trigger] is_sharpened(
                ar,
                backend,
                blurred,
                params.scanner.unsharp_mask@[0],
                params.scanner.unsharp_mask@[1],
                sharp,
            )
            &&& is_output(
                ar,
                sharp,
                params.io.output_cctf_encoding,
                params.io.output_color_space@,
                r,
            )
        }
}

/// `r` is the colours of a density image, by a table or by the backend.
pub open spec fn is_colour<T: Sample, A: Arithmetic, B: ComputeBackend<T>>(
    ar: &A,
    backend: &B,
    density: ImageBuf<T>,
    profile: Profile,
    params: RuntimeParams,
    inputs: ScanInputs,
    r: ImageBuf<T>,
) -> bool {
    if params.settings.use_scanner_lut {
        is_table_scan(ar, density, profile, params, inputs, r)
    } else {
        scans(backend, density, inputs, r)
    }
}

fn colours<T: Sample, A: Arithmetic, B: ComputeBackend<T>>(
    ar: &A,
    backend: &B,
    density: &ImageBuf<T>,
    profile: &Profile,
    params: &RuntimeParams,
    inputs: &ScanInputs,
) -> (r: ImageBuf<T>)
    requires
        density.valid(),
        params.settings.use_scanner_lut ==> buildable(params.settings.lut_resolution),
    ensures
        is_colour(ar, backend, *density, *profile, *params, *inputs, r),
        r.width == density.width,
        r.height == density.height,
        r.valid(),
{
    if params.settings.use_scanner_lut {
        scan_spectral_via_lut(ar, density, profile, params, inputs)
    } else {
        backend.scan_spectral(
            density,
            inputs.channel_density.as_slice(),
            inputs.base_density.as_slice(),
            inputs.illuminant.as_slice(),
            inputs.normalization,
            &inputs.cat,
            &inputs.xyz_to_rgb,
        )
    }
}

fn corrected<T: Sample, A: Arithmetic>(ar: &A, img: ImageBuf<T>, params: &RuntimeParams) -> (r:
    ImageBuf<T>)
    requires
        img.valid(),
    ensures
        is_corrected(ar, img, *params, r),
        r.width == img.width,
        r.height == img.height,
        r.valid(),
{
    if params.scanner.white_correction || params.scanner.black_correction {
        apply_white_black_correction(
            ar,
            img,
            params.scanner.white_level,
            params.scanner.black_level,
            params.scanner.white_correction,
            params.scanner.black_correction,
        )
    } else {
        img
    }
}

/// Scans a density image; `draw` gives the samples of the glare.
pub fn scan<
    T: Sample,
    A: Arithmetic,
    B: ComputeBackend<T>,
    D: Fn(Double, Double, u64, usize) -> Vec<Double>,
>(
    ar: &A,
    backend: &B,
    density_cmy: &ImageBuf<T>,
    profile: &Profile,
    params: &RuntimeParams,
    draw: &D,
) -> (r: ImageBuf<T>)
    requires
        density_cmy.valid(),
        addressable(*density_cmy),
        params.settings.use_scanner_lut ==> buildable(params.settings.lut_resolution),
        draws_counted(*draw),
    ensures
        is_scan(ar, backend, *density_cmy, *profile, *params, *draw, r),
        r.width == density_cmy.width,
        r.height == density_cmy.height,
        r.valid(),
{
    let inputs = ScanInputs::new(ar, profile, params.io.output_color_space.as_str());
    let rgb = colours(ar, backend, density_cmy, profile, params, &inputs);
    let ghost g0 = rgb;
    let fixed_levels = corrected(ar, rgb, params);
    let ghost g1 = fixed_levels;
    let glared = with_glare(ar, fixed_levels, profile, params, &inputs, draw);
    let ghost g2 = glared;
    let blurred = lens_blurred(backend, glared, params.scanner.lens_blur);
    let ghost g3 = blurred;
    let usm = params.scanner.unsharp_mask;
    let sharp = unsharp(ar, backend, blurred, usm[0], usm[1]);
    let ghost g4 = sharp;
    let r = output(
        ar,
        &sharp,
        params.io.output_cctf_encoding,
        params.io.output_color_space.as_str(),
    );
    proof {
        assert(inputs.is_for(ar, *profile, params.io.output_color_space@));
        assert(is_corrected(ar, g0, *params, g1));
        assert(has_glare(ar, g1, *profile, *params, inputs, *draw, g2));
        assert(is_sharpened(ar, backend, g3, usm@[0], usm@[1], g4));
    }
    r
}

} // verus!
