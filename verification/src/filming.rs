//! Filming: an image onto film, and the film developed.

use vstd::prelude::*;

use crate::arith::{constant, dot3, double, evaluates, is_double, is_single, larger, minus, narrow};
use crate::arith::{over, plus, power, rounds_to, single, sum_from, times, unary, widen};
use crate::arith::{Arithmetic, Formula, Rounding, Sample, Traced, Unary};
use crate::backend::{addressable, usable, ComputeBackend};
use crate::bits::{Double, Single, SINGLE_INFINITY};
use crate::colorspace::colorspace_to_xyz;
use crate::colorspace::{short_decoded, short_to_xyz_bits};
use crate::couplers::{apply_density_correction, compute_dir_couplers_matrix};
use crate::couplers::{is_density_correction, Couplings, DirSettings, DirTables};
use crate::density_curves::{column, highest_finite, is_extreme, max_density_f64};
use crate::density_curves::{normalize_density_curves_f64, normalized};
use crate::diffusion::{apply_halation_um, are_shares, are_strengths, is_channel, pixel_width};
use crate::gaussian::{fixed, fixed_number};
use crate::grain::{apply_grain_to_density, grain_of, grain_stops, is_grained, Grain};
use crate::image::{channel_of, ImageBuf};
use crate::interp::{num, SINGLE_ONE};
use crate::params::{DirCouplersParams, GrainParams, HalationParams, RuntimeParams};
use crate::pchip::HALF;
use crate::profile::{entry_or_zero, Profile};
use crate::spectral::{color_space_named, illuminant_named, input_color_space, select_illuminant};
use crate::spectral::{ColorSpace, Illuminant};
use crate::spectral_service::{TcLut, SMALLEST_SUM};

verus! {

// ── Geometry ─────────────────────────────────────────────────────────────

/// The longer side.
pub open spec fn longer(w: u32, h: u32) -> u32 {
    if w >= h {
        w
    } else {
        h
    }
}

/// Size of a pixel on the film, in micrometres: the film's longer side over
/// the image's.
pub open spec fn pixel_size(format_mm: Single, w: u32, h: u32) -> Formula {
    // 1000
    over(
        times(single(format_mm), single(Single { bits: 0x447a_0000 })),
        narrow(Formula::Whole(longer(w, h) as u64)),
    )
}

/// Size of a pixel on the film, in micrometres.
pub fn pixel_size_um<A: Arithmetic>(ar: &A, film_format_mm: Single, width: u32, height: u32) -> (r:
    Single)
    ensures
        is_single(ar, pixel_size(film_format_mm, width, height), r),
{
    let side: u32 = if width >= height {
        width
    } else {
        height
    };
    let mm: Traced<Single> = Traced::new(ar, film_format_mm);
    let um = mm.times(ar, Traced::new(ar, Single { bits: 0x447a_0000 }));
    let count: Traced<Double> = Traced::whole(ar, side as u64);
    um.over(ar, count.narrow(ar)).value
}

// ── Metering ─────────────────────────────────────────────────────────────

/// The longest side that is metered.
pub const METER_SIZE: u64 = 256;

/// How much smaller the metered image is.
pub open spec fn meter_scale(side: u32) -> Formula {
    // 256
    over(constant(0x4070_0000_0000_0000), Formula::Whole(side as u64))
}

/// The source pixel of output pixel `o`.
pub open spec fn nearest_source(o: int, scale: Double) -> Formula {
    minus(
        over(plus(Formula::Whole(o as u64), constant(HALF)), double(scale)),
        constant(HALF),
    )
}

/// `r` is a rounded position, brought into a side of `len` pixels.
pub open spec fn into_side(n: i64, len: u32) -> int {
    if n < 0 {
        0
    } else if n > len - 1 {
        len - 1
    } else {
        n as int
    }
}

/// `r` maps the metered pixels of a side to source pixels: each to the
/// nearest one. A side that is not too long is metered as it is.
pub open spec fn is_meter_map<A: Arithmetic>(ar: &A, len: u32, side: u32, r: Seq<usize>) -> bool {
    if side <= METER_SIZE {
        r.len() == len && forall|i: int| 0 <= i < r.len() ==> #[trigger] r[i] == i
    } else {
        exists|scale: Double, n: i64|
            {
                &&& is_double(ar, meter_scale(side), scale)
                &&& #[trigger] rounds_to(
                    ar,
                    Rounding::Nearest,
                    times(Formula::Whole(len as u64), double(scale)),
                    n,
                )
                &&& r.len() == (if n < 0 || len == 0 {
                    0
                } else if n > METER_SIZE {
                    METER_SIZE as int
                } else {
                    n as int
                })
                &&& forall|i: int|
                    0 <= i < r.len() ==> is_nearest(ar, i, scale, len, #[trigger] r[i])
            }
    }
}

pub open spec fn is_nearest<A: Arithmetic>(
    ar: &A,
    i: int,
    scale: Double,
    len: u32,
    r: usize,
) -> bool {
    exists|m: i64| #[trigger]
        rounds_to(ar, Rounding::Nearest, nearest_source(i, scale), m) && r == into_side(m, len)
}

/// Maps the metered pixels of a side of `len` pixels to source pixels, for an
/// image whose longer side is `side`.
pub fn meter_map<A: Arithmetic>(ar: &A, len: u32, side: u32) -> (r: Vec<usize>)
    ensures
        is_meter_map(ar, len, side, r@),
        forall|i: int| 0 <= i < r@.len() ==> #[trigger] r@[i] < len,
{
    let mut r: Vec<usize> = Vec::new();
    if side as u64 <= METER_SIZE {
        let mut i: u32 = 0;
        while i < len
            invariant
                i <= len,
                r@.len() == i,
                forall|k: int| 0 <= k < i ==> #[trigger] r@[k] == k,
            decreases len - i,
        {
            r.push(i as usize);
            i += 1;
        }
        return r;
    }
    let limit: Traced<Double> = Traced::constant(ar, 0x4070_0000_0000_0000);
    let whole: Traced<Double> = Traced::whole(ar, side as u64);
    let scale = limit.over(ar, whole).value;
    let size: Traced<Double> = Traced::whole(ar, len as u64);
    let n: i64 = size.times(ar, Traced::new(ar, scale)).rounded(ar, Rounding::Nearest);
    assert(rounds_to(
        ar,
        Rounding::Nearest,
        times(Formula::Whole(len as u64), double(scale)),
        n,
    ));
    let count: u64 = if n < 0 || len == 0 {
        0
    } else if n as u64 > METER_SIZE {
        METER_SIZE
    } else {
        n as u64
    };
    let mut o: u64 = 0;
    while o < count
        invariant
            o <= count <= METER_SIZE,
            count > 0 ==> len > 0,
            r@.len() == o,
            forall|k: int| 0 <= k < o ==> is_nearest(ar, k, scale, len, #[trigger] r@[k]),
            forall|k: int| 0 <= k < o ==> #[trigger] r@[k] < len,
        decreases count - o,
    {
        let at: Traced<Double> = Traced::whole(ar, o);
        let half: Traced<Double> = Traced::constant(ar, HALF);
        let pos = at.plus(ar, half).over(ar, Traced::new(ar, scale)).minus(ar, half);
        let m: i64 = pos.rounded(ar, Rounding::Nearest);
        assert(rounds_to(ar, Rounding::Nearest, nearest_source(o as int, scale), m));
        let v: usize = if m < 0 {
            0
        } else if m > (len - 1) as i64 {
            (len - 1) as usize
        } else {
            m as usize
        };
        assert(is_nearest(ar, o as int, scale, len, v));
        r.push(v);
        o += 1;
    }
    r
}

/// The squared distance of metered pixel `i` of `n` from the middle, in
/// longer sides.
pub open spec fn offset_squared(i: int, n: int, longest: int) -> Formula {
    let side = narrow(Formula::Whole(n as u64));
    let d = times(
        minus(over(narrow(Formula::Whole(i as u64)), side), single(Single { bits: 0x3f00_0000 })),
        over(side, narrow(Formula::Whole(longest as u64))),
    );
    times(d, d)
}

fn squared_offset<A: Arithmetic>(ar: &A, i: usize, n: usize, longest: usize) -> (r: Traced<Single>)
    ensures
        r.holds(ar),
        r.formula@ == offset_squared(i as int, n as int, longest as int),
{
    let at: Traced<Double> = Traced::whole(ar, i as u64);
    let count: Traced<Double> = Traced::whole(ar, n as u64);
    let most: Traced<Double> = Traced::whole(ar, longest as u64);
    let side = count.narrow(ar);
    let half: Traced<Single> = Traced::new(ar, Single { bits: 0x3f00_0000 });
    let d = at.narrow(ar).over(ar, side).minus(ar, half).times(
        ar,
        side.over(ar, most.narrow(ar)),
    );
    d.times(ar, d)
}

/// `1 / (2 sigma^2)` for a bell of width 0.2.
pub open spec fn bell_rate() -> Formula {
    let sigma = single(Single { bits: 0x3e4c_cccd });
    over(
        single(Single { bits: SINGLE_ONE }),
        times(times(single(Single { bits: 0x4000_0000 }), sigma), sigma),
    )
}

/// Weight of a metered pixel.
pub open spec fn meter_weight(x2: Formula, y2: Formula) -> Formula {
    unary(Unary::Exp, times(unary(Unary::Negate, plus(x2, y2)), bell_rate()))
}

fn weight_of<A: Arithmetic>(ar: &A, x2: Traced<Single>, y2: Traced<Single>) -> (r: Traced<Single>)
    requires
        x2.holds(ar),
        y2.holds(ar),
    ensures
        r.holds(ar),
        r.formula@ == meter_weight(x2.formula@, y2.formula@),
{
    let one: Traced<Single> = Traced::new(ar, Single { bits: SINGLE_ONE });
    let two: Traced<Single> = Traced::new(ar, Single { bits: 0x4000_0000 });
    let sigma: Traced<Single> = Traced::new(ar, Single { bits: 0x3e4c_cccd });
    let rate = one.over(ar, two.times(ar, sigma).times(ar, sigma));
    x2.plus(ar, y2).unary(ar, Unary::Negate).times(ar, rate).unary(ar, Unary::Exp)
}

/// Luminance of a pixel.
pub open spec fn luminance<T: Sample>(y_row: [Single; 3], p0: T, p1: T, p2: T) -> Formula {
    dot3(
        seq![single(y_row@[0]), single(y_row@[1]), single(y_row@[2])],
        seq![p0.shortened(), p1.shortened(), p2.shortened()],
    )
}

fn luminance_of<T: Sample, A: Arithmetic>(ar: &A, y_row: [Single; 3], p0: T, p1: T, p2: T) -> (r:
    Traced<Single>)
    ensures
        r.holds(ar),
        r.formula@ == luminance(y_row, p0, p1, p2),
{
    let a: [Traced<Single>; 3] = [
        Traced::new(ar, y_row[0]),
        Traced::new(ar, y_row[1]),
        Traced::new(ar, y_row[2]),
    ];
    let b: [Traced<Single>; 3] = [p0.shorten(ar), p1.shorten(ar), p2.shorten(ar)];
    let r = Traced::dot3(ar, a, b);
    proof {
        assert(crate::arith::formulas(a@) =~= seq![
            single(y_row@[0]),
            single(y_row@[1]),
            single(y_row@[2]),
        ]);
        assert(crate::arith::formulas(b@) =~= seq![
            p0.shortened(),
            p1.shortened(),
            p2.shortened(),
        ]);
        assert(crate::arith::all_hold(ar, a@));
        assert(crate::arith::all_hold(ar, b@));
    }
    r
}

/// Position of the first number of the source pixel behind a metered one.
pub open spec fn source_index(width: u32, ix: Seq<usize>, iy: Seq<usize>, x: int, y: int) -> int {
    (iy[y] * width + ix[x]) * 3
}

/// The weight of a metered pixel, as a double.
pub open spec fn cell_weight(sw: int, sh: int, x: int, y: int) -> Formula {
    let longest = if sw >= sh {
        sw
    } else {
        sh
    };
    widen(meter_weight(offset_squared(x, sw, longest), offset_squared(y, sh, longest)))
}

/// The weighted luminance of a metered pixel.
pub open spec fn cell_light<T: Sample>(
    image: ImageBuf<T>,
    y_row: [Single; 3],
    ix: Seq<usize>,
    iy: Seq<usize>,
    x: int,
    y: int,
) -> Formula {
    let at = source_index(image.width, ix, iy, x, y);
    times(
        widen(luminance(y_row, image.data@[at], image.data@[at + 1], image.data@[at + 2])),
        cell_weight(ix.len() as int, iy.len() as int, x, y),
    )
}

/// The first `n` weighted luminances of a row, added up.
pub open spec fn row_light<T: Sample>(
    image: ImageBuf<T>,
    y_row: [Single; 3],
    ix: Seq<usize>,
    iy: Seq<usize>,
    y: int,
    n: int,
) -> Formula {
    sum_from(constant(0), |x: int| cell_light(image, y_row, ix, iy, x, y), n)
}

/// The first `n` weights of a row, added up.
pub open spec fn row_weight(sw: int, sh: int, y: int, n: int) -> Formula {
    sum_from(constant(0), |x: int| cell_weight(sw, sh, x, y), n)
}

/// The light of the first `n` rows.
pub open spec fn total_light<T: Sample>(
    image: ImageBuf<T>,
    y_row: [Single; 3],
    ix: Seq<usize>,
    iy: Seq<usize>,
    n: int,
) -> Formula {
    sum_from(
        constant(0),
        |y: int| row_light(image, y_row, ix, iy, y, ix.len() as int),
        n,
    )
}

/// The weights of the first `n` rows.
pub open spec fn total_weight(sw: int, sh: int, n: int) -> Formula {
    sum_from(constant(0), |y: int| row_weight(sw, sh, y, sw), n)
}

/// The metered exposure, relative to a grey of 18.4 %.
pub open spec fn metered_exposure<T: Sample>(
    image: ImageBuf<T>,
    y_row: [Single; 3],
    ix: Seq<usize>,
    iy: Seq<usize>,
) -> Formula {
    over(
        narrow(
            over(
                total_light(image, y_row, ix, iy, iy.len() as int),
                total_weight(ix.len() as int, iy.len() as int, iy.len() as int),
            ),
        ),
        single(Single { bits: 0x3e3c_6a7f }),
    )
}

/// `ev` brings an exposure to 1; an exposure that is not positive, or
/// infinite, is left alone.
pub open spec fn is_compensation<A: Arithmetic>(ar: &A, exposure: Single, ev: Single) -> bool {
    if exposure.at_most(Single { bits: 0 }) || exposure.magnitude() == SINGLE_INFINITY {
        ev.bits == 0
    } else {
        is_single(ar, unary(Unary::Negate, unary(Unary::Log2, single(exposure))), ev)
    }
}

/// `ev` is the automatic exposure of an image: luminance, weighted towards
/// the middle, of at most 256 pixels to a side.
pub open spec fn is_autoexposure<T: Sample, A: Arithmetic>(
    ar: &A,
    image: ImageBuf<T>,
    y_row: [Single; 3],
    ev: Single,
) -> bool {
    let side = longer(image.width, image.height);
    exists|ix: Seq<usize>, iy: Seq<usize>, exposure: Single|
        {
            &&& is_meter_map(ar, image.width, side, ix)
            &&& is_meter_map(ar, image.height, side, iy)
            &&& #[trigger] is_single(ar, metered_exposure(image, y_row, ix, iy), exposure)
            &&& is_compensation(ar, exposure, ev)
        }
}

proof fn lemma_source(width: u32, height: u32, x: int, y: int)
    requires
        0 <= x < width,
        0 <= y < height,
    ensures
        0 <= y * width,
        0 <= (y * width + x) * 3,
        (y * width + x) * 3 + 2 < width * height * 3,
{
    crate::index::lemma_row_major_bound(y, height as int, x, width as int);
    assert(width * height == height * width) by (nonlinear_arith);
    assert(0 <= y * width) by (nonlinear_arith)
        requires
            0 <= y,
            0 <= width,
    ;
}

fn meter_row<T: Sample, A: Arithmetic>(
    ar: &A,
    image: &ImageBuf<T>,
    y_row: [Single; 3],
    ix: &Vec<usize>,
    iy: &Vec<usize>,
    y: usize,
) -> (r: (Traced<Double>, Traced<Double>))
    requires
        image.valid(),
        y < iy@.len(),
        forall|i: int| 0 <= i < ix@.len() ==> #[trigger] ix@[i] < image.width,
        forall|i: int| 0 <= i < iy@.len() ==> #[trigger] iy@[i] < image.height,
    ensures
        r.0.holds(ar),
        r.1.holds(ar),
        r.0.formula@ == row_light(*image, y_row, ix@, iy@, y as int, ix@.len() as int),
        r.1.formula@ == row_weight(
            ix@.len() as int,
            iy@.len() as int,
            y as int,
            ix@.len() as int,
        ),
{
    let total: usize = image.data.len();
    let sw: usize = ix.len();
    let sh: usize = iy.len();
    let longest: usize = if sw >= sh {
        sw
    } else {
        sh
    };
    let y2 = squared_offset(ar, y, sh, longest);
    let mut light: Traced<Double> = Traced::constant(ar, 0);
    let mut weight: Traced<Double> = Traced::constant(ar, 0);
    let mut x: usize = 0;
    while x < sw
        invariant
            x <= sw,
            sw == ix@.len(),
            sh == iy@.len(),
            y < sh,
            longest == if sw >= sh {
                sw
            } else {
                sh
            },
            total == image.data@.len(),
            image.valid(),
            forall|i: int| 0 <= i < ix@.len() ==> #[trigger] ix@[i] < image.width,
            forall|i: int| 0 <= i < iy@.len() ==> #[trigger] iy@[i] < image.height,
            y2.holds(ar),
            y2.formula@ == offset_squared(y as int, sh as int, longest as int),
            light.holds(ar),
            weight.holds(ar),
            light.formula@ == row_light(*image, y_row, ix@, iy@, y as int, x as int),
            weight.formula@ == row_weight(sw as int, sh as int, y as int, x as int),
        decreases sw - x,
    {
        proof {
            assert(ix@[x as int] < image.width);
            assert(iy@[y as int] < image.height);
            lemma_source(image.width, image.height, ix@[x as int] as int, iy@[y as int] as int);
        }
        let at: usize = (iy[y] * (image.width as usize) + ix[x]) * 3;
        let x2 = squared_offset(ar, x, sw, longest);
        let w = weight_of(ar, x2, y2).widen(ar);
        let l = luminance_of(
            ar,
            y_row,
            image.data[at],
            image.data[at + 1],
            image.data[at + 2],
        );
        light = light.plus(ar, l.widen(ar).times(ar, w));
        weight = weight.plus(ar, w);
        x += 1;
    }
    (light, weight)
}

/// The exposure value that brings the metered light of an image to a grey of
/// 18.4 %.
pub fn measure_autoexposure_ev<T: Sample, A: Arithmetic>(
    ar: &A,
    image: &ImageBuf<T>,
    rgb_to_xyz: &[[Single; 3]; 3],
) -> (r: Single)
    requires
        image.valid(),
    ensures
        is_autoexposure(ar, *image, rgb_to_xyz@[1], r),
{
    let side: u32 = if image.width >= image.height {
        image.width
    } else {
        image.height
    };
    let ix = meter_map(ar, image.width, side);
    let iy = meter_map(ar, image.height, side);
    let y_row = rgb_to_xyz[1];
    let sh: usize = iy.len();
    let mut light: Traced<Double> = Traced::constant(ar, 0);
    let mut weight: Traced<Double> = Traced::constant(ar, 0);
    let mut y: usize = 0;
    while y < sh
        invariant
            y <= sh,
            sh == iy@.len(),
            image.valid(),
            forall|i: int| 0 <= i < ix@.len() ==> #[trigger] ix@[i] < image.width,
            forall|i: int| 0 <= i < iy@.len() ==> #[trigger] iy@[i] < image.height,
            light.holds(ar),
            weight.holds(ar),
            light.formula@ == total_light(*image, y_row, ix@, iy@, y as int),
            weight.formula@ == total_weight(ix@.len() as int, sh as int, y as int),
        decreases sh - y,
    {
        let (l, w) = meter_row(ar, image, y_row, &ix, &iy, y);
        light = light.plus(ar, l);
        weight = weight.plus(ar, w);
        y += 1;
    }
    let grey: Traced<Single> = Traced::new(ar, Single { bits: 0x3e3c_6a7f });
    let exposure = light.over(ar, weight).narrow(ar).over(ar, grey).value;
    assert(is_single(ar, metered_exposure(*image, rgb_to_xyz@[1], ix@, iy@), exposure));
    if exposure.is_at_most(Single { bits: 0 }) || exposure.bits == SINGLE_INFINITY
        || exposure.negated().bits == SINGLE_INFINITY {
        return Single { bits: 0 };
    }
    let e: Traced<Single> = Traced::new(ar, exposure);
    e.unary(ar, Unary::Log2).unary(ar, Unary::Negate).value
}

// ── Exposure ─────────────────────────────────────────────────────────────

/// Two images of the same numbers.
pub open spec fn same_image<T>(a: ImageBuf<T>, b: ImageBuf<T>) -> bool {
    a.width == b.width && a.height == b.height && a.data@ == b.data@
}

fn copy_image<T: Copy>(img: &ImageBuf<T>) -> (r: ImageBuf<T>)
    ensures
        same_image(*img, r),
{
    ImageBuf {
        width: img.width,
        height: img.height,
        data: vstd::slice::slice_to_vec(img.data.as_slice()),
    }
}

/// `r` is every number of an image times a factor.
pub open spec fn is_scaled<T: Sample, A: Arithmetic>(
    ar: &A,
    img: ImageBuf<T>,
    factor: Formula,
    r: ImageBuf<T>,
) -> bool {
    &&& r.width == img.width
    &&& r.height == img.height
    &&& r.data@.len() == img.data@.len()
    &&& forall|i: int|
        0 <= i < img.data@.len() ==> evaluates(
            ar,
            times(num(img.data@[i]), factor),
            (#[trigger] r.data@[i]).number(),
        )
}

fn scaled<T: Sample, A: Arithmetic>(ar: &A, img: &ImageBuf<T>, factor: Traced<T>) -> (r: ImageBuf<T>)
    requires
        factor.holds(ar),
    ensures
        is_scaled(ar, *img, factor.formula@, r),
{
    let mut data: Vec<T> = Vec::new();
    let mut i: usize = 0;
    while i < img.data.len()
        invariant
            i <= img.data@.len(),
            factor.holds(ar),
            data@.len() == i,
            forall|k: int|
                0 <= k < i ==> evaluates(
                    ar,
                    times(num(img.data@[k]), factor.formula@),
                    (#[trigger] data@[k]).number(),
                ),
        decreases img.data.len() - i,
    {
        let v: Traced<T> = Traced::new(ar, img.data[i]);
        data.push(v.times(ar, factor).value);
        i += 1;
    }
    ImageBuf { width: img.width, height: img.height, data }
}

/// The factor of an exposure value: `2^ev`.
pub open spec fn ev_factor<T: Sample>(ev: Single) -> Formula {
    T::extended(power(single(Single { bits: 0x4000_0000 }), single(ev)))
}

fn factor_of<T: Sample, A: Arithmetic>(ar: &A, ev: Single) -> (r: Traced<T>)
    ensures
        r.holds(ar),
        r.formula@ == ev_factor::<T>(ev),
{
    let two: Traced<Single> = Traced::new(ar, Single { bits: 0x4000_0000 });
    T::extend(ar, two.power(ar, Traced::new(ar, ev)))
}

/// `log10(max(x, 0) + 1e-10)`.
pub open spec fn log_exposure<T: Sample>(x: T) -> Formula {
    unary(Unary::Log10, plus(larger(num(x), fixed::<T>(0)), fixed::<T>(SMALLEST_SUM)))
}

/// `r` is the logarithm of an image.
pub open spec fn is_logarithm<T: Sample, A: Arithmetic>(
    ar: &A,
    img: ImageBuf<T>,
    r: ImageBuf<T>,
) -> bool {
    &&& r.width == img.width
    &&& r.height == img.height
    &&& r.data@.len() == img.data@.len()
    &&& forall|i: int|
        0 <= i < img.data@.len() ==> evaluates(
            ar,
            log_exposure(img.data@[i]),
            (#[trigger] r.data@[i]).number(),
        )
}

/// The logarithm of an image: that of what is above 0, and a little more.
pub fn logarithm<T: Sample, A: Arithmetic>(ar: &A, img: &ImageBuf<T>) -> (r: ImageBuf<T>)
    ensures
        is_logarithm(ar, *img, r),
{
    let mut data: Vec<T> = Vec::new();
    let mut i: usize = 0;
    while i < img.data.len()
        invariant
            i <= img.data@.len(),
            data@.len() == i,
            forall|k: int|
                0 <= k < i ==> evaluates(
                    ar,
                    log_exposure(img.data@[k]),
                    (#[trigger] data@[k]).number(),
                ),
        decreases img.data.len() - i,
    {
        let v: Traced<T> = Traced::new(ar, img.data[i]);
        let none: Traced<T> = fixed_number(ar, 0);
        let least: Traced<T> = fixed_number(ar, SMALLEST_SUM);
        data.push(v.larger(ar, none).plus(ar, least).unary(ar, Unary::Log10).value);
        i += 1;
    }
    ImageBuf { width: img.width, height: img.height, data }
}

/// The image after automatic exposure, where it is on.
pub open spec fn is_metered<T: Sample, A: Arithmetic>(
    ar: &A,
    image: ImageBuf<T>,
    on: bool,
    space: ColorSpace,
    r: ImageBuf<T>,
) -> bool {
    if on {
        exists|m: [[Single; 3]; 3], ev: Single|
            {
                &&& #[trigger] short_decoded(short_to_xyz_bits(space), m)
                &&& #[trigger] is_autoexposure(ar, image, m@[1], ev)
                &&& is_scaled(ar, image, ev_factor::<T>(ev), r)
            }
    } else {
        same_image(image, r)
    }
}

/// The image with the halation of the film, where it is on.
pub open spec fn is_lit<T: Sample, A: Arithmetic>(
    ar: &A,
    raw: ImageBuf<T>,
    p: HalationParams,
    pixel_um: Single,
    r: ImageBuf<T>,
) -> bool {
    if p.active {
        &&& r.width == raw.width
        &&& r.height == raw.height
        &&& r.valid()
        &&& exists|a: [Double; 3], d: Seq<Double>|
            {
                &&& #[trigger] are_strengths(ar, p, a)
                &&& #[trigger] are_shares(ar, p, d)
                &&& forall|c: int|
                    0 <= c < 3 ==> is_channel(
                        ar,
                        raw.width as nat,
                        raw.height as nat,
                        p,
                        pixel_um,
                        a,
                        d,
                        c,
                        #[trigger] channel_of(raw.data@, c),
                        channel_of(r.data@, c),
                    )
            }
    } else {
        same_image(raw, r)
    }
}

/// The image blurred by a backend, by a width in micrometres.
pub open spec fn is_blurred_um<T: Sample, A: Arithmetic, B: ComputeBackend<T>>(
    ar: &A,
    backend: &B,
    img: ImageBuf<T>,
    um: Single,
    pixel_um: Single,
    r: ImageBuf<T>,
) -> bool {
    if (Single { bits: 0 }).below(um) {
        exists|s: Single| #[trigger]
            is_single(ar, pixel_width(um, pixel_um), s) && if (Single { bits: 0 }).below(s) {
                call_ensures(B::gaussian_blur, (backend, &img, s), r)
            } else {
                same_image(img, r)
            }
    } else {
        same_image(img, r)
    }
}

fn blurred_um<T: Sample, A: Arithmetic, B: ComputeBackend<T>>(
    ar: &A,
    backend: &B,
    img: ImageBuf<T>,
    um: Single,
    pixel_um: Single,
) -> (r: ImageBuf<T>)
    requires
        img.valid(),
        addressable(img),
    ensures
        is_blurred_um(ar, backend, img, um, pixel_um, r),
        r.width == img.width,
        r.height == img.height,
        r.valid(),
{
    let none = Single { bits: 0 };
    if none.is_below(um) {
        let length: Traced<Single> = Traced::new(ar, um);
        let s = length.over(ar, Traced::new(ar, pixel_um)).value;
        assert(is_single(ar, pixel_width(um, pixel_um), s));
        if none.is_below(s) {
            return backend.gaussian_blur(&img, s);
        }
    }
    img
}

/// The film exposure of an image by the table where there is one; without
/// one the image itself.
pub open spec fn is_raw<T: Sample, B: ComputeBackend<T>>(
    backend: &B,
    rgb: ImageBuf<T>,
    lut: Option<&TcLut>,
    space: ColorSpace,
    illuminant: &[Single],
    r: ImageBuf<T>,
) -> bool {
    match lut {
        Some(l) => call_ensures(
            B::hanatos2025_rgb_to_raw,
            (backend, &rgb, l, space, illuminant),
            r,
        ),
        None => same_image(rgb, r),
    }
}

/// `r` is the log exposure of the film: metering, compensation, the film's
/// sensitivity, halation, the lens and the logarithm, in this order.
pub open spec fn is_exposed<T: Sample, A: Arithmetic, B: ComputeBackend<T>>(
    ar: &A,
    backend: &B,
    image: ImageBuf<T>,
    reference_illuminant: Seq<char>,
    params: RuntimeParams,
    lut: Option<&TcLut>,
    r: ImageBuf<T>,
) -> bool {
    let space = color_space_named(params.io.input_color_space@, ColorSpace::ProPhoto);
    let illuminant = illuminant_named(reference_illuminant, Illuminant::D55);
    exists|
        pixel_um: Single,
        metered: ImageBuf<T>,
        rgb: ImageBuf<T>,
        light: &[Single],
        raw: ImageBuf<T>,
        lit: ImageBuf<T>,
        blurred: ImageBuf<T>,
    |
        {
            &&& #[trigger] is_single(
                ar,
                pixel_size(params.camera.film_format_mm, image.width, image.height),
                pixel_um,
            )
            &&& is_metered(ar, image, params.camera.auto_exposure, space, metered)
            &&& #[trigger] is_scaled(
                ar,
                metered,
                ev_factor::<T>(params.camera.exposure_compensation_ev),
                rgb,
            )
            &&& light@ == illuminant.short_powers()
            &&& #[trigger] is_raw(backend, rgb, lut, space, light, raw)
            &&& #[trigger] is_lit(ar, raw, params.film_render.halation, pixel_um, lit)
            &&& is_blurred_um(ar, backend, lit, params.camera.lens_blur_um, pixel_um, blurred)
            &&& #[trigger] is_logarithm(ar, blurred, r)
        }
}

/// RGB to XYZ for the colour space that an input is read with.
pub fn input_colorspace_to_xyz(name: &str) -> (r: [[Single; 3]; 3])
    ensures
        short_decoded(short_to_xyz_bits(color_space_named(name@, ColorSpace::ProPhoto)), r),
{
    colorspace_to_xyz(input_color_space(name))
}

fn metered<T: Sample, A: Arithmetic>(ar: &A, image: &ImageBuf<T>, on: bool, space: ColorSpace) -> (r:
    ImageBuf<T>)
    requires
        image.valid(),
    ensures
        is_metered(ar, *image, on, space, r),
        r.width == image.width,
        r.height == image.height,
        r.valid(),
{
    if !on {
        return copy_image(image);
    }
    let m = colorspace_to_xyz(space);
    let ev = measure_autoexposure_ev(ar, image, &m);
    let r = scaled(ar, image, factor_of(ar, ev));
    proof {
        assert(short_decoded(short_to_xyz_bits(space), m));
        assert(is_autoexposure(ar, *image, m@[1], ev));
    }
    r
}

/// The log exposure that an image gives the film.
pub fn expose<T: Sample, A: Arithmetic, B: ComputeBackend<T>>(
    ar: &A,
    backend: &B,
    image: &ImageBuf<T>,
    reference_illuminant: &str,
    params: &RuntimeParams,
    tc_lut: Option<&TcLut>,
) -> (r: ImageBuf<T>)
    requires
        image.valid(),
        addressable(*image),
        tc_lut matches Some(l) ==> usable(*l),
    ensures
        is_exposed(ar, backend, *image, reference_illuminant@, *params, tc_lut, r),
        r.width == image.width,
        r.height == image.height,
        r.valid(),
{
    let space = input_color_space(params.io.input_color_space.as_str());
    let power = select_illuminant(reference_illuminant).power_numbers();
    let light = power.as_slice();
    let pixel_um = pixel_size_um(ar, params.camera.film_format_mm, image.width, image.height);
    let first = metered(ar, image, params.camera.auto_exposure, space);
    let rgb = scaled(ar, &first, factor_of(ar, params.camera.exposure_compensation_ev));
    let ghost before = rgb;
    let raw = match tc_lut {
        Some(l) => backend.hanatos2025_rgb_to_raw(&rgb, l, space, light),
        None => rgb,
    };
    let ghost exposed = raw;
    let lit = if params.film_render.halation.active {
        apply_halation_um(ar, &raw, pixel_um, &params.film_render.halation)
    } else {
        raw
    };
    let ghost bright = lit;
    let blurred = blurred_um(ar, backend, lit, params.camera.lens_blur_um, pixel_um);
    let r = logarithm(ar, &blurred);
    proof {
        assert(is_single(
            ar,
            pixel_size(params.camera.film_format_mm, image.width, image.height),
            pixel_um,
        ));
        assert(is_scaled(
            ar,
            first,
            ev_factor::<T>(params.camera.exposure_compensation_ev),
            before,
        ));
        assert(is_raw(backend, before, tc_lut, space, light, exposed));
        assert(is_lit(ar, exposed, params.film_render.halation, pixel_um, bright));
        assert(is_logarithm(ar, blurred, r));
    }
    r
}

// ── Development ──────────────────────────────────────────────────────────

/// `r` is a row in single precision.
pub open spec fn is_short_row<A: Arithmetic>(ar: &A, row: [Double; 3], r: [Single; 3]) -> bool {
    &&& is_single(ar, narrow(double(row@[0])), r@[0])
    &&& is_single(ar, narrow(double(row@[1])), r@[1])
    &&& is_single(ar, narrow(double(row@[2])), r@[2])
}

pub open spec fn are_short_rows<A: Arithmetic>(
    ar: &A,
    rows: Seq<[Double; 3]>,
    r: Seq<[Single; 3]>,
) -> bool {
    r.len() == rows.len() && forall|i: int|
        0 <= i < rows.len() ==> is_short_row(ar, rows[i], #[trigger] r[i])
}

fn short_of<A: Arithmetic>(ar: &A, x: Double) -> (r: Single)
    ensures
        is_single(ar, narrow(double(x)), r),
{
    let v: Traced<Double> = Traced::new(ar, x);
    v.narrow(ar).value
}

/// Rows in single precision.
pub fn short_rows<A: Arithmetic>(ar: &A, rows: &[[Double; 3]]) -> (r: Vec<[Single; 3]>)
    ensures
        are_short_rows(ar, rows@, r@),
{
    let mut r: Vec<[Single; 3]> = Vec::new();
    let mut i: usize = 0;
    while i < rows.len()
        invariant
            i <= rows@.len(),
            r@.len() == i,
            forall|k: int| 0 <= k < i ==> is_short_row(ar, rows@[k], #[trigger] r@[k]),
        decreases rows.len() - i,
    {
        let row = rows[i];
        r.push([short_of(ar, row[0]), short_of(ar, row[1]), short_of(ar, row[2])]);
        i += 1;
    }
    r
}

pub open spec fn are_short<A: Arithmetic>(ar: &A, xs: Seq<Double>, r: Seq<Single>) -> bool {
    r.len() == xs.len() && forall|i: int|
        0 <= i < xs.len() ==> is_single(ar, narrow(double(xs[i])), #[trigger] r[i])
}

/// Numbers in single precision.
pub fn short_numbers<A: Arithmetic>(ar: &A, xs: &[Double]) -> (r: Vec<Single>)
    ensures
        are_short(ar, xs@, r@),
{
    let mut r: Vec<Single> = Vec::new();
    let mut i: usize = 0;
    while i < xs.len()
        invariant
            i <= xs@.len(),
            r@.len() == i,
            forall|k: int| 0 <= k < i ==> is_single(ar, narrow(double(xs@[k])), #[trigger] r@[k]),
        decreases xs.len() - i,
    {
        r.push(short_of(ar, xs[i]));
        i += 1;
    }
    r
}

/// The couplings that the parameters set.
pub open spec fn couplings_of(p: DirCouplersParams) -> Couplings {
    Couplings {
        gamma_samelayer: p.gamma_samelayer_rgb,
        gamma_r_to_gb: p.gamma_interlayer_r_to_gb,
        gamma_g_to_rb: p.gamma_interlayer_g_to_rb,
        gamma_b_to_rg: p.gamma_interlayer_b_to_rg,
        inhibition_samelayer: p.inhibition_samelayer,
        inhibition_interlayer: p.inhibition_interlayer,
    }
}

/// The couplers matrix of the parameters.
pub fn couplers_matrix<A: Arithmetic>(ar: &A, p: &DirCouplersParams) -> (r: [[Double; 3]; 3])
    ensures
        forall|i: int, j: int|
            0 <= i < 3 && 0 <= j < 3 ==> is_double(
                ar,
                couplings_of(*p).entry(i, j),
                #[trigger] r@[i]@[j],
            ),
{
    let k = Couplings {
        gamma_samelayer: p.gamma_samelayer_rgb,
        gamma_r_to_gb: p.gamma_interlayer_r_to_gb,
        gamma_g_to_rb: p.gamma_interlayer_g_to_rb,
        gamma_b_to_rg: p.gamma_interlayer_b_to_rg,
        inhibition_samelayer: p.inhibition_samelayer,
        inhibition_interlayer: p.inhibition_interlayer,
    };
    compute_dir_couplers_matrix(ar, k)
}

/// What the couplers act with.
pub open spec fn dir_settings(
    p: DirCouplersParams,
    pixel_um: Single,
    positive: bool,
    gamma: Single,
) -> DirSettings {
    DirSettings {
        pixel_size_um: pixel_um,
        amount: p.amount,
        diffusion_size_um: p.diffusion_size_um,
        diffusion_tail_um: p.diffusion_tail_um,
        diffusion_tail_weight: p.diffusion_tail_weight,
        positive,
        gamma,
    }
}

/// What the couplers act with.
pub fn settings_for(p: &DirCouplersParams, pixel_um: Single, positive: bool, gamma: Single) -> (r:
    DirSettings)
    ensures
        r == dir_settings(*p, pixel_um, positive, gamma),
{
    DirSettings {
        pixel_size_um: pixel_um,
        amount: p.amount,
        diffusion_size_um: p.diffusion_size_um,
        diffusion_tail_um: p.diffusion_tail_um,
        diffusion_tail_weight: p.diffusion_tail_weight,
        positive,
        gamma,
    }
}

/// The film's curves, three to a row.
pub open spec fn are_curves(film: Profile, curves: Seq<[Double; 3]>) -> bool {
    &&& curves.len() == film.data.density_curves@.len()
    &&& forall|i: int, c: int|
        0 <= i < curves.len() && 0 <= c < 3 ==> #[trigger] curves[i]@[c] == entry_or_zero(
            film.data.density_curves@[i]@,
            c,
        )
}

/// `r` is the density after the couplers, where they are on.
pub open spec fn is_coupled<T: Sample, A: Arithmetic>(
    ar: &A,
    density: ImageBuf<T>,
    log_raw: ImageBuf<T>,
    film: Profile,
    curves: Seq<[Double; 3]>,
    params: RuntimeParams,
    pixel_um: Single,
    r: ImageBuf<T>,
) -> bool {
    let p = params.film_render.dir_couplers;
    let s = dir_settings(
        p,
        pixel_um,
        film.info.film_type@ == "positive"@,
        params.film_render.density_curve_gamma,
    );
    if p.active {
        exists|axis: Seq<Single>, rows: Seq<[Single; 3]>, matrix: [[Double; 3]; 3], tables: DirTables|
            {
                &&& are_short(ar, film.data.log_exposure@, axis)
                &&& are_short_rows(ar, curves, rows)
                &&& forall|i: int, j: int|
                    0 <= i < 3 && 0 <= j < 3 ==> is_double(
                        ar,
                        couplings_of(p).entry(i, j),
                        #[trigger] matrix@[i]@[j],
                    )
                &&& #[trigger] tables.is_for(ar, s, axis, rows, matrix)
                &&& #[trigger] is_density_correction(ar, density, log_raw, s, axis, tables, r)
            }
    } else {
        same_image(density, r)
    }
}

fn coupled<T: Sample, A: Arithmetic>(
    ar: &A,
    density: ImageBuf<T>,
    log_raw: &ImageBuf<T>,
    film: &Profile,
    curves: &Vec<[Double; 3]>,
    params: &RuntimeParams,
    pixel_um: Single,
) -> (r: ImageBuf<T>)
    requires
        density.valid(),
        log_raw.valid(),
        log_raw.width == density.width,
        log_raw.height == density.height,
        addressable(*log_raw),
        film.data.log_exposure@.len() == curves@.len(),
        curves@.len() > 0,
    ensures
        is_coupled(ar, density, *log_raw, *film, curves@, *params, pixel_um, r),
        r.width == density.width,
        r.height == density.height,
        r.valid(),
{
    let p = &params.film_render.dir_couplers;
    if !p.active {
        return density;
    }
    let axis = short_numbers(ar, film.data.log_exposure.as_slice());
    let rows = short_rows(ar, curves.as_slice());
    let matrix = couplers_matrix(ar, p);
    let s = settings_for(
        p,
        pixel_um,
        film.is_positive(),
        params.film_render.density_curve_gamma,
    );
    let r = apply_density_correction(
        ar,
        &density,
        log_raw,
        s,
        axis.as_slice(),
        rows.as_slice(),
        matrix,
    );
    proof {
        let tables = choose|tables: DirTables|
            tables.is_for(ar, s, axis@, rows@, matrix) && #[trigger] is_density_correction(
                ar,
                density,
                *log_raw,
                s,
                axis@,
                tables,
                r,
            );
        assert(tables.is_for(ar, s, axis@, rows@, matrix));
        assert(is_density_correction(ar, density, *log_raw, s, axis@, tables, r));
    }
    r
}

/// `r` is the developed film: the curves without their lowest density, the
/// couplers and the grain, in this order. Nothing where the grain stops short.
pub open spec fn is_developed<T: Sample, A: Arithmetic, B: ComputeBackend<T>>(
    ar: &A,
    backend: &B,
    log_raw: ImageBuf<T>,
    film: Profile,
    params: RuntimeParams,
    r: Option<ImageBuf<T>>,
) -> bool {
    exists|
        pixel_um: Single,
        curves: Vec<[Double; 3]>,
        low: [Double; 3],
        norm: Vec<[Double; 3]>,
        axis: Vec<Double>,
        gamma: Double,
        density: ImageBuf<T>,
        after: ImageBuf<T>,
    |
        {
            &&& is_single(
                ar,
                pixel_size(params.camera.film_format_mm, log_raw.width, log_raw.height),
                pixel_um,
            )
            &&& are_curves(film, curves@)
            &&& #[trigger] normalized(ar, curves@, low, norm@)
            &&& axis@ == film.data.log_exposure@
            &&& is_double(ar, widen(single(params.film_render.density_curve_gamma)), gamma)
            &&& #[trigger] curve_read(backend, log_raw, axis, norm, gamma, density)
            &&& #[trigger] is_coupled(
                ar,
                density,
                log_raw,
                film,
                curves@,
                params,
                pixel_um,
                after,
            )
            &&& is_given_grain(
                ar,
                backend,
                after,
                params.film_render.grain,
                norm@,
                pixel_um,
                r,
            )
        }
}

/// `r` is a density image with the grain of the film, where that is on.
pub open spec fn is_given_grain<T: Sample, A: Arithmetic, B: ComputeBackend<T>>(
    ar: &A,
    backend: &B,
    img: ImageBuf<T>,
    p: GrainParams,
    norm: Seq<[Double; 3]>,
    pixel_um: Single,
    r: Option<ImageBuf<T>>,
) -> bool {
    if p.active {
        exists|top: [Double; 3]|
            {
                &&& #[trigger] are_tops(norm, top)
                &&& match r {
                    Some(v) => is_grained(ar, backend, img, grain_of(p, pixel_um, top), v),
                    None => grain_stops(ar, img, grain_of(p, pixel_um, top)),
                }
            }
    } else {
        r matches Some(v) && same_image(img, v)
    }
}

/// The highest finite density of each channel.
pub open spec fn are_tops(curves: Seq<[Double; 3]>, top: [Double; 3]) -> bool {
    forall|c: int|
        0 <= c < 3 ==> is_extreme(column(curves, c), highest_finite(), #[trigger] top@[c])
}

fn given_grain<T: Sample, A: Arithmetic, B: ComputeBackend<T>>(
    ar: &A,
    backend: &B,
    img: ImageBuf<T>,
    p: &GrainParams,
    norm: &Vec<[Double; 3]>,
    pixel_um: Single,
) -> (r: Option<ImageBuf<T>>)
    requires
        img.valid(),
        addressable(img),
    ensures
        is_given_grain(ar, backend, img, *p, norm@, pixel_um, r),
        r matches Some(v) ==> v.width == img.width && v.height == img.height && v.valid(),
        !p.active ==> r is Some,
{
    if !p.active {
        return Some(img);
    }
    let top = max_density_f64(norm.as_slice());
    let g = Grain {
        pixel_size_um: pixel_um,
        particle_area_um2: p.agx_particle_area_um2,
        particle_scale: p.agx_particle_scale,
        density_min: p.density_min,
        density_max_curves: top,
        uniformity: p.uniformity,
        blur: p.blur,
        n_sub_layers: p.n_sub_layers,
    };
    assert(are_tops(norm@, top));
    apply_grain_to_density(ar, backend, &img, &g)
}

/// `r` is what a backend reads from curves.
pub open spec fn curve_read<T: Sample, B: ComputeBackend<T>>(
    backend: &B,
    log_raw: ImageBuf<T>,
    axis: Vec<Double>,
    rows: Vec<[Double; 3]>,
    gamma: Double,
    r: ImageBuf<T>,
) -> bool {
    exists|a: &[Double], b: &[[Double; 3]]|
        a@ == axis@ && b@ == rows@ && #[trigger] call_ensures(
            B::density_curve_interp,
            (backend, &log_raw, a, b, gamma),
            r,
        )
}

/// Develops the film. Gives nothing where a sample of the grain is not found
/// within as many tries as 64 bits can count.
pub fn develop<T: Sample, A: Arithmetic, B: ComputeBackend<T>>(
    ar: &A,
    backend: &B,
    log_raw: &ImageBuf<T>,
    film: &Profile,
    params: &RuntimeParams,
) -> (r: Option<ImageBuf<T>>)
    requires
        log_raw.valid(),
        addressable(*log_raw),
        film.data.log_exposure@.len() == film.data.density_curves@.len(),
        film.data.log_exposure@.len() > 0,
    ensures
        is_developed(ar, backend, *log_raw, *film, *params, r),
        r matches Some(v) ==> v.width == log_raw.width && v.height == log_raw.height && v.valid(),
        !params.film_render.grain.active ==> r is Some,
{
    let pixel_um = pixel_size_um(ar, params.camera.film_format_mm, log_raw.width, log_raw.height);
    let axis = film.log_exposure_f64();
    let curves = film.density_curves_f64();
    let norm = normalize_density_curves_f64(ar, curves.as_slice());
    let ghost low = choose|low: [Double; 3]| normalized(ar, curves@, low, norm@);
    let g: Traced<Single> = Traced::new(ar, params.film_render.density_curve_gamma);
    let gamma = g.widen(ar).value;
    let density = backend.density_curve_interp(
        log_raw,
        axis.as_slice(),
        norm.as_slice(),
        gamma,
    );
    let ghost read = density;
    let after = coupled(ar, density, log_raw, film, &curves, params, pixel_um);
    let ghost kept = after;
    let r = given_grain(ar, backend, after, &params.film_render.grain, &norm, pixel_um);
    proof {
        assert(normalized(ar, curves@, low, norm@));
        assert(curve_read(backend, *log_raw, axis, norm, gamma, read));
        assert(is_coupled(ar, read, *log_raw, *film, curves@, *params, pixel_um, kept));
    }
    r
}

/// `r` is the film that an image is taken on.
pub open spec fn is_filmed<T: Sample, A: Arithmetic, B: ComputeBackend<T>>(
    ar: &A,
    backend: &B,
    image: ImageBuf<T>,
    film: Profile,
    params: RuntimeParams,
    lut: Option<&TcLut>,
    r: Option<ImageBuf<T>>,
) -> bool {
    exists|log: ImageBuf<T>| #[trigger]
        is_exposed(ar, backend, image, film.info.reference_illuminant@, params, lut, log)
            && is_developed(ar, backend, log, film, params, r)
}

/// Takes an image on film: exposure and development.
pub fn process<T: Sample, A: Arithmetic, B: ComputeBackend<T>>(
    ar: &A,
    backend: &B,
    image: &ImageBuf<T>,
    film: &Profile,
    params: &RuntimeParams,
    tc_lut: Option<&TcLut>,
) -> (r: Option<ImageBuf<T>>)
    requires
        image.valid(),
        addressable(*image),
        tc_lut matches Some(l) ==> usable(*l),
        film.data.log_exposure@.len() == film.data.density_curves@.len(),
        film.data.log_exposure@.len() > 0,
    ensures
        is_filmed(ar, backend, *image, *film, *params, tc_lut, r),
        r matches Some(v) ==> v.width == image.width && v.height == image.height && v.valid(),
        !params.film_render.grain.active ==> r is Some,
{
    let log = expose(
        ar,
        backend,
        image,
        film.info.reference_illuminant.as_str(),
        params,
        tc_lut,
    );
    let r = develop(ar, backend, &log, film, params);
    proof {
        assert(is_exposed(
            ar,
            backend,
            *image,
            film.info.reference_illuminant@,
            *params,
            tc_lut,
            log,
        ));
    }
    r
}

} // verus!
