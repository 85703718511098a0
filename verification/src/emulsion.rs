//! Emulsions in single precision: spectral density, light and development.

use vstd::prelude::*;

use crate::arith::{evaluates, is_single, minus, over, plus, power, single, times, unary};
use crate::arith::{Arithmetic, Formula, Sample, Traced, Unary};
use crate::bits::{Double, Single};
use crate::density_curves::{column, extract_col, normalize_density_curves, single_normalized};
use crate::image::ImageBuf;
use crate::interp::{curve_table, read_image, is_table, CurveTable, Side, SINGLE_ONE};

verus! {

// ── Density and light ────────────────────────────────────────────────────

/// Density at a wavelength of a pixel's three dyes, and of the base where it
/// is given.
pub open spec fn dye_density<T: Sample>(
    p0: T,
    p1: T,
    p2: T,
    row: [Single; 3],
    base: Option<Single>,
) -> Formula {
    let dyes = plus(
        plus(
            times(p0.shortened(), single(row@[0])),
            times(p1.shortened(), single(row@[1])),
        ),
        times(p2.shortened(), single(row@[2])),
    );
    match base {
        Some(b) => plus(dyes, single(b)),
        None => dyes,
    }
}

fn dye_density_of<T: Sample, A: Arithmetic>(
    ar: &A,
    p0: T,
    p1: T,
    p2: T,
    row: [Single; 3],
    base: Option<Single>,
) -> (r: Single)
    ensures
        is_single(ar, dye_density(p0, p1, p2, row, base), r),
{
    let a = p0.shorten(ar).times(ar, Traced::new(ar, row[0]));
    let b = p1.shorten(ar).times(ar, Traced::new(ar, row[1]));
    let c = p2.shorten(ar).times(ar, Traced::new(ar, row[2]));
    let dyes = a.plus(ar, b).plus(ar, c);
    match base {
        Some(v) => dyes.plus(ar, Traced::new(ar, v)).value,
        None => dyes.value,
    }
}

/// The base at a wavelength, where there is one.
pub open spec fn base_of(base: Option<&[Single]>, wl: int) -> Option<Single> {
    match base {
        Some(b) => Some(b@[wl]),
        None => None,
    }
}

/// `r` is the spectral density of pixel `k`.
pub open spec fn is_pixel_spectrum<T: Sample, A: Arithmetic>(
    ar: &A,
    channel_density: Seq<[Single; 3]>,
    img: ImageBuf<T>,
    base: Option<&[Single]>,
    k: int,
    r: Seq<Single>,
) -> bool {
    &&& r.len() == channel_density.len()
    &&& forall|wl: int|
        0 <= wl < r.len() ==> is_single(
            ar,
            dye_density(
                img.data@[3 * k],
                img.data@[3 * k + 1],
                img.data@[3 * k + 2],
                channel_density[wl],
                base_of(base, wl),
            ),
            #[trigger] r[wl],
        )
}

fn pixel_spectrum<T: Sample, A: Arithmetic>(
    ar: &A,
    channel_density: &[[Single; 3]],
    img: &ImageBuf<T>,
    base: Option<&[Single]>,
    k: usize,
) -> (r: Vec<Single>)
    requires
        3 * k + 2 < img.data@.len(),
        base matches Some(b) ==> b@.len() >= channel_density@.len(),
    ensures
        is_pixel_spectrum(ar, channel_density@, *img, base, k as int, r@),
{
    let total: usize = img.data.len();
    assert(3 * k + 2 < total);
    let mut r: Vec<Single> = Vec::new();
    let mut wl: usize = 0;
    while wl < channel_density.len()
        invariant
            wl <= channel_density@.len(),
            3 * k + 2 < total,
            total == img.data@.len(),
            base matches Some(b) ==> b@.len() >= channel_density@.len(),
            r@.len() == wl,
            forall|j: int|
                0 <= j < wl ==> is_single(
                    ar,
                    dye_density(
                        img.data@[3 * k],
                        img.data@[3 * k + 1],
                        img.data@[3 * k + 2],
                        channel_density@[j],
                        base_of(base, j),
                    ),
                    #[trigger] r@[j],
                ),
        decreases channel_density.len() - wl,
    {
        let b: Option<Single> = match base {
            Some(s) => Some(s[wl]),
            None => None,
        };
        r.push(
            dye_density_of(
                ar,
                img.data[3 * k],
                img.data[3 * k + 1],
                img.data[3 * k + 2],
                channel_density[wl],
                b,
            ),
        );
        wl += 1;
    }
    r
}

/// The spectral density of every pixel.
pub fn compute_density_spectral<T: Sample, A: Arithmetic>(
    ar: &A,
    channel_density: &[[Single; 3]],
    density_cmy: &ImageBuf<T>,
    base_density: Option<&[Single]>,
) -> (r: Vec<Vec<Single>>)
    requires
        density_cmy.valid(),
        base_density matches Some(b) ==> b@.len() >= channel_density@.len(),
    ensures
        r@.len() == density_cmy.data@.len() / 3,
        forall|k: int|
            0 <= k < r@.len() ==> is_pixel_spectrum(
                ar,
                channel_density@,
                *density_cmy,
                base_density,
                k,
                (#[trigger] r@[k])@,
            ),
{
    let total: usize = density_cmy.data.len();
    let n: usize = total / 3;
    let mut r: Vec<Vec<Single>> = Vec::new();
    let mut k: usize = 0;
    while k < n
        invariant
            k <= n,
            3 * n == total,
            total == density_cmy.data@.len(),
            base_density matches Some(b) ==> b@.len() >= channel_density@.len(),
            r@.len() == k,
            forall|j: int|
                0 <= j < k ==> is_pixel_spectrum(
                    ar,
                    channel_density@,
                    *density_cmy,
                    base_density,
                    j,
                    (#[trigger] r@[j])@,
                ),
        decreases n - k,
    {
        let v = pixel_spectrum(ar, channel_density, density_cmy, base_density, k);
        r.push(v);
        k += 1;
    }
    r
}

/// `r` is the light that a density lets through; nothing where that is no
/// number.
pub open spec fn is_light<A: Arithmetic>(ar: &A, density: Single, light: Single, r: Single) -> bool {
    exists|t: Single| #[trigger]
        is_single(
            ar,
            times(
                power(single(Single { bits: 0x4120_0000 }), unary(Unary::Negate, single(density))),
                single(light),
            ),
            t,
        ) && r == if t.nan() {
            Single { bits: 0 }
        } else {
            t
        }
}

fn light_of<A: Arithmetic>(ar: &A, density: Single, light: Single) -> (r: Single)
    ensures
        is_light(ar, density, light, r),
{
    let ten: Traced<Single> = Traced::new(ar, Single { bits: 0x4120_0000 });
    let d: Traced<Single> = Traced::new(ar, density);
    let t = ten.power(ar, d.unary(ar, Unary::Negate)).times(ar, Traced::new(ar, light)).value;
    proof {
        assert(is_single(
            ar,
            times(
                power(single(Single { bits: 0x4120_0000 }), unary(Unary::Negate, single(density))),
                single(light),
            ),
            t,
        ));
    }
    if t.is_nan() {
        Single { bits: 0 }
    } else {
        t
    }
}

/// The light that a spectral density lets through, over the wavelengths that
/// both cover.
pub fn density_to_light<A: Arithmetic>(
    ar: &A,
    density_spectral: &[Single],
    illuminant: &[Single],
) -> (r: Vec<Single>)
    ensures
        r@.len() == if density_spectral@.len() < illuminant@.len() {
            density_spectral@.len()
        } else {
            illuminant@.len()
        },
        forall|i: int|
            0 <= i < r@.len() ==> is_light(
                ar,
                density_spectral@[i],
                illuminant@[i],
                #[trigger] r@[i],
            ),
{
    let n: usize = if density_spectral.len() < illuminant.len() {
        density_spectral.len()
    } else {
        illuminant.len()
    };
    let mut r: Vec<Single> = Vec::new();
    let mut i: usize = 0;
    while i < n
        invariant
            i <= n,
            n <= density_spectral@.len(),
            n <= illuminant@.len(),
            r@.len() == i,
            forall|k: int|
                0 <= k < i ==> is_light(
                    ar,
                    density_spectral@[k],
                    illuminant@[k],
                    #[trigger] r@[k],
                ),
        decreases n - i,
    {
        r.push(light_of(ar, density_spectral[i], illuminant[i]));
        i += 1;
    }
    r
}

// ── Curves with an axis for each channel ─────────────────────────────────

/// The table holds an axis and a column of singles.
pub open spec fn is_short_table<T: Sample, A: Arithmetic>(
    ar: &A,
    axis: Seq<Single>,
    col: Seq<Single>,
    t: CurveTable<T>,
) -> bool {
    &&& t.valid(ar)
    &&& t.axis@.len() == axis.len()
    &&& col.len() == axis.len()
    &&& forall|i: int|
        0 <= i < axis.len() ==> evaluates(
            ar,
            T::extended(single(axis[i])),
            (#[trigger] t.axis@[i]).number(),
        )
    &&& forall|i: int|
        0 <= i < axis.len() ==> evaluates(
            ar,
            T::extended(single(col[i])),
            (#[trigger] t.values@[i]).number(),
        )
}

fn extended_numbers<T: Sample, A: Arithmetic>(ar: &A, xs: &Vec<Single>) -> (r: Vec<T>)
    ensures
        r@.len() == xs@.len(),
        forall|i: int|
            0 <= i < xs@.len() ==> evaluates(
                ar,
                T::extended(single(xs@[i])),
                (#[trigger] r@[i]).number(),
            ),
{
    let mut r: Vec<T> = Vec::new();
    let mut i: usize = 0;
    while i < xs.len()
        invariant
            i <= xs@.len(),
            r@.len() == i,
            forall|k: int|
                0 <= k < i ==> evaluates(
                    ar,
                    T::extended(single(xs@[k])),
                    (#[trigger] r@[k]).number(),
                ),
        decreases xs.len() - i,
    {
        let x: Traced<Single> = Traced::new(ar, xs[i]);
        r.push(T::extend(ar, x).value);
        i += 1;
    }
    r
}

fn short_table<T: Sample, A: Arithmetic>(ar: &A, axis: &Vec<Single>, col: &Vec<Single>) -> (r:
    CurveTable<T>)
    requires
        axis@.len() == col@.len(),
        axis@.len() > 0,
    ensures
        is_short_table(ar, axis@, col@, r),
{
    let a: Vec<T> = extended_numbers(ar, axis);
    let v: Vec<T> = extended_numbers(ar, col);
    CurveTable::new(ar, a, v)
}

/// Number `i` of an image is read from the table of its channel.
pub open spec fn reads_by_channel<T: Sample, A: Arithmetic>(
    ar: &A,
    img: ImageBuf<T>,
    tables: [CurveTable<T>; 3],
    side: Side,
    r: ImageBuf<T>,
) -> bool {
    &&& r.width == img.width
    &&& r.height == img.height
    &&& r.valid()
    &&& forall|i: int|
        0 <= i < img.data@.len() ==> tables@[i % 3].gives(
            ar,
            img.data@[i],
            side,
            #[trigger] r.data@[i],
        )
}

/// Reads an image from curves of singles over one axis; a number on an axis
/// value is read from the interval below it.
pub fn fast_interp_image<T: Sample, A: Arithmetic>(
    ar: &A,
    img: &ImageBuf<T>,
    x_axis: &[Single],
    y_vals: &[[Single; 3]],
) -> (r: ImageBuf<T>)
    requires
        img.valid(),
        x_axis@.len() == y_vals@.len(),
        x_axis@.len() > 0,
    ensures
        exists|tables: [CurveTable<T>; 3]|
            {
                &&& forall|c: int|
                    0 <= c < 3 ==> is_short_table(
                        ar,
                        x_axis@,
                        column(y_vals@, c),
                        #[trigger] tables@[c],
                    )
                &&& #[trigger] reads_by_channel(ar, *img, tables, Side::Left, r)
            },
{
    let axis = vstd::slice::slice_to_vec(x_axis);
    let t0: CurveTable<T> = short_table(ar, &axis, &extract_col(y_vals, 0));
    let t1: CurveTable<T> = short_table(ar, &axis, &extract_col(y_vals, 1));
    let t2: CurveTable<T> = short_table(ar, &axis, &extract_col(y_vals, 2));
    let tables = [t0, t1, t2];
    let r = read_image(ar, img, &tables, Side::Left);
    assert(reads_by_channel(ar, *img, tables, Side::Left, r));
    r
}

/// Reads an image from curves of singles, each over an axis of its own; a
/// number on an axis value is read from the interval below it.
pub fn fast_interp_image_perchannel<T: Sample, A: Arithmetic>(
    ar: &A,
    img: &ImageBuf<T>,
    x_axes: &[[Single; 3]],
    y_vals: &[[Single; 3]],
) -> (r: ImageBuf<T>)
    requires
        img.valid(),
        x_axes@.len() == y_vals@.len(),
        x_axes@.len() > 0,
    ensures
        exists|tables: [CurveTable<T>; 3]|
            {
                &&& forall|c: int|
                    0 <= c < 3 ==> is_short_table(
                        ar,
                        column(x_axes@, c),
                        column(y_vals@, c),
                        #[trigger] tables@[c],
                    )
                &&& #[trigger] reads_by_channel(ar, *img, tables, Side::Left, r)
            },
{
    let t0: CurveTable<T> = short_table(ar, &extract_col(x_axes, 0), &extract_col(y_vals, 0));
    let t1: CurveTable<T> = short_table(ar, &extract_col(x_axes, 1), &extract_col(y_vals, 1));
    let t2: CurveTable<T> = short_table(ar, &extract_col(x_axes, 2), &extract_col(y_vals, 2));
    let tables = [t0, t1, t2];
    let r = read_image(ar, img, &tables, Side::Left);
    assert(reads_by_channel(ar, *img, tables, Side::Left, r));
    r
}

/// Reads an image from curves of doubles, each over an axis of its own; a
/// number on an axis value is read from the interval above it.
pub fn fast_interp_image_perchannel_f64<T: Sample, A: Arithmetic>(
    ar: &A,
    img: &ImageBuf<T>,
    x_axes: &[[Double; 3]],
    y_vals: &[[Double; 3]],
) -> (r: ImageBuf<T>)
    requires
        img.valid(),
        x_axes@.len() == y_vals@.len(),
        x_axes@.len() > 0,
    ensures
        exists|tables: [CurveTable<T>; 3]|
            {
                &&& forall|c: int|
                    0 <= c < 3 ==> is_table(
                        ar,
                        column(x_axes@, c),
                        column(y_vals@, c),
                        #[trigger] tables@[c],
                    )
                &&& #[trigger] reads_by_channel(ar, *img, tables, Side::Right, r)
            },
{
    let t0: CurveTable<T> = curve_table(
        ar,
        extract_col(x_axes, 0).as_slice(),
        extract_col(y_vals, 0).as_slice(),
    );
    let t1: CurveTable<T> = curve_table(
        ar,
        extract_col(x_axes, 1).as_slice(),
        extract_col(y_vals, 1).as_slice(),
    );
    let t2: CurveTable<T> = curve_table(
        ar,
        extract_col(x_axes, 2).as_slice(),
        extract_col(y_vals, 2).as_slice(),
    );
    let tables = [t0, t1, t2];
    let r = read_image(ar, img, &tables, Side::Right);
    assert(reads_by_channel(ar, *img, tables, Side::Right, r));
    r
}

// ── Development ──────────────────────────────────────────────────────────

/// `r` is an axis for a gamma: as it is where that is 1.
pub open spec fn is_short_gamma_axis<A: Arithmetic>(
    ar: &A,
    axis: Seq<Single>,
    gamma: Single,
    r: Seq<Single>,
) -> bool {
    exists|off: Single|
        {
            &&& #[trigger] is_single(
                ar,
                unary(
                    Unary::Absolute,
                    minus(single(gamma), single(Single { bits: SINGLE_ONE })),
                ),
                off,
            )
            &&& if off.below(Single { bits: 0x3586_37bd }) {
                r == axis
            } else {
                are_quotients(ar, axis, gamma, r)
            }
        }
}

/// `r` is every number over a gamma.
pub open spec fn are_quotients<A: Arithmetic>(
    ar: &A,
    axis: Seq<Single>,
    gamma: Single,
    r: Seq<Single>,
) -> bool {
    r.len() == axis.len() && forall|i: int|
        0 <= i < r.len() ==> is_single(
            ar,
            over(single(axis[i]), single(gamma)),
            #[trigger] r[i],
        )
}

fn short_gamma_axis<A: Arithmetic>(ar: &A, axis: &[Single], gamma: Single) -> (r: Vec<Single>)
    ensures
        is_short_gamma_axis(ar, axis@, gamma, r@),
        r@.len() == axis@.len(),
{
    let g: Traced<Single> = Traced::new(ar, gamma);
    let one: Traced<Single> = Traced::new(ar, Single { bits: SINGLE_ONE });
    let off = g.minus(ar, one).unary(ar, Unary::Absolute).value;
    proof {
        assert(is_single(
            ar,
            unary(
                Unary::Absolute,
                minus(single(gamma), single(Single { bits: SINGLE_ONE })),
            ),
            off,
        ));
    }
    if off.is_below(Single { bits: 0x3586_37bd }) {
        return vstd::slice::slice_to_vec(axis);
    }
    let mut r: Vec<Single> = Vec::new();
    let mut i: usize = 0;
    while i < axis.len()
        invariant
            i <= axis@.len(),
            g.holds(ar),
            g.formula@ == single(gamma),
            r@.len() == i,
            forall|k: int|
                0 <= k < i ==> is_single(
                    ar,
                    over(single(axis@[k]), single(gamma)),
                    #[trigger] r@[k],
                ),
        decreases axis.len() - i,
    {
        let x: Traced<Single> = Traced::new(ar, axis[i]);
        r.push(x.over(ar, g).value);
        i += 1;
    }
    r
}

/// `r` is a log exposure read from curves of singles, for a gamma.
pub open spec fn is_short_density<T: Sample, A: Arithmetic>(
    ar: &A,
    log_raw: ImageBuf<T>,
    curves: Seq<[Single; 3]>,
    axis: Seq<Single>,
    gamma: Single,
    r: ImageBuf<T>,
) -> bool {
    exists|drawn: Seq<Single>, tables: [CurveTable<T>; 3]|
        {
            &&& #[trigger] is_short_gamma_axis(ar, axis, gamma, drawn)
            &&& forall|c: int|
                0 <= c < 3 ==> is_short_table(ar, drawn, column(curves, c), #[trigger] tables@[c])
            &&& #[trigger] reads_by_channel(ar, log_raw, tables, Side::Left, r)
        }
}

/// The density of a log exposure, from curves of singles.
pub fn interpolate_exposure_to_density<T: Sample, A: Arithmetic>(
    ar: &A,
    log_raw: &ImageBuf<T>,
    density_curves: &[[Single; 3]],
    log_exposure: &[Single],
    gamma: Single,
) -> (r: ImageBuf<T>)
    requires
        log_raw.valid(),
        log_exposure@.len() == density_curves@.len(),
        log_exposure@.len() > 0,
    ensures
        is_short_density(ar, *log_raw, density_curves@, log_exposure@, gamma, r),
{
    let axis = short_gamma_axis(ar, log_exposure, gamma);
    let r = fast_interp_image(ar, log_raw, axis.as_slice(), density_curves);
    assert(is_short_gamma_axis(ar, log_exposure@, gamma, axis@));
    r
}

/// Develops a log exposure with curves of singles, without their lowest
/// density.
pub fn develop_simple<T: Sample, A: Arithmetic>(
    ar: &A,
    log_raw: &ImageBuf<T>,
    log_exposure: &[Single],
    density_curves: &[[Single; 3]],
    gamma: Single,
) -> (r: ImageBuf<T>)
    requires
        log_raw.valid(),
        log_exposure@.len() == density_curves@.len(),
        log_exposure@.len() > 0,
    ensures
        exists|low: [Single; 3], norm: Seq<[Single; 3]>| #[trigger]
            single_normalized(ar, density_curves@, low, norm) && is_short_density(
                ar,
                *log_raw,
                norm,
                log_exposure@,
                gamma,
                r,
            ),
{
    let norm = normalize_density_curves(ar, density_curves);
    let ghost low = choose|low: [Single; 3]| single_normalized(ar, density_curves@, low, norm@);
    assert(single_normalized(ar, density_curves@, low, norm@));
    interpolate_exposure_to_density(ar, log_raw, norm.as_slice(), log_exposure, gamma)
}

} // verus!
