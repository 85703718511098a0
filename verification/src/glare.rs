//! Viewing glare: light that the surface of a print reflects.

use vstd::prelude::*;

use crate::arith::{constant, double, evaluates, is_double, minus, over, plus, single, times, unary};
use crate::arith::{whole_power, widen, Arithmetic, Formula, Sample, Traced, Unary};
use crate::bits::{Double, Single};
use crate::density_curves::ONE;
use crate::gaussian::{fixed, fixed_number, gaussian_blur_channel, is_blurred};
use crate::image::{pixels_of, ImageBuf};
use crate::interp::num;
use crate::pchip::{HALF, TWO};

verus! {

/// Encoding of 0.01.
pub const ONE_HUNDREDTH: u64 = 0x3f84_7ae1_47ae_147b;

/// Seed of the glare of a scan.
pub const GLARE_SEED: u64 = 42;

// ── The distribution ─────────────────────────────────────────────────────

/// Square of the width of the logarithm: `ln(1 + s^2 / m^2)`, where `m` is
/// the mean and `s` the deviation of the glare.
pub open spec fn log_variance(percent: Single, roughness: Single) -> Formula {
    let m = widen(single(percent));
    let s = widen(times(single(roughness), single(percent)));
    unary(Unary::Ln, plus(constant(ONE), over(times(s, s), times(m, m))))
}

/// Width of the logarithm.
pub open spec fn log_width(percent: Single, roughness: Single) -> Formula {
    unary(Unary::SquareRoot, log_variance(percent, roughness))
}

/// Mean of the logarithm: `ln(m) - ln(1 + s^2 / m^2) / 2`.
pub open spec fn log_mean(percent: Single, roughness: Single) -> Formula {
    minus(
        unary(Unary::Ln, widen(single(percent))),
        over(log_variance(percent, roughness), constant(TWO)),
    )
}

/// The mean and the width of the logarithm of the glare.
pub fn glare_distribution<A: Arithmetic>(ar: &A, percent: Single, roughness: Single) -> (r: (
    Traced<Double>,
    Traced<Double>,
))
    ensures
        r.0.holds(ar),
        r.0.formula@ == log_mean(percent, roughness),
        r.1.holds(ar),
        r.1.formula@ == log_width(percent, roughness),
{
    let p: Traced<Single> = Traced::new(ar, percent);
    let q: Traced<Single> = Traced::new(ar, roughness);
    let m = p.widen(ar);
    let s = q.times(ar, p).widen(ar);
    let one: Traced<Double> = Traced::constant(ar, ONE);
    let two: Traced<Double> = Traced::constant(ar, TWO);
    let v = one.plus(ar, s.times(ar, s).over(ar, m.times(ar, m))).unary(ar, Unary::Ln);
    (m.unary(ar, Unary::Ln).minus(ar, v.over(ar, two)), v.unary(ar, Unary::SquareRoot))
}

// ── The glare of every pixel ─────────────────────────────────────────────

/// `r` holds the numbers at the precision of an image.
pub open spec fn are_stored<T: Sample, A: Arithmetic>(ar: &A, xs: Seq<Double>, r: Seq<T>) -> bool {
    r.len() == xs.len() && forall|i: int|
        0 <= i < r.len() ==> evaluates(
            ar,
            T::stored(double(xs[i])),
            (#[trigger] r[i]).number(),
        )
}

fn stored_samples<T: Sample, A: Arithmetic>(ar: &A, xs: &Vec<Double>) -> (r: Vec<T>)
    ensures
        are_stored(ar, xs@, r@),
{
    let mut r: Vec<T> = Vec::new();
    let mut i: usize = 0;
    while i < xs.len()
        invariant
            i <= xs@.len(),
            r@.len() == i,
            forall|k: int|
                0 <= k < i ==> evaluates(
                    ar,
                    T::stored(double(xs@[k])),
                    (#[trigger] r@[k]).number(),
                ),
        decreases xs.len() - i,
    {
        let x: Traced<Double> = Traced::new(ar, xs[i]);
        r.push(T::store(ar, x).value);
        i += 1;
    }
    r
}

/// A field after its blur; without a width it stays.
pub open spec fn is_softened<T: Sample, A: Arithmetic>(
    ar: &A,
    width: u32,
    height: u32,
    blur: Single,
    field: Seq<T>,
    r: Seq<T>,
) -> bool {
    if (Single { bits: 0 }).below(blur) {
        is_blurred(ar, width as nat, height as nat, blur, field, r)
    } else {
        r == field
    }
}

/// `r` is a hundredth of each number.
pub open spec fn are_hundredths<T: Sample, A: Arithmetic>(ar: &A, xs: Seq<T>, r: Seq<T>) -> bool {
    r.len() == xs.len() && forall|i: int|
        0 <= i < r.len() ==> evaluates(
            ar,
            times(num(xs[i]), fixed::<T>(ONE_HUNDREDTH)),
            (#[trigger] r[i]).number(),
        )
}

fn hundredths<T: Sample, A: Arithmetic>(ar: &A, xs: &Vec<T>) -> (r: Vec<T>)
    ensures
        are_hundredths(ar, xs@, r@),
{
    let mut r: Vec<T> = Vec::new();
    let mut i: usize = 0;
    while i < xs.len()
        invariant
            i <= xs@.len(),
            r@.len() == i,
            forall|k: int|
                0 <= k < i ==> evaluates(
                    ar,
                    times(num(xs@[k]), fixed::<T>(ONE_HUNDREDTH)),
                    (#[trigger] r@[k]).number(),
                ),
        decreases xs.len() - i,
    {
        let x: Traced<T> = Traced::new(ar, xs[i]);
        let k: Traced<T> = fixed_number(ar, ONE_HUNDREDTH);
        r.push(x.times(ar, k).value);
        i += 1;
    }
    r
}

/// The samples behind a glare can be drawn: `draw` takes the mean and the
/// width of the logarithm, a seed and a count.
pub open spec fn draws_counted<D: Fn(Double, Double, u64, usize) -> Vec<Double>>(draw: D) -> bool {
    &&& forall|mu: Double, sigma: Double, seed: u64, n: usize|
        #[trigger] call_requires(draw, (mu, sigma, seed, n))
    &&& forall|mu: Double, sigma: Double, seed: u64, n: usize, r: Vec<Double>|
        #[trigger] call_ensures(draw, (mu, sigma, seed, n), r) ==> r@.len() == n
}

/// The sides can be counted through, and so can the numbers of an image.
pub open spec fn image_fits(width: u32, height: u32) -> bool {
    &&& 3 * pixels_of(width, height) <= usize::MAX
    &&& width <= isize::MAX
    &&& height <= isize::MAX
}

/// `r` is the glare of every pixel: samples, blurred, in hundredths; nothing
/// where the mean is not above 0.
pub open spec fn is_glare_amount<
    T: Sample,
    A: Arithmetic,
    D: Fn(Double, Double, u64, usize) -> Vec<Double>,
>(
    ar: &A,
    width: u32,
    height: u32,
    percent: Single,
    roughness: Single,
    blur: Single,
    seed: u64,
    draw: D,
    r: Seq<T>,
) -> bool {
    let n = pixels_of(width, height);
    if percent.at_most(Single { bits: 0 }) {
        r == Seq::new(n as nat, |i: int| T::zero_value())
    } else {
        exists|mu: Double, sigma: Double, xs: Vec<Double>, field: Seq<T>, soft: Seq<T>|
            {
                &&& is_double(ar, log_mean(percent, roughness), mu)
                &&& is_double(ar, log_width(percent, roughness), sigma)
                &&& #[trigger] call_ensures(draw, (mu, sigma, seed, n as usize), xs)
                &&& #[trigger] are_stored(ar, xs@, field)
                &&& #[trigger] is_softened(ar, width, height, blur, field, soft)
                &&& are_hundredths(ar, soft, r)
            }
    }
}

fn zeros<T: Sample>(n: usize) -> (r: Vec<T>)
    ensures
        r@ == Seq::new(n as nat, |i: int| T::zero_value()),
{
    let mut r: Vec<T> = Vec::new();
    let mut i: usize = 0;
    while i < n
        invariant
            i <= n,
            r@.len() == i,
            forall|k: int| 0 <= k < i ==> #[trigger] r@[k] == T::zero_value(),
        decreases n - i,
    {
        r.push(T::zero());
        i += 1;
    }
    assert(r@ =~= Seq::new(n as nat, |i: int| T::zero_value()));
    r
}

fn softened<T: Sample, A: Arithmetic>(
    ar: &A,
    width: u32,
    height: u32,
    blur: Single,
    field: Vec<T>,
) -> (r: Vec<T>)
    requires
        image_fits(width, height),
        field@.len() == pixels_of(width, height),
    ensures
        is_softened(ar, width, height, blur, field@, r@),
        r@.len() == field@.len(),
{
    let none = Single { bits: 0 };
    if none.is_below(blur) {
        gaussian_blur_channel(ar, &field, width, height, blur)
    } else {
        field
    }
}

/// The glare of every pixel, from samples that `draw` gives.
pub fn compute_random_glare_amount<
    T: Sample,
    A: Arithmetic,
    D: Fn(Double, Double, u64, usize) -> Vec<Double>,
>(
    ar: &A,
    width: u32,
    height: u32,
    percent: Single,
    roughness: Single,
    blur: Single,
    seed: u64,
    draw: &D,
) -> (r: Vec<T>)
    requires
        image_fits(width, height),
        draws_counted(*draw),
    ensures
        is_glare_amount(ar, width, height, percent, roughness, blur, seed, *draw, r@),
        r@.len() == pixels_of(width, height),
{
    assert(0 <= pixels_of(width, height)) by (nonlinear_arith)
        requires
            pixels_of(width, height) == width * height,
            0 <= width,
            0 <= height,
    ;
    let n: usize = (width as usize) * (height as usize);
    if percent.is_at_most(Single { bits: 0 }) {
        return zeros(n);
    }
    let (mu, sigma) = glare_distribution(ar, percent, roughness);
    let xs = draw(mu.value, sigma.value, seed, n);
    let field: Vec<T> = stored_samples(ar, &xs);
    let ghost kept = field@;
    let soft = softened(ar, width, height, blur, field);
    let r = hundredths(ar, &soft);
    proof {
        assert(call_ensures(*draw, (mu.value, sigma.value, seed, n), xs));
        assert(are_stored(ar, xs@, kept));
        assert(is_softened(ar, width, height, blur, kept, soft@));
    }
    r
}

/// A number with glare on it.
pub open spec fn glared<T: Sample>(x: T, g: T, offset: T) -> Formula {
    plus(num(x), times(num(g), num(offset)))
}

/// `r` is an image with glare on it: the glare of a pixel times the colour of
/// the light.
pub open spec fn is_glared<T: Sample, A: Arithmetic>(
    ar: &A,
    image: ImageBuf<T>,
    amount: Seq<T>,
    offset: [T; 3],
    r: ImageBuf<T>,
) -> bool {
    &&& r.width == image.width
    &&& r.height == image.height
    &&& r.data@.len() == image.data@.len()
    &&& forall|i: int|
        0 <= i < image.data@.len() ==> evaluates(
            ar,
            glared(image.data@[i], amount[i / 3], offset@[i % 3]),
            (#[trigger] r.data@[i]).number(),
        )
}

/// Adds the glare of every pixel, in the colour `space_offset`.
pub fn add_glare_with_amount<T: Sample, A: Arithmetic>(
    ar: &A,
    image: &ImageBuf<T>,
    glare_amount: &Vec<T>,
    space_offset: [T; 3],
) -> (r: ImageBuf<T>)
    requires
        image.valid(),
        glare_amount@.len() == pixels_of(image.width, image.height),
    ensures
        is_glared(ar, *image, glare_amount@, space_offset, r),
{
    let mut data: Vec<T> = Vec::new();
    let mut i: usize = 0;
    while i < image.data.len()
        invariant
            i <= image.data@.len(),
            image.data@.len() == 3 * glare_amount@.len(),
            data@.len() == i,
            forall|k: int|
                0 <= k < i ==> evaluates(
                    ar,
                    glared(image.data@[k], glare_amount@[k / 3], space_offset@[k % 3]),
                    (#[trigger] data@[k]).number(),
                ),
        decreases image.data.len() - i,
    {
        let x: Traced<T> = Traced::new(ar, image.data[i]);
        let g: Traced<T> = Traced::new(ar, glare_amount[i / 3]);
        let o: Traced<T> = Traced::new(ar, space_offset[i % 3]);
        data.push(x.plus(ar, g.times(ar, o)).value);
        i += 1;
    }
    ImageBuf { width: image.width, height: image.height, data }
}

// ── Glare on XYZ ─────────────────────────────────────────────────────────

/// `ln(1 + (s / m)^2)`, where `s` is the deviation and `m` the mean.
pub open spec fn relative_variance(percent: Single, roughness: Single) -> Formula {
    let s = widen(times(single(roughness), single(percent)));
    unary(Unary::LnOnePlus, whole_power(over(s, widen(single(percent))), 2))
}

/// Mean of the logarithm.
pub open spec fn relative_mean(percent: Single, roughness: Single) -> Formula {
    minus(
        unary(Unary::Ln, widen(single(percent))),
        times(constant(HALF), relative_variance(percent, roughness)),
    )
}

/// Width of the logarithm.
pub open spec fn relative_width(percent: Single, roughness: Single) -> Formula {
    unary(Unary::SquareRoot, relative_variance(percent, roughness))
}

/// `r` is an XYZ image with the glare of an illuminant on it.
pub open spec fn is_glared_xyz<
    T: Sample,
    A: Arithmetic,
    D: Fn(Double, Double, u64, usize) -> Vec<Double>,
>(
    ar: &A,
    xyz: ImageBuf<T>,
    illuminant_xyz: [Single; 3],
    percent: Single,
    roughness: Single,
    blur: Single,
    draw: D,
    r: ImageBuf<T>,
) -> bool {
    let n = pixels_of(xyz.width, xyz.height);
    if percent.at_most(Single { bits: 0 }) {
        r == xyz
    } else {
        exists|
            mu: Double,
            sigma: Double,
            xs: Vec<Double>,
            field: Seq<T>,
            soft: Seq<T>,
            amount: Seq<T>,
            offset: [T; 3],
        |
            {
                &&& is_double(ar, relative_mean(percent, roughness), mu)
                &&& is_double(ar, relative_width(percent, roughness), sigma)
                &&& #[trigger] call_ensures(draw, (mu, sigma, GLARE_SEED, n as usize), xs)
                &&& #[trigger] are_stored(ar, xs@, field)
                &&& #[trigger] is_softened(ar, xyz.width, xyz.height, blur, field, soft)
                &&& are_hundredths(ar, soft, amount)
                &&& forall|c: int|
                    0 <= c < 3 ==> evaluates(
                        ar,
                        T::extended(single(illuminant_xyz@[c])),
                        (#[trigger] offset@[c]).number(),
                    )
                &&& #[trigger] is_glared(ar, xyz, amount, offset, r)
            }
    }
}

fn extended<T: Sample, A: Arithmetic>(ar: &A, x: Single) -> (r: T)
    ensures
        evaluates(ar, T::extended(single(x)), r.number()),
{
    let v: Traced<Single> = Traced::new(ar, x);
    T::extend(ar, v).value
}

/// Adds viewing glare to an XYZ image.
pub fn add_glare<T: Sample, A: Arithmetic, D: Fn(Double, Double, u64, usize) -> Vec<Double>>(
    ar: &A,
    xyz: ImageBuf<T>,
    illuminant_xyz: [Single; 3],
    percent: Single,
    roughness: Single,
    blur: Single,
    draw: &D,
) -> (r: ImageBuf<T>)
    requires
        xyz.valid(),
        image_fits(xyz.width, xyz.height),
        draws_counted(*draw),
    ensures
        is_glared_xyz(ar, xyz, illuminant_xyz, percent, roughness, blur, *draw, r),
{
    if percent.is_at_most(Single { bits: 0 }) {
        return xyz;
    }
    assert(0 <= pixels_of(xyz.width, xyz.height)) by (nonlinear_arith)
        requires
            pixels_of(xyz.width, xyz.height) == xyz.width * xyz.height,
            0 <= xyz.width,
            0 <= xyz.height,
    ;
    let n: usize = (xyz.width as usize) * (xyz.height as usize);
    let p: Traced<Single> = Traced::new(ar, percent);
    let q: Traced<Single> = Traced::new(ar, roughness);
    let s = q.times(ar, p).widen(ar);
    let ratio = s.over(ar, p.widen(ar));
    let v = ratio.unary(ar, Unary::WholePower(2)).unary(ar, Unary::LnOnePlus);
    let half: Traced<Double> = Traced::constant(ar, HALF);
    let mu = p.widen(ar).unary(ar, Unary::Ln).minus(ar, half.times(ar, v));
    let sigma = v.unary(ar, Unary::SquareRoot);
    let xs = draw(mu.value, sigma.value, GLARE_SEED, n);
    let field: Vec<T> = stored_samples(ar, &xs);
    let ghost kept = field@;
    let soft = softened(ar, xyz.width, xyz.height, blur, field);
    let amount = hundredths(ar, &soft);
    let offset = [
        extended(ar, illuminant_xyz[0]),
        extended(ar, illuminant_xyz[1]),
        extended(ar, illuminant_xyz[2]),
    ];
    let r = add_glare_with_amount(ar, &xyz, &amount, offset);
    proof {
        assert(call_ensures(*draw, (mu.value, sigma.value, GLARE_SEED, n), xs));
        assert(are_stored(ar, xs@, kept));
        assert(is_softened(ar, xyz.width, xyz.height, blur, kept, soft@));
        assert(is_glared(ar, xyz, amount@, offset, r));
    }
    r
}

/// Where there is no glare there is nothing to add.
pub proof fn lemma_no_glare<
    T: Sample,
    A: Arithmetic,
    D: Fn(Double, Double, u64, usize) -> Vec<Double>,
>(
    ar: &A,
    xyz: ImageBuf<T>,
    illuminant_xyz: [Single; 3],
    percent: Single,
    roughness: Single,
    blur: Single,
    draw: D,
    r: ImageBuf<T>,
)
    requires
        percent.at_most(Single { bits: 0 }),
        is_glared_xyz(ar, xyz, illuminant_xyz, percent, roughness, blur, draw, r),
    ensures
        r == xyz,
{
}

} // verus!
