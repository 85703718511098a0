//! Light that strays: scatter in the emulsion, halation behind it, blur and
//! sharpening.

use vstd::prelude::*;

use crate::arith::{Arithmetic, Formula, Sample, Traced, Unary};
use crate::arith::{constant, double, evaluates, is_double, is_single, larger, minus, narrow, over};
use crate::arith::{plus, single, sum_from, times, unary, whole_power, widen};
use crate::bits::{Double, Single};
use crate::couplers::{mix_planes, mixture};
use crate::density_curves::ONE;
use crate::gaussian::{exponential_filter_channel, gaussian_blur_channel, is_blurred};
use crate::gaussian::{fixed, is_exponential};
use crate::image::{channel_of, ImageBuf};
use crate::interp::num;
use crate::params::HalationParams;

verus! {

/// Encoding of 1e-6, the smallest width that is blurred by.
pub const SMALLEST_WIDTH: u64 = 0x3eb0_c6f7_a0b5_ed8d;

// ── Sharpening and blurs in micrometres ──────────────────────────────────

/// `o + amount * (o - b)`.
pub open spec fn sharpened<T: Sample>(o: T, b: T, amount: Single) -> Formula {
    plus(num(o), times(T::extended(single(amount)), minus(num(o), num(b))))
}

/// An unsharp mask is applied.
pub open spec fn sharpens(sigma: Single, amount: Single) -> bool {
    !sigma.at_most(Single { bits: 0 }) && !amount.at_most(Single { bits: 0 })
}

/// Sharpens an image by what a blur, `blur`, takes from it. Without a width
/// or an amount the image stays.
pub fn apply_unsharp_mask<T: Sample, A: Arithmetic, B: Fn(&ImageBuf<T>, Single) -> ImageBuf<T>>(
    ar: &A,
    image: ImageBuf<T>,
    sigma: Single,
    amount: Single,
    blur: B,
) -> (r: ImageBuf<T>)
    requires
        image.valid(),
        call_requires(blur, (&image, sigma)),
        forall|b: ImageBuf<T>|
            call_ensures(blur, (&image, sigma), b) ==> b.data@.len() == image.data@.len(),
    ensures
        r.width == image.width,
        r.height == image.height,
        r.valid(),
        if sharpens(sigma, amount) {
            exists|b: ImageBuf<T>| #[trigger]
                call_ensures(blur, (&image, sigma), b) && forall|i: int|
                    0 <= i < image.data@.len() ==> evaluates(
                        ar,
                        sharpened(image.data@[i], b.data@[i], amount),
                        (#[trigger] r.data@[i]).number(),
                    )
        } else {
            r.data@ == image.data@
        },
{
    let zero = Single { bits: 0 };
    if sigma.is_at_most(zero) || amount.is_at_most(zero) {
        return image;
    }
    let b = blur(&image, sigma);
    let mut data: Vec<T> = Vec::new();
    let mut i: usize = 0;
    while i < image.data.len()
        invariant
            i <= image.data@.len(),
            b.data@.len() == image.data@.len(),
            data@.len() == i,
            forall|k: int|
                0 <= k < i ==> evaluates(
                    ar,
                    sharpened(image.data@[k], b.data@[k], amount),
                    (#[trigger] data@[k]).number(),
                ),
        decreases image.data.len() - i,
    {
        let given: Traced<Single> = Traced::new(ar, amount);
        let share: Traced<T> = T::extend(ar, given);
        let o: Traced<T> = Traced::new(ar, image.data[i]);
        let p: Traced<T> = Traced::new(ar, b.data[i]);
        data.push(o.plus(ar, share.times(ar, o.minus(ar, p))).value);
        i += 1;
    }
    ImageBuf { width: image.width, height: image.height, data }
}

/// The width in pixels of a blur in micrometres.
pub open spec fn pixel_width(sigma_um: Single, pixel_size_um: Single) -> Formula {
    over(single(sigma_um), single(pixel_size_um))
}

/// Blurs by a width in micrometres, with `blur`; a width of at most 0 leaves
/// the image.
pub fn apply_gaussian_blur_um<T: Sample, A: Arithmetic, B: Fn(&ImageBuf<T>, Single) -> ImageBuf<T>>(
    ar: &A,
    image: ImageBuf<T>,
    sigma_um: Single,
    pixel_size_um: Single,
    blur: B,
) -> (r: ImageBuf<T>)
    requires
        forall|s: Single| #[trigger] call_requires(blur, (&image, s)),
    ensures
        exists|s: Single| #[trigger]
            is_single(ar, pixel_width(sigma_um, pixel_size_um), s) && if (Single {
                bits: 0,
            }).below(s) {
                call_ensures(blur, (&image, s), r)
            } else {
                r == image
            },
{
    let um: Traced<Single> = Traced::new(ar, sigma_um);
    let s = um.over(ar, Traced::new(ar, pixel_size_um)).value;
    assert(is_single(ar, pixel_width(sigma_um, pixel_size_um), s));
    let zero = Single { bits: 0 };
    if zero.is_below(s) {
        blur(&image, s)
    } else {
        image
    }
}

// ── Scatter ──────────────────────────────────────────────────────────────

/// A length in pixels, scaled.
pub open spec fn scaled_width(um: Double, scale: Double, pixel_size_um: Single) -> Formula {
    over(times(double(um), double(scale)), widen(single(pixel_size_um)))
}

fn width_of<A: Arithmetic>(ar: &A, um: Double, scale: Double, pixel_size_um: Single) -> (r: Double)
    ensures
        is_double(ar, scaled_width(um, scale, pixel_size_um), r),
{
    let u: Traced<Double> = Traced::new(ar, um);
    let p: Traced<Single> = Traced::new(ar, pixel_size_um);
    u.times(ar, Traced::new(ar, scale)).over(ar, p.widen(ar)).value
}

/// A width that is blurred by: not below the smallest one.
pub open spec fn blur_width(w: Formula) -> Formula {
    narrow(larger(w, constant(SMALLEST_WIDTH)))
}

fn usable_width<A: Arithmetic>(ar: &A, w: Traced<Double>) -> (r: Single)
    requires
        w.holds(ar),
    ensures
        is_single(ar, blur_width(w.formula@), r),
{
    w.larger(ar, Traced::constant(ar, SMALLEST_WIDTH)).narrow(ar).value
}

/// `r` is a channel mixed with its scattered light: a core and a tail.
pub open spec fn is_scatter<T: Sample, A: Arithmetic>(
    ar: &A,
    w: nat,
    h: nat,
    core_px: Double,
    tail_px: Double,
    tail_weight: Double,
    amount: Double,
    before: Seq<T>,
    r: Seq<T>,
) -> bool {
    r.len() == before.len() && exists|s: Single, l: Single, core: Seq<T>, tail: Seq<T>, mixed: Seq<
        T,
    >|
        {
            &&& is_single(ar, blur_width(double(core_px)), s)
            &&& is_single(ar, blur_width(double(tail_px)), l)
            &&& #[trigger] is_blurred(ar, w, h, s, before, core)
            &&& #[trigger] is_exponential(ar, w, h, l, before, tail)
            &&& #[trigger] is_mix(ar, tail_weight, core, tail, mixed)
            &&& is_mix(ar, amount, before, mixed, r)
        }
}

/// `r` mixes two planes.
pub open spec fn is_mix<T: Sample, A: Arithmetic>(
    ar: &A,
    weight: Double,
    a: Seq<T>,
    b: Seq<T>,
    r: Seq<T>,
) -> bool {
    r.len() == a.len() && forall|i: int|
        0 <= i < r.len() ==> evaluates(
            ar,
            mixture(weight, a[i], b[i]),
            (#[trigger] r[i]).number(),
        )
}

/// The scatter of one channel: nothing where neither the core nor the tail
/// has a width.
pub open spec fn is_scattered<T: Sample, A: Arithmetic>(
    ar: &A,
    w: nat,
    h: nat,
    p: HalationParams,
    pixel_size_um: Single,
    c: int,
    before: Seq<T>,
    r: Seq<T>,
) -> bool {
    if !(Double { bits: 0 }).below(p.scatter_amount) {
        r == before
    } else {
        exists|core_px: Double, tail_px: Double|
            {
                &&& #[trigger] is_double(
                    ar,
                    scaled_width(p.scatter_core_um@[c], p.scatter_spatial_scale, pixel_size_um),
                    core_px,
                )
                &&& #[trigger] is_double(
                    ar,
                    scaled_width(p.scatter_tail_um@[c], p.scatter_spatial_scale, pixel_size_um),
                    tail_px,
                )
                &&& if core_px.at_most(Double { bits: 0 }) && tail_px.at_most(
                    Double { bits: 0 },
                ) {
                    r == before
                } else {
                    is_scatter(
                        ar,
                        w,
                        h,
                        core_px,
                        tail_px,
                        p.scatter_tail_weight@[c],
                        p.scatter_amount,
                        before,
                        r,
                    )
                }
            }
    }
}

fn scattered<T: Sample, A: Arithmetic>(
    ar: &A,
    plane: Vec<T>,
    w: u32,
    h: u32,
    p: &HalationParams,
    pixel_size_um: Single,
    c: usize,
) -> (r: Vec<T>)
    requires
        plane@.len() == w * h,
        w <= isize::MAX,
        h <= isize::MAX,
        c < 3,
    ensures
        r@.len() == plane@.len(),
        is_scattered(ar, w as nat, h as nat, *p, pixel_size_um, c as int, plane@, r@),
{
    let zero = Double { bits: 0 };
    if !zero.is_below(p.scatter_amount) {
        return plane;
    }
    let core_px = width_of(ar, p.scatter_core_um[c], p.scatter_spatial_scale, pixel_size_um);
    let tail_px = width_of(ar, p.scatter_tail_um[c], p.scatter_spatial_scale, pixel_size_um);
    if core_px.is_at_most(zero) && tail_px.is_at_most(zero) {
        return plane;
    }
    let s = usable_width(ar, Traced::new(ar, core_px));
    let l = usable_width(ar, Traced::new(ar, tail_px));
    let core = gaussian_blur_channel(ar, &plane, w, h, s);
    let tail = exponential_filter_channel(ar, &plane, w, h, l);
    let mixed = mix_planes(ar, p.scatter_tail_weight[c], &core, &tail);
    let r = mix_planes(ar, p.scatter_amount, &plane, &mixed);
    proof {
        assert(is_mix(ar, p.scatter_tail_weight@[c as int], core@, tail@, mixed@));
        assert(is_mix(ar, p.scatter_amount, plane@, mixed@, r@));
        assert(is_blurred(ar, w as nat, h as nat, s, plane@, core@));
        assert(is_exponential(ar, w as nat, h as nat, l, plane@, tail@));
        assert(is_scatter(
            ar,
            w as nat,
            h as nat,
            core_px,
            tail_px,
            p.scatter_tail_weight@[c as int],
            p.scatter_amount,
            plane@,
            r@,
        ));
    }
    r
}

// ── Halation ─────────────────────────────────────────────────────────────

/// Strength of the halation of a channel.
pub open spec fn total_strength(p: HalationParams, c: int) -> Formula {
    times(double(p.halation_strength@[c]), double(p.halation_amount))
}

/// The strengths of the three channels.
pub open spec fn are_strengths<A: Arithmetic>(ar: &A, p: HalationParams, a: [Double; 3]) -> bool {
    &&& is_double(ar, total_strength(p, 0), a@[0])
    &&& is_double(ar, total_strength(p, 1), a@[1])
    &&& is_double(ar, total_strength(p, 2), a@[2])
}

/// Halation takes place: there is a bounce, and some channel has a strength.
pub open spec fn halates(p: HalationParams, a: [Double; 3]) -> bool {
    let zero = Double { bits: 0 };
    p.halation_n_bounces >= 1 && (zero.below(a@[0]) || zero.below(a@[1]) || zero.below(a@[2]))
}

/// Doubles added up from zero.
pub open spec fn total_of(xs: Seq<Double>) -> Formula {
    sum_from(constant(0), |k: int| double(xs[k]), xs.len() as int)
}

/// The shares of the bounces: powers of the decay, divided by their sum.
pub open spec fn are_shares<A: Arithmetic>(ar: &A, p: HalationParams, d: Seq<Double>) -> bool {
    exists|powers: Seq<Double>, whole: Double|
        {
            &&& powers.len() == p.halation_n_bounces
            &&& forall|k: int|
                0 <= k < powers.len() ==> is_double(
                    ar,
                    whole_power(double(p.halation_bounce_decay), k as u32),
                    #[trigger] powers[k],
                )
            &&& #[trigger] is_double(ar, total_of(powers), whole)
            &&& d.len() == powers.len()
            &&& forall|k: int|
                0 <= k < powers.len() ==> is_double(
                    ar,
                    over(double(powers[k]), double(whole)),
                    #[trigger] d[k],
                )
        }
}

/// The shares of the bounces.
pub fn bounce_shares<A: Arithmetic>(ar: &A, p: &HalationParams) -> (r: Vec<Double>)
    ensures
        are_shares(ar, *p, r@),
        r@.len() == p.halation_n_bounces,
{
    let n: u32 = p.halation_n_bounces;
    let rho: Traced<Double> = Traced::new(ar, p.halation_bounce_decay);
    let mut powers: Vec<Double> = Vec::new();
    let mut k: u32 = 0;
    while k < n
        invariant
            k <= n,
            powers@.len() == k,
            rho.holds(ar),
            rho.formula@ == double(p.halation_bounce_decay),
            forall|j: int|
                0 <= j < k ==> is_double(
                    ar,
                    whole_power(double(p.halation_bounce_decay), j as u32),
                    #[trigger] powers@[j],
                ),
        decreases n - k,
    {
        let v = rho.unary(ar, Unary::WholePower(k));
        powers.push(v.value);
        k += 1;
    }
    let ghost term = |j: int| double(powers@[j]);
    let mut sum: Traced<Double> = Traced::constant(ar, 0);
    let mut i: usize = 0;
    while i < powers.len()
        invariant
            i <= powers@.len(),
            sum.holds(ar),
            term == (|j: int| double(powers@[j])),
            sum.formula@ == sum_from(constant(0), term, i as int),
        decreases powers.len() - i,
    {
        sum = sum.plus(ar, Traced::new(ar, powers[i]));
        i += 1;
    }
    let mut r: Vec<Double> = Vec::new();
    let mut j: usize = 0;
    while j < powers.len()
        invariant
            j <= powers@.len(),
            r@.len() == j,
            forall|q: int|
                0 <= q < j ==> is_double(
                    ar,
                    over(double(powers@[q]), double(sum.value)),
                    #[trigger] r@[q],
                ),
        decreases powers.len() - j,
    {
        let v: Traced<Double> = Traced::new(ar, powers[j]);
        r.push(v.over(ar, Traced::new(ar, sum.value)).value);
        j += 1;
    }
    proof {
        assert(is_double(ar, total_of(powers@), sum.value));
    }
    r
}

/// Width of a bounce: the first width times the root of its number, counted
/// from 1.
pub open spec fn bounce_width(first_px: Double, k: int) -> Formula {
    blur_width(
        times(
            double(first_px),
            unary(Unary::SquareRoot, plus(Formula::Whole(k as u64), constant(ONE))),
        ),
    )
}

/// `b` holds a channel blurred for each bounce.
pub open spec fn are_bounces<T: Sample, A: Arithmetic>(
    ar: &A,
    w: nat,
    h: nat,
    first_px: Double,
    n: nat,
    plane: Seq<T>,
    b: Seq<Seq<T>>,
) -> bool {
    &&& b.len() == n
    &&& forall|k: int|
        0 <= k < n ==> #[trigger] is_bounce(ar, w, h, first_px, k, plane, b[k])
}

pub open spec fn is_bounce<T: Sample, A: Arithmetic>(
    ar: &A,
    w: nat,
    h: nat,
    first_px: Double,
    k: int,
    plane: Seq<T>,
    b: Seq<T>,
) -> bool {
    b.len() == plane.len() && exists|s: Single| #[trigger]
        is_single(ar, bounce_width(first_px, k), s) && is_blurred(ar, w, h, s, plane, b)
}

/// The bounces at one pixel, added up with their shares.
pub open spec fn bounce_sum<T: Sample>(d: Seq<Double>, b: Seq<Seq<T>>, i: int, n: int) -> Formula {
    sum_from(num(T::zero_value()), |k: int| times(T::stored(double(d[k])), num(b[k][i])), n)
}

/// `r` is a channel with its bounces added, by a strength.
pub open spec fn is_bounced<T: Sample, A: Arithmetic>(
    ar: &A,
    strength: Double,
    d: Seq<Double>,
    b: Seq<Seq<T>>,
    plane: Seq<T>,
    r: Seq<T>,
) -> bool {
    r.len() == plane.len() && forall|i: int|
        0 <= i < r.len() ==> evaluates(
            ar,
            plus(
                num(plane[i]),
                times(T::stored(double(strength)), bounce_sum(d, b, i, d.len() as int)),
            ),
            (#[trigger] r[i]).number(),
        )
}

/// The halation of one channel: nothing without a strength or a width.
pub open spec fn is_halated<T: Sample, A: Arithmetic>(
    ar: &A,
    w: nat,
    h: nat,
    p: HalationParams,
    pixel_size_um: Single,
    strength: Double,
    d: Seq<Double>,
    c: int,
    plane: Seq<T>,
    r: Seq<T>,
) -> bool {
    if strength.rank() == 0 {
        r == plane
    } else {
        exists|first_px: Double|
            {
                &&& #[trigger] is_double(
                    ar,
                    scaled_width(
                        p.halation_first_sigma_um@[c],
                        p.halation_spatial_scale,
                        pixel_size_um,
                    ),
                    first_px,
                )
                &&& if first_px.at_most(Double { bits: 0 }) {
                    r == plane
                } else {
                    exists|b: Seq<Seq<T>>| #[trigger]
                        are_bounces(ar, w, h, first_px, d.len(), plane, b) && is_bounced(
                            ar,
                            strength,
                            d,
                            b,
                            plane,
                            r,
                        )
                }
            }
    }
}

fn bounces<T: Sample, A: Arithmetic>(
    ar: &A,
    plane: &Vec<T>,
    w: u32,
    h: u32,
    first_px: Double,
    n: usize,
) -> (r: Vec<Vec<T>>)
    requires
        plane@.len() == w * h,
        w <= isize::MAX,
        h <= isize::MAX,
    ensures
        r@.len() == n,
        forall|k: int|
            0 <= k < n ==> #[trigger] is_bounce(
                ar,
                w as nat,
                h as nat,
                first_px,
                k,
                plane@,
                r@[k]@,
            ),
{
    let mut r: Vec<Vec<T>> = Vec::new();
    let mut k: usize = 0;
    while k < n
        invariant
            k <= n,
            plane@.len() == w * h,
            w <= isize::MAX,
            h <= isize::MAX,
            r@.len() == k,
            forall|j: int|
                0 <= j < k ==> #[trigger] is_bounce(
                    ar,
                    w as nat,
                    h as nat,
                    first_px,
                    j,
                    plane@,
                    r@[j]@,
                ),
        decreases n - k,
    {
        let first: Traced<Double> = Traced::new(ar, first_px);
        let at: Traced<Double> = Traced::whole(ar, k as u64);
        let root = at.plus(ar, Traced::constant(ar, ONE)).unary(ar, Unary::SquareRoot);
        let s = usable_width(ar, first.times(ar, root));
        let b = gaussian_blur_channel(ar, plane, w, h, s);
        assert(is_single(ar, bounce_width(first_px, k as int), s));
        let ghost before = r@;
        r.push(b);
        proof {
            assert forall|j: int| 0 <= j < k + 1 implies #[trigger] is_bounce(
                ar,
                w as nat,
                h as nat,
                first_px,
                j,
                plane@,
                r@[j]@,
            ) by {
                if j < k {
                    assert(r@[j] == before[j]);
                    assert(is_bounce(ar, w as nat, h as nat, first_px, j, plane@, before[j]@));
                }
            }
        }
        k += 1;
    }
    r
}

/// The planes of a list.
pub open spec fn planes<T>(v: Seq<Vec<T>>) -> Seq<Seq<T>> {
    Seq::new(v.len(), |k: int| v[k]@)
}

fn bounced_pixel<T: Sample, A: Arithmetic>(
    ar: &A,
    strength: Double,
    d: &Vec<Double>,
    b: &Vec<Vec<T>>,
    x: T,
    i: usize,
) -> (r: T)
    requires
        b@.len() == d@.len(),
        forall|k: int| 0 <= k < b@.len() ==> i < (#[trigger] b@[k])@.len(),
    ensures
        evaluates(
            ar,
            plus(
                num(x),
                times(
                    T::stored(double(strength)),
                    bounce_sum(d@, planes(b@), i as int, d@.len() as int),
                ),
            ),
            r.number(),
        ),
{
    let mut sum: Traced<T> = Traced::new(ar, T::zero());
    let mut k: usize = 0;
    while k < d.len()
        invariant
            k <= d@.len(),
            b@.len() == d@.len(),
            forall|j: int| 0 <= j < b@.len() ==> i < (#[trigger] b@[j])@.len(),
            sum.holds(ar),
            sum.formula@ == bounce_sum(d@, planes(b@), i as int, k as int),
        decreases d.len() - k,
    {
        let share: Traced<Double> = Traced::new(ar, d[k]);
        let weight: Traced<T> = T::store(ar, share);
        let plane: &Vec<T> = &b[k];
        assert(planes(b@)[k as int] == b@[k as int]@);
        let sample: Traced<T> = Traced::new(ar, plane[i]);
        sum = sum.plus(ar, weight.times(ar, sample));
        k += 1;
    }
    let given: Traced<Double> = Traced::new(ar, strength);
    let a: Traced<T> = T::store(ar, given);
    let v: Traced<T> = Traced::new(ar, x);
    v.plus(ar, a.times(ar, sum)).value
}

fn halated<T: Sample, A: Arithmetic>(
    ar: &A,
    plane: Vec<T>,
    w: u32,
    h: u32,
    p: &HalationParams,
    pixel_size_um: Single,
    strength: Double,
    d: &Vec<Double>,
    c: usize,
) -> (r: Vec<T>)
    requires
        plane@.len() == w * h,
        w <= isize::MAX,
        h <= isize::MAX,
        c < 3,
    ensures
        r@.len() == plane@.len(),
        is_halated(
            ar,
            w as nat,
            h as nat,
            *p,
            pixel_size_um,
            strength,
            d@,
            c as int,
            plane@,
            r@,
        ),
{
    if strength.is_zero() {
        return plane;
    }
    let first_px = width_of(
        ar,
        p.halation_first_sigma_um[c],
        p.halation_spatial_scale,
        pixel_size_um,
    );
    if first_px.is_at_most(Double { bits: 0 }) {
        return plane;
    }
    let b = bounces(ar, &plane, w, h, first_px, d.len());
    let ghost parts = planes(b@);
    proof {
        assert forall|k: int| 0 <= k < b@.len() implies (#[trigger] b@[k])@.len()
            == plane@.len() by {
            assert(is_bounce(ar, w as nat, h as nat, first_px, k, plane@, b@[k]@));
        }
    }
    let mut r: Vec<T> = Vec::new();
    let mut i: usize = 0;
    while i < plane.len()
        invariant
            i <= plane@.len(),
            b@.len() == d@.len(),
            forall|k: int| 0 <= k < b@.len() ==> (#[trigger] b@[k])@.len() == plane@.len(),
            parts == planes(b@),
            r@.len() == i,
            forall|j: int|
                0 <= j < i ==> evaluates(
                    ar,
                    plus(
                        num(plane@[j]),
                        times(
                            T::stored(double(strength)),
                            bounce_sum(d@, parts, j, d@.len() as int),
                        ),
                    ),
                    (#[trigger] r@[j]).number(),
                ),
        decreases plane.len() - i,
    {
        let v = bounced_pixel(ar, strength, d, &b, plane[i], i);
        r.push(v);
        i += 1;
    }
    proof {
        assert forall|k: int| 0 <= k < d@.len() implies #[trigger] is_bounce(
            ar,
            w as nat,
            h as nat,
            first_px,
            k,
            plane@,
            parts[k],
        ) by {
            assert(is_bounce(ar, w as nat, h as nat, first_px, k, plane@, b@[k]@));
        }
        assert(are_bounces(ar, w as nat, h as nat, first_px, d@.len(), plane@, parts));
        assert(is_bounced(ar, strength, d@, parts, plane@, r@));
    }
    r
}

/// `r` is a channel divided by 1 plus its strength.
pub open spec fn is_renormalized<T: Sample, A: Arithmetic>(
    ar: &A,
    strength: Double,
    plane: Seq<T>,
    r: Seq<T>,
) -> bool {
    r.len() == plane.len() && forall|i: int|
        0 <= i < r.len() ==> evaluates(
            ar,
            over(num(plane[i]), plus(fixed::<T>(ONE), T::stored(double(strength)))),
            (#[trigger] r[i]).number(),
        )
}

fn renormalized<T: Sample, A: Arithmetic>(ar: &A, strength: Double, plane: &Vec<T>) -> (r: Vec<T>)
    ensures
        is_renormalized(ar, strength, plane@, r@),
{
    let mut r: Vec<T> = Vec::new();
    let mut i: usize = 0;
    while i < plane.len()
        invariant
            i <= plane@.len(),
            r@.len() == i,
            forall|j: int|
                0 <= j < i ==> evaluates(
                    ar,
                    over(num(plane@[j]), plus(fixed::<T>(ONE), T::stored(double(strength)))),
                    (#[trigger] r@[j]).number(),
                ),
        decreases plane.len() - i,
    {
        let one: Traced<Double> = Traced::constant(ar, ONE);
        let given: Traced<Double> = Traced::new(ar, strength);
        let unit: Traced<T> = T::store(ar, one);
        let a: Traced<T> = T::store(ar, given);
        let v: Traced<T> = Traced::new(ar, plane[i]);
        r.push(v.over(ar, unit.plus(ar, a)).value);
        i += 1;
    }
    r
}

/// One channel through scatter, halation and renormalisation.
pub open spec fn is_channel<T: Sample, A: Arithmetic>(
    ar: &A,
    w: nat,
    h: nat,
    p: HalationParams,
    pixel_size_um: Single,
    a: [Double; 3],
    d: Seq<Double>,
    c: int,
    before: Seq<T>,
    r: Seq<T>,
) -> bool {
    exists|scattered: Seq<T>| #[trigger]
        is_scattered(ar, w, h, p, pixel_size_um, c, before, scattered) && if !halates(p, a) {
            r == scattered
        } else {
            exists|bright: Seq<T>| #[trigger]
                is_halated(ar, w, h, p, pixel_size_um, a@[c], d, c, scattered, bright)
                    && if p.halation_renormalize {
                    is_renormalized(ar, a@[c], bright, r)
                } else {
                    r == bright
                }
        }
}

fn channel<T: Sample, A: Arithmetic>(
    ar: &A,
    plane: Vec<T>,
    w: u32,
    h: u32,
    p: &HalationParams,
    pixel_size_um: Single,
    a: [Double; 3],
    halo: bool,
    d: &Vec<Double>,
    c: usize,
) -> (r: Vec<T>)
    requires
        plane@.len() == w * h,
        w <= isize::MAX,
        h <= isize::MAX,
        c < 3,
        halo == halates(*p, a),
    ensures
        r@.len() == plane@.len(),
        is_channel(
            ar,
            w as nat,
            h as nat,
            *p,
            pixel_size_um,
            a,
            d@,
            c as int,
            plane@,
            r@,
        ),
{
    let ghost before = plane@;
    let scat = scattered(ar, plane, w, h, p, pixel_size_um, c);
    let ghost after = scat@;
    assert(is_scattered(ar, w as nat, h as nat, *p, pixel_size_um, c as int, before, after));
    if !halo {
        return scat;
    }
    let bright = halated(ar, scat, w, h, p, pixel_size_um, a[c], d, c);
    let ghost lit = bright@;
    assert(is_halated(
        ar,
        w as nat,
        h as nat,
        *p,
        pixel_size_um,
        a@[c as int],
        d@,
        c as int,
        after,
        lit,
    ));
    if p.halation_renormalize {
        renormalized(ar, a[c], &bright)
    } else {
        bright
    }
}

/// Scatter in the emulsion, and light that is thrown back onto it: every
/// channel by itself.
pub fn apply_halation_um<T: Sample, A: Arithmetic>(
    ar: &A,
    raw: &ImageBuf<T>,
    pixel_size_um: Single,
    p: &HalationParams,
) -> (r: ImageBuf<T>)
    requires
        raw.valid(),
        raw.width <= isize::MAX,
        raw.height <= isize::MAX,
    ensures
        r.width == raw.width,
        r.height == raw.height,
        r.valid(),
        exists|a: [Double; 3], d: Seq<Double>|
            {
                &&& #[trigger] are_strengths(ar, *p, a)
                &&& #[trigger] are_shares(ar, *p, d)
                &&& forall|c: int|
                    0 <= c < 3 ==> is_channel(
                        ar,
                        raw.width as nat,
                        raw.height as nat,
                        *p,
                        pixel_size_um,
                        a,
                        d,
                        c,
                        #[trigger] channel_of(raw.data@, c),
                        channel_of(r.data@, c),
                    )
            },
{
    let zero = Double { bits: 0 };
    let amount: Traced<Double> = Traced::new(ar, p.halation_amount);
    let s0: Traced<Double> = Traced::new(ar, p.halation_strength[0]);
    let s1: Traced<Double> = Traced::new(ar, p.halation_strength[1]);
    let s2: Traced<Double> = Traced::new(ar, p.halation_strength[2]);
    let a = [
        s0.times(ar, amount).value,
        s1.times(ar, amount).value,
        s2.times(ar, amount).value,
    ];
    let halo: bool = p.halation_n_bounces >= 1 && (zero.is_below(a[0]) || zero.is_below(a[1])
        || zero.is_below(a[2]));
    let d = bounce_shares(ar, p);
    let c0 = raw.extract_channel(0);
    let c1 = raw.extract_channel(1);
    let c2 = raw.extract_channel(2);
    proof {
        assert(are_strengths(ar, *p, a));
        assert(c0@ =~= channel_of(raw.data@, 0));
        assert(c1@ =~= channel_of(raw.data@, 1));
        assert(c2@ =~= channel_of(raw.data@, 2));
    }
    let r0 = channel(ar, c0, raw.width, raw.height, p, pixel_size_um, a, halo, &d, 0);
    let r1 = channel(ar, c1, raw.width, raw.height, p, pixel_size_um, a, halo, &d, 1);
    let r2 = channel(ar, c2, raw.width, raw.height, p, pixel_size_um, a, halo, &d, 2);
    let r = ImageBuf::from_channels(
        raw.width,
        raw.height,
        r0.as_slice(),
        r1.as_slice(),
        r2.as_slice(),
    );
    assert(are_shares(ar, *p, d@));
    r
}

/// Without scatter and without a bounce, the light stays where it fell.
pub proof fn lemma_no_stray_light<T: Sample, A: Arithmetic>(
    ar: &A,
    w: nat,
    h: nat,
    p: HalationParams,
    pixel_size_um: Single,
    a: [Double; 3],
    d: Seq<Double>,
    c: int,
    before: Seq<T>,
    r: Seq<T>,
)
    requires
        is_channel(ar, w, h, p, pixel_size_um, a, d, c, before, r),
        !(Double { bits: 0 }).below(p.scatter_amount),
        p.halation_n_bounces == 0,
    ensures
        r == before,
{
}

} // verus!
