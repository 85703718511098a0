//! The numbers that the passes of a resident render are set up with.

use vstd::prelude::*;

use crate::arith::{constant, double, is_double, is_single, larger, minus, narrow, over, plus};
use crate::arith::{rounds_to, single, sum_from, times, unary, whole_power, widen};
use crate::arith::{Arithmetic, Formula, Rounding, Traced, Unary};
use crate::bits::{Double, Single};
use crate::density_curves::ONE;
use crate::diffusion::total_of;
use crate::film_chain::{DirCouplersGpuParams, FilmChainParams, GlareGpuParams, GrainGpuParams};
use crate::film_chain::{HalationGpuParams, UnsharpGpuParams, WORKGROUP_SIZE};
use crate::interp::SINGLE_ONE;
use crate::numpy_rng::{signed, signed_number};
use crate::pchip::TWO;
use crate::resident::{ChainInputs, DirInputs, GlareInputs, GrainInputs, HalationInputs};
use crate::resident::UnsharpInputs;

verus! {

// ── Blurs ────────────────────────────────────────────────────────────────

/// A whole number as a word: the nearest one that fits.
pub open spec fn as_word(n: i64) -> u32 {
    if n < 0 {
        0
    } else if n > 0xffff_ffff {
        0xffff_ffff
    } else {
        n as u32
    }
}

/// Three widths, before they are rounded up.
pub open spec fn reach(sigma: Single) -> Formula {
    widen(times(single(Single { bits: 0x4040_0000 }), single(sigma)))
}

/// `r` is the radius of a blur: three widths, rounded up.
pub open spec fn is_blur_radius<A: Arithmetic>(ar: &A, sigma: Single, r: u32) -> bool {
    exists|n: i64| #[trigger]
        rounds_to(ar, Rounding::Up, reach(sigma), n) && r == as_word(n)
}

/// The radius of a blur: three widths, rounded up.
pub fn blur_radius<A: Arithmetic>(ar: &A, sigma: Single) -> (r: u32)
    ensures
        is_blur_radius(ar, sigma, r),
{
    let three: Traced<Single> = Traced::new(ar, Single { bits: 0x4040_0000 });
    let far = three.times(ar, Traced::new(ar, sigma)).widen(ar);
    let n: i64 = far.rounded(ar, Rounding::Up);
    assert(rounds_to(ar, Rounding::Up, reach(sigma), n));
    if n < 0 {
        0
    } else if n > 0xffff_ffff {
        0xffff_ffff
    } else {
        n as u32
    }
}

/// `s` is a width that is at least 0.01.
pub open spec fn is_kept_width<A: Arithmetic>(ar: &A, sigma: Formula, s: Single) -> bool {
    is_single(ar, larger(sigma, single(Single { bits: 0x3c23_d70a })), s)
}

/// `r` is the radius of a blur whose width is at least 0.01.
pub open spec fn is_kept_radius<A: Arithmetic>(ar: &A, sigma: Formula, r: u32) -> bool {
    exists|s: Single| #[trigger] is_kept_width(ar, sigma, s) && is_blur_radius(ar, s, r)
}

/// A width that is at least 0.01.
pub fn kept_width<A: Arithmetic>(ar: &A, sigma: Traced<Single>) -> (s: Single)
    requires
        sigma.holds(ar),
    ensures
        is_kept_width(ar, sigma.formula@, s),
{
    let least: Traced<Single> = Traced::new(ar, Single { bits: 0x3c23_d70a });
    sigma.larger(ar, least).value
}

fn kept_radius<A: Arithmetic>(ar: &A, sigma: Traced<Single>) -> (r: u32)
    requires
        sigma.holds(ar),
    ensures
        is_kept_radius(ar, sigma.formula@, r),
{
    let s = kept_width(ar, sigma);
    let r: u32 = blur_radius(ar, s);
    assert(is_kept_width(ar, sigma.formula@, s));
    r
}

fn kept_radius_of<A: Arithmetic>(ar: &A, sigma: Single) -> (r: u32)
    ensures
        is_kept_radius(ar, single(sigma), r),
{
    kept_radius(ar, Traced::new(ar, sigma))
}

/// Height of the bell at a distance from its middle.
pub open spec fn bell_at(sigma: Single, x: int) -> Formula {
    let d = signed(x);
    let s = widen(single(sigma));
    unary(
        Unary::Exp,
        over(times(unary(Unary::Negate, d), d), times(times(constant(TWO), s), s)),
    )
}

/// `bells` are the heights of the bell at every tap.
pub open spec fn are_bells<A: Arithmetic>(
    ar: &A,
    sigma: Single,
    radius: u32,
    bells: Seq<Double>,
) -> bool {
    &&& bells.len() == 2 * radius + 1
    &&& forall|k: int|
        0 <= k < bells.len() ==> is_double(ar, bell_at(sigma, k - radius), #[trigger] bells[k])
}

/// `r` is the kernel of a blur: the bell over its sum.
pub open spec fn is_gpu_kernel<A: Arithmetic>(
    ar: &A,
    sigma: Single,
    radius: u32,
    r: Seq<Single>,
) -> bool {
    exists|bells: Seq<Double>, sum: Double|
        {
            &&& #[trigger] are_bells(ar, sigma, radius, bells)
            &&& #[trigger] is_double(ar, total_of(bells), sum)
            &&& are_weights(ar, bells, sum, r)
        }
}

/// Each weight is a height over the sum.
pub open spec fn are_weights<A: Arithmetic>(
    ar: &A,
    bells: Seq<Double>,
    sum: Double,
    r: Seq<Single>,
) -> bool {
    r.len() == bells.len() && forall|k: int|
        0 <= k < r.len() ==> is_single(
            ar,
            narrow(over(double(bells[k]), double(sum))),
            #[trigger] r[k],
        )
}

fn bell_of<A: Arithmetic>(ar: &A, sigma: Single, x: i64) -> (r: Double)
    requires
        -0x8000_0000 <= x <= 0x8000_0000,
    ensures
        is_double(ar, bell_at(sigma, x as int), r),
{
    let d = signed_number(ar, x as i128);
    let w: Traced<Single> = Traced::new(ar, sigma);
    let s = w.widen(ar);
    let two: Traced<Double> = Traced::constant(ar, TWO);
    let rate = two.times(ar, s).times(ar, s);
    d.unary(ar, Unary::Negate).times(ar, d).over(ar, rate).unary(ar, Unary::Exp).value
}

fn sum_of<A: Arithmetic>(ar: &A, xs: &Vec<Double>) -> (r: Double)
    ensures
        is_double(ar, total_of(xs@), r),
{
    let mut sum: Traced<Double> = Traced::constant(ar, 0);
    let mut i: usize = 0;
    while i < xs.len()
        invariant
            i <= xs@.len(),
            sum.holds(ar),
            sum.formula@ == sum_from(constant(0), |k: int| double(xs@[k]), i as int),
        decreases xs.len() - i,
    {
        sum = sum.plus(ar, Traced::new(ar, xs[i]));
        i += 1;
    }
    sum.value
}

/// The weights of a blur on the GPU.
pub fn gpu_kernel<A: Arithmetic>(ar: &A, sigma: Single, radius: u32) -> (r: Vec<Single>)
    requires
        radius < 0x4000_0000,
    ensures
        r@.len() == 2 * radius + 1,
        is_gpu_kernel(ar, sigma, radius, r@),
{
    let size: u32 = 2 * radius + 1;
    let mut bells: Vec<Double> = Vec::new();
    let mut k: u32 = 0;
    while k < size
        invariant
            k <= size,
            size == 2 * radius + 1,
            radius < 0x4000_0000,
            bells@.len() == k,
            forall|j: int|
                0 <= j < k ==> is_double(ar, bell_at(sigma, j - radius), #[trigger] bells@[j]),
        decreases size - k,
    {
        bells.push(bell_of(ar, sigma, k as i64 - radius as i64));
        k += 1;
    }
    let sum = sum_of(ar, &bells);
    let mut r: Vec<Single> = Vec::new();
    let mut i: usize = 0;
    while i < bells.len()
        invariant
            i <= bells@.len(),
            r@.len() == i,
            forall|j: int|
                0 <= j < i ==> is_single(
                    ar,
                    narrow(over(double(bells@[j]), double(sum))),
                    #[trigger] r@[j],
                ),
        decreases bells.len() - i,
    {
        let b: Traced<Double> = Traced::new(ar, bells[i]);
        r.push(b.over(ar, Traced::new(ar, sum)).narrow(ar).value);
        i += 1;
    }
    proof {
        assert(are_bells(ar, sigma, radius, bells@));
        assert(is_double(ar, total_of(bells@), sum));
        assert(are_weights(ar, bells@, sum, r@));
    }
    r
}

// ── Even axes ────────────────────────────────────────────────────────────

/// Distance between the numbers of an axis, were they even.
pub open spec fn axis_step(xs: Seq<Double>) -> Formula {
    over(
        minus(double(xs.last()), double(xs[0])),
        minus(Formula::Whole(xs.len() as u64), constant(ONE)),
    )
}

/// How far a number may be off.
pub open spec fn axis_tolerance(step: Double) -> Formula {
    plus(times(unary(Unary::Absolute, double(step)), constant(0x3e11_2e0b_e826_d695)), constant(0x3d71_9799_812d_ea11))
}

/// How far number `i` is off.
pub open spec fn axis_error(xs: Seq<Double>, step: Double, i: int) -> Formula {
    unary(
        Unary::Absolute,
        minus(
            double(xs[i]),
            plus(double(xs[0]), times(Formula::Whole(i as u64), double(step))),
        ),
    )
}

/// Number `i` is as far off as `r` says: beyond the tolerance or not.
pub open spec fn is_off<A: Arithmetic>(ar: &A, f: Formula, tolerance: Double, r: bool) -> bool {
    exists|e: Double| #[trigger] is_double(ar, f, e) && r == tolerance.below(e)
}

/// The first `n` numbers behind the first one are where they should be.
pub open spec fn evenly_placed<A: Arithmetic>(
    ar: &A,
    xs: Seq<Double>,
    step: Double,
    tolerance: Double,
    n: int,
) -> bool
    decreases n,
{
    n <= 0 || evenly_placed(ar, xs, step, tolerance, n - 1) && is_off(
        ar,
        axis_error(xs, step, n),
        tolerance,
        false,
    )
}

/// `r` says whether an axis is even.
pub open spec fn is_even_axis<A: Arithmetic>(ar: &A, xs: Seq<Double>, r: bool) -> bool {
    if xs.len() < 3 {
        r
    } else {
        exists|step: Double, tolerance: Double|
            {
                &&& #[trigger] is_double(ar, axis_step(xs), step)
                &&& #[trigger] is_double(ar, axis_tolerance(step), tolerance)
                &&& if r {
                    evenly_placed(ar, xs, step, tolerance, xs.len() - 1)
                } else {
                    first_off(ar, xs, step, tolerance)
                }
            }
    }
}

/// Some number is not where it should be, and those before it are.
pub open spec fn first_off<A: Arithmetic>(
    ar: &A,
    xs: Seq<Double>,
    step: Double,
    tolerance: Double,
) -> bool {
    exists|i: int|
        1 <= i < xs.len() && evenly_placed(ar, xs, step, tolerance, i - 1) && #[trigger] off_at(
            ar,
            xs,
            step,
            tolerance,
            i,
        )
}

pub open spec fn off_at<A: Arithmetic>(
    ar: &A,
    xs: Seq<Double>,
    step: Double,
    tolerance: Double,
    i: int,
) -> bool {
    is_off(ar, axis_error(xs, step, i), tolerance, true)
}

/// Whether an axis is even; a short one is.
pub fn is_uniform<A: Arithmetic>(ar: &A, xs: &[Double]) -> (r: bool)
    ensures
        is_even_axis(ar, xs@, r),
{
    let n: usize = xs.len();
    if n < 3 {
        return true;
    }
    let one: Traced<Double> = Traced::constant(ar, ONE);
    let first: Traced<Double> = Traced::new(ar, xs[0]);
    let last: Traced<Double> = Traced::new(ar, xs[n - 1]);
    let count: Traced<Double> = Traced::whole(ar, n as u64);
    let step = last.minus(ar, first).over(ar, count.minus(ar, one)).value;
    assert(is_double(ar, axis_step(xs@), step));
    let st: Traced<Double> = Traced::new(ar, step);
    let k0: Traced<Double> = Traced::constant(ar, 0x3e11_2e0b_e826_d695);
    let k1: Traced<Double> = Traced::constant(ar, 0x3d71_9799_812d_ea11);
    let tolerance = st.unary(ar, Unary::Absolute).times(ar, k0).plus(ar, k1).value;
    assert(is_double(ar, axis_tolerance(step), tolerance));
    let mut i: usize = 1;
    while i < n
        invariant
            1 <= i <= n,
            n == xs@.len(),
            n >= 3,
            first.holds(ar),
            first.formula@ == double(xs@[0]),
            st.holds(ar),
            st.formula@ == double(step),
            is_double(ar, axis_step(xs@), step),
            is_double(ar, axis_tolerance(step), tolerance),
            evenly_placed(ar, xs@, step, tolerance, i - 1),
        decreases n - i,
    {
        let x: Traced<Double> = Traced::new(ar, xs[i]);
        let at: Traced<Double> = Traced::whole(ar, i as u64);
        let e = x.minus(ar, first.plus(ar, at.times(ar, st))).unary(ar, Unary::Absolute).value;
        assert(is_double(ar, axis_error(xs@, step, i as int), e));
        if tolerance.is_below(e) {
            proof {
                assert(off_at(ar, xs@, step, tolerance, i as int));
                assert(first_off(ar, xs@, step, tolerance));
            }
            return false;
        }
        assert(is_off(ar, axis_error(xs@, step, i as int), tolerance, false));
        i += 1;
    }
    true
}

/// One over a gamma.
pub open spec fn gamma_inverse(gamma: Double) -> Formula {
    narrow(over(constant(ONE), double(gamma)))
}

/// One over a gamma.
pub fn gamma_inverse_of<A: Arithmetic>(ar: &A, gamma: Double) -> (r: Single)
    ensures
        is_single(ar, gamma_inverse(gamma), r),
{
    let one: Traced<Double> = Traced::constant(ar, ONE);
    one.over(ar, Traced::new(ar, gamma)).narrow(ar).value
}

// ── Halation ─────────────────────────────────────────────────────────────

/// Width of bounce `k`.
pub open spec fn bounce_sigma(first: Single, k: int) -> Formula {
    times(
        single(first),
        unary(
            Unary::SquareRoot,
            plus(narrow(Formula::Whole(k as u64)), single(Single { bits: SINGLE_ONE })),
        ),
    )
}

/// Weight of bounce `k`, before the weights are divided by their sum.
pub open spec fn bounce_decay(decay: Single, k: int) -> Formula {
    whole_power(single(decay), k as u32)
}

/// The sum of the weights.
pub open spec fn decay_sum(decay: Seq<Single>) -> Formula {
    sum_from(single(Single { bits: 0 }), |k: int| single(decay[k]), decay.len() as int)
}

/// `r` is weights over their sum, where that is above 0.
pub open spec fn are_shared<A: Arithmetic>(
    ar: &A,
    decay: Seq<Single>,
    sum: Single,
    r: Seq<Single>,
) -> bool {
    &&& r.len() == decay.len()
    &&& if (Single { bits: 0 }).below(sum) {
        forall|k: int|
            0 <= k < r.len() ==> is_single(
                ar,
                over(single(decay[k]), single(sum)),
                #[trigger] r[k],
            )
    } else {
        r == decay
    }
}

/// `r` is the weights of `n` bounces.
pub open spec fn are_bounce_weights<A: Arithmetic>(
    ar: &A,
    decay: Single,
    n: u32,
    r: Seq<Single>,
) -> bool {
    exists|raw: Seq<Single>, sum: Single|
        {
            &&& #[trigger] are_decays(ar, decay, n, raw)
            &&& is_single(ar, decay_sum(raw), sum)
            &&& #[trigger] are_shared(ar, raw, sum, r)
        }
}

/// `raw` is the weights of `n` bounces, before they are shared out.
pub open spec fn are_decays<A: Arithmetic>(
    ar: &A,
    decay: Single,
    n: u32,
    raw: Seq<Single>,
) -> bool {
    raw.len() == n && forall|k: int|
        0 <= k < n ==> is_single(ar, bounce_decay(decay, k), #[trigger] raw[k])
}

fn bounce_weights<A: Arithmetic>(ar: &A, decay: Single, n: u32) -> (r: Vec<Single>)
    ensures
        are_bounce_weights(ar, decay, n, r@),
        r@.len() == n,
{
    let d: Traced<Single> = Traced::new(ar, decay);
    let mut raw: Vec<Single> = Vec::new();
    let mut k: u32 = 0;
    while k < n
        invariant
            k <= n,
            d.holds(ar),
            d.formula@ == single(decay),
            raw@.len() == k,
            forall|j: int| 0 <= j < k ==> is_single(ar, bounce_decay(decay, j), #[trigger] raw@[j]),
        decreases n - k,
    {
        raw.push(d.unary(ar, Unary::WholePower(k)).value);
        k += 1;
    }
    assert(are_decays(ar, decay, n, raw@));
    let mut sum: Traced<Single> = Traced::new(ar, Single { bits: 0 });
    let mut i: usize = 0;
    while i < raw.len()
        invariant
            i <= raw@.len(),
            sum.holds(ar),
            sum.formula@ == sum_from(
                single(Single { bits: 0 }),
                |j: int| single(raw@[j]),
                i as int,
            ),
        decreases raw.len() - i,
    {
        sum = sum.plus(ar, Traced::new(ar, raw[i]));
        i += 1;
    }
    let total = sum.value;
    assert(is_single(ar, decay_sum(raw@), total));
    let none = Single { bits: 0 };
    if !none.is_below(total) {
        assert(are_shared(ar, raw@, total, raw@));
        return raw;
    }
    let mut r: Vec<Single> = Vec::new();
    let mut i: usize = 0;
    while i < raw.len()
        invariant
            i <= raw@.len(),
            r@.len() == i,
            forall|j: int|
                0 <= j < i ==> is_single(
                    ar,
                    over(single(raw@[j]), single(total)),
                    #[trigger] r@[j],
                ),
        decreases raw.len() - i,
    {
        let x: Traced<Single> = Traced::new(ar, raw[i]);
        r.push(x.over(ar, Traced::new(ar, total)).value);
        i += 1;
    }
    assert(are_shared(ar, raw@, total, r@));
    r
}

/// The width of a bounce.
pub fn bounce_width<A: Arithmetic>(ar: &A, first: Single, k: u32) -> (r: Traced<Single>)
    ensures
        r.holds(ar),
        r.formula@ == bounce_sigma(first, k as int),
{
    let f: Traced<Single> = Traced::new(ar, first);
    let at: Traced<Double> = Traced::whole(ar, k as u64);
    let one: Traced<Single> = Traced::new(ar, Single { bits: SINGLE_ONE });
    f.times(ar, at.narrow(ar).plus(ar, one).unary(ar, Unary::SquareRoot))
}

/// `r` is the radii of `n` bounces.
pub open spec fn are_bounce_radii<A: Arithmetic>(
    ar: &A,
    first: Single,
    n: u32,
    r: Seq<u32>,
) -> bool {
    r.len() == n && forall|k: int|
        0 <= k < n ==> is_kept_radius(ar, bounce_sigma(first, k), #[trigger] r[k])
}

fn bounce_radii<A: Arithmetic>(ar: &A, first: Single, n: u32) -> (r: Vec<u32>)
    ensures
        are_bounce_radii(ar, first, n, r@),
{
    let mut r: Vec<u32> = Vec::new();
    let mut k: u32 = 0;
    while k < n
        invariant
            k <= n,
            r@.len() == k,
            forall|j: int|
                0 <= j < k ==> is_kept_radius(ar, bounce_sigma(first, j), #[trigger] r@[j]),
        decreases n - k,
    {
        let width = bounce_width(ar, first, k);
        r.push(kept_radius(ar, width));
        k += 1;
    }
    r
}

/// `1 / (1 + a)`.
pub open spec fn renormalizer(a: Single) -> Formula {
    let one = single(Single { bits: SINGLE_ONE });
    over(one, plus(one, single(a)))
}

fn renormalizer_of<A: Arithmetic>(ar: &A, a: Single) -> (r: Single)
    ensures
        is_single(ar, renormalizer(a), r),
{
    let one: Traced<Single> = Traced::new(ar, Single { bits: SINGLE_ONE });
    one.over(ar, one.plus(ar, Traced::new(ar, a))).value
}

impl HalationGpuParams {
    /// The numbers are those of the inputs.
    pub open spec fn is_for<A: Arithmetic>(&self, ar: &A, h: HalationInputs) -> bool {
        &&& self.scatter_amount == h.scatter_amount
        &&& is_kept_radius(ar, single(h.scatter_core_px), self.scatter_core_radius)
        &&& is_kept_radius(ar, single(h.scatter_tail_px), self.scatter_tail_radius)
        &&& self.scatter_tail_weight == h.scatter_tail_weight
        &&& self.halation_a_tot == h.halation_a_tot
        &&& forall|c: int|
            0 <= c < 3 ==> is_single(
                ar,
                renormalizer(h.halation_a_tot@[c]),
                #[trigger] self.renormalize_factor@[c],
            )
        &&& are_bounce_radii(
            ar,
            h.halation_first_sigma_px,
            h.halation_n_bounces,
            self.bounce_radius@,
        )
        &&& are_bounce_weights(
            ar,
            h.halation_bounce_decay,
            h.halation_n_bounces,
            self.bounce_weight@,
        )
        &&& self.halation_renormalize == h.halation_renormalize
        &&& self.valid()
    }
}

fn halation_params<A: Arithmetic>(ar: &A, h: &HalationInputs) -> (r: HalationGpuParams)
    ensures
        r.is_for(ar, *h),
{
    let a = h.halation_a_tot;
    HalationGpuParams {
        scatter_amount: h.scatter_amount,
        scatter_core_radius: kept_radius_of(ar, h.scatter_core_px),
        scatter_tail_radius: kept_radius_of(ar, h.scatter_tail_px),
        scatter_tail_weight: h.scatter_tail_weight,
        halation_a_tot: a,
        renormalize_factor: [
            renormalizer_of(ar, a[0]),
            renormalizer_of(ar, a[1]),
            renormalizer_of(ar, a[2]),
        ],
        bounce_radius: bounce_radii(ar, h.halation_first_sigma_px, h.halation_n_bounces),
        bounce_weight: bounce_weights(ar, h.halation_bounce_decay, h.halation_n_bounces),
        halation_renormalize: h.halation_renormalize,
    }
}

// ── The other passes ─────────────────────────────────────────────────────

impl DirCouplersGpuParams {
    /// The numbers are those of the inputs.
    pub open spec fn is_for<A: Arithmetic>(&self, ar: &A, d: DirInputs) -> bool {
        &&& self.couplers_matrix_scaled == d.couplers_matrix_scaled
        &&& self.density_max == d.density_max
        &&& self.is_positive == d.is_positive
        &&& is_kept_radius(ar, single(d.diffusion_size_px), self.diffusion_size_radius)
        &&& is_kept_radius(ar, single(d.diffusion_tail_px), self.diffusion_tail_radius)
        &&& self.diffusion_tail_weight == d.diffusion_tail_weight
        &&& is_single(
            ar,
            minus(single(Single { bits: SINGLE_ONE }), single(d.diffusion_tail_weight)),
            self.diffusion_core_weight,
        )
        &&& self.curve_len == d.log_exposure@.len()
        &&& is_even_axis(ar, d.log_exposure@, self.uniform_grid)
        &&& is_single(ar, gamma_inverse(d.gamma_factor), self.gamma_inv)
    }
}

fn dir_params<A: Arithmetic>(ar: &A, d: &DirInputs) -> (r: DirCouplersGpuParams)
    requires
        d.log_exposure@.len() <= u32::MAX,
    ensures
        r.is_for(ar, *d),
{
    let one: Traced<Single> = Traced::new(ar, Single { bits: SINGLE_ONE });
    let w: Traced<Single> = Traced::new(ar, d.diffusion_tail_weight);
    DirCouplersGpuParams {
        couplers_matrix_scaled: d.couplers_matrix_scaled,
        density_max: d.density_max,
        is_positive: d.is_positive,
        diffusion_size_radius: kept_radius_of(ar, d.diffusion_size_px),
        diffusion_tail_radius: kept_radius_of(ar, d.diffusion_tail_px),
        diffusion_tail_weight: d.diffusion_tail_weight,
        diffusion_core_weight: one.minus(ar, w).value,
        curve_len: d.log_exposure.len() as u32,
        uniform_grid: is_uniform(ar, d.log_exposure.as_slice()),
        gamma_inv: gamma_inverse_of(ar, d.gamma_factor),
    }
}

impl GrainGpuParams {
    /// The numbers are those of the inputs.
    pub open spec fn is_for<A: Arithmetic>(&self, ar: &A, g: GrainInputs) -> bool {
        &&& self.density_min == g.density_min
        &&& self.density_max == g.density_max
        &&& self.n_particles_per_pixel == g.n_particles_per_pixel
        &&& self.grain_uniformity == g.grain_uniformity
        &&& self.n_sub_layers == g.n_sub_layers
        &&& self.base_seed == g.base_seed
        &&& self.grain_blur == g.grain_blur
        &&& is_kept_radius(ar, single(g.grain_blur), self.blur_radius)
    }
}

impl GlareGpuParams {
    /// The numbers are those of the inputs.
    pub open spec fn is_for<A: Arithmetic>(&self, ar: &A, g: GlareInputs) -> bool {
        &&& self.mu == g.mu
        &&& self.sigma == g.sigma
        &&& self.blur_px == g.blur_px
        &&& is_kept_radius(ar, single(g.blur_px), self.blur_radius)
        &&& self.base_seed == g.base_seed
        &&& self.rgb_offset == g.rgb_offset
    }
}

impl UnsharpGpuParams {
    /// The numbers are those of the inputs.
    pub open spec fn is_for<A: Arithmetic>(&self, ar: &A, u: UnsharpInputs) -> bool {
        is_kept_radius(ar, single(u.sigma_px), self.radius) && self.amount == u.amount
    }
}

// ── The chain ────────────────────────────────────────────────────────────

/// `r` is a matrix in single precision.
pub open spec fn is_short_matrix<A: Arithmetic>(
    ar: &A,
    m: [[Double; 3]; 3],
    r: [[Single; 3]; 3],
) -> bool {
    forall|i: int, j: int|
        0 <= i < 3 && 0 <= j < 3 ==> is_single(
            ar,
            narrow(double(m@[i]@[j])),
            #[trigger] r@[i]@[j],
        )
}

/// The lengths of the tables can be told to a shader.
pub open spec fn countable(c: ChainInputs) -> bool {
    &&& c.film_log_exposure@.len() <= u32::MAX
    &&& c.print_log_exposure@.len() <= u32::MAX
    &&& c.film_channel_density@.len() <= u32::MAX
    &&& c.print_channel_density@.len() <= u32::MAX
    &&& c.dir_couplers matches Some(d) ==> d.log_exposure@.len() <= u32::MAX
}

impl FilmChainParams {
    /// The numbers are those of the inputs of a render.
    pub open spec fn is_for<A: Arithmetic>(
        &self,
        ar: &A,
        width: u32,
        height: u32,
        lut_size: u32,
        c: ChainInputs,
    ) -> bool {
        &&& self.width == width
        &&& self.height == height
        &&& self.lut_size == lut_size
        &&& is_short_matrix(ar, c.rgb_to_adapted_xyz, self.rgb_to_adapted_xyz)
        &&& self.film_curve_len == c.film_log_exposure@.len()
        &&& is_even_axis(ar, c.film_log_exposure@, self.film_uniform_grid)
        &&& is_single(ar, gamma_inverse(c.film_gamma), self.film_gamma_inv)
        &&& self.film_wavelengths == c.film_channel_density@.len()
        &&& is_single(
            ar,
            narrow(double(c.print_normalization_factor)),
            self.print_normalization_factor,
        )
        &&& self.print_curve_len == c.print_log_exposure@.len()
        &&& is_even_axis(ar, c.print_log_exposure@, self.print_uniform_grid)
        &&& is_single(ar, gamma_inverse(c.print_gamma), self.print_gamma_inv)
        &&& self.print_wavelengths == c.print_channel_density@.len()
        &&& is_single(ar, narrow(double(c.scan_normalization)), self.scan_normalization)
        &&& is_short_matrix(ar, c.scan_xyz_to_rgb, self.scan_xyz_to_rgb)
        &&& self.passes_for(ar, c)
    }

    /// The optional passes are those of the inputs.
    pub open spec fn passes_for<A: Arithmetic>(&self, ar: &A, c: ChainInputs) -> bool {
        &&& match c.halation {
            Some(h) => self.halation matches Some(p) && p.is_for(ar, h),
            None => self.halation is None,
        }
        &&& match c.dir_couplers {
            Some(d) => self.dir_couplers matches Some(p) && p.is_for(ar, d),
            None => self.dir_couplers is None,
        }
        &&& match c.grain {
            Some(g) => self.grain matches Some(p) && p.is_for(ar, g),
            None => self.grain is None,
        }
        &&& match c.glare {
            Some(g) => self.glare matches Some(p) && p.is_for(ar, g),
            None => self.glare is None,
        }
        &&& match c.unsharp {
            Some(u) => self.unsharp matches Some(p) && p.is_for(ar, u),
            None => self.unsharp is None,
        }
    }
}

/// A double in single precision.
pub fn short<A: Arithmetic>(ar: &A, x: Double) -> (r: Single)
    ensures
        is_single(ar, narrow(double(x)), r),
{
    let v: Traced<Double> = Traced::new(ar, x);
    v.narrow(ar).value
}

/// The numbers that the passes of a render are set up with.
pub fn chain_params<A: Arithmetic>(
    ar: &A,
    width: u32,
    height: u32,
    lut_size: u32,
    c: &ChainInputs,
) -> (r: FilmChainParams)
    requires
        width * height <= u32::MAX - (WORKGROUP_SIZE - 1),
        countable(*c),
    ensures
        r.is_for(ar, width, height, lut_size, *c),
        r.valid(),
{
    let halation = match &c.halation {
        Some(h) => Some(halation_params(ar, h)),
        None => None,
    };
    let dir_couplers = match &c.dir_couplers {
        Some(d) => Some(dir_params(ar, d)),
        None => None,
    };
    let grain = match &c.grain {
        Some(g) => Some(
            GrainGpuParams {
                density_min: g.density_min,
                density_max: g.density_max,
                n_particles_per_pixel: g.n_particles_per_pixel,
                grain_uniformity: g.grain_uniformity,
                n_sub_layers: g.n_sub_layers,
                base_seed: g.base_seed,
                grain_blur: g.grain_blur,
                blur_radius: kept_radius_of(ar, g.grain_blur),
            },
        ),
        None => None,
    };
    let glare = match &c.glare {
        Some(g) => Some(
            GlareGpuParams {
                mu: g.mu,
                sigma: g.sigma,
                blur_px: g.blur_px,
                blur_radius: kept_radius_of(ar, g.blur_px),
                base_seed: g.base_seed,
                rgb_offset: g.rgb_offset,
            },
        ),
        None => None,
    };
    let unsharp = match &c.unsharp {
        Some(u) => Some(
            UnsharpGpuParams { radius: kept_radius_of(ar, u.sigma_px), amount: u.amount },
        ),
        None => None,
    };
    FilmChainParams {
        width,
        height,
        lut_size,
        rgb_to_adapted_xyz: crate::couplers::narrow_matrix(ar, c.rgb_to_adapted_xyz),
        film_curve_len: c.film_log_exposure.len() as u32,
        film_uniform_grid: is_uniform(ar, c.film_log_exposure.as_slice()),
        film_gamma_inv: gamma_inverse_of(ar, c.film_gamma),
        film_wavelengths: c.film_channel_density.len() as u32,
        print_normalization_factor: short(ar, c.print_normalization_factor),
        print_curve_len: c.print_log_exposure.len() as u32,
        print_uniform_grid: is_uniform(ar, c.print_log_exposure.as_slice()),
        print_gamma_inv: gamma_inverse_of(ar, c.print_gamma),
        print_wavelengths: c.print_channel_density.len() as u32,
        scan_normalization: short(ar, c.scan_normalization),
        scan_xyz_to_rgb: crate::couplers::narrow_matrix(ar, c.scan_xyz_to_rgb),
        halation,
        dir_couplers,
        grain,
        glare,
        unsharp,
    }
}

} // verus!
