//! The grain of the film: particles that are seeded and developed at random.

use vstd::prelude::*;

use crate::arith::{constant, double, evaluates, is_double, is_single, minus, narrow, over, plus};
use crate::arith::{single, sum_from, times, unary, widen, Arithmetic, Formula, Sample, Traced};
use crate::arith::Unary;
use crate::backend::{addressable, ComputeBackend};
use crate::bits::{Double, Single};
use crate::density_curves::ONE;
use crate::film_chain::GRAIN_BLUR_THRESHOLD;
use crate::filming::same_image;
use crate::gaussian::{gaussian_blur_channel, is_blurred};
use crate::image::{channel_of, pixels_of, ImageBuf};
use crate::interp::num;
use crate::numpy_rng::{binomial_fails, is_binomial, is_poisson, poisson_fails, rk_binomial};
use crate::numpy_rng::{rk_poisson, MtStream, TRIES};
use crate::params::GrainParams;

verus! {

// ── Seeds ────────────────────────────────────────────────────────────────

/// Distance between the seeds of two sub-layers of a channel.
pub const SEED_STRIDE: u64 = 10;

/// Seed of a sub-layer of a channel.
pub open spec fn layer_seed_of(channel: int, layer: int) -> int {
    channel + layer * SEED_STRIDE
}

/// The seed of a sub-layer of a channel.
pub fn layer_seed(channel: u32, layer: u32) -> (r: u64)
    requires
        channel < 3,
    ensures
        r == layer_seed_of(channel as int, layer as int),
{
    (channel as u64) + (layer as u64) * SEED_STRIDE
}

/// Different layers have different seeds.
pub proof fn lemma_seeds_distinct(channel: int, layer: int, channel2: int, layer2: int)
    requires
        0 <= channel < 3,
        0 <= channel2 < 3,
        layer_seed_of(channel, layer) == layer_seed_of(channel2, layer2),
    ensures
        channel == channel2,
        layer == layer2,
{
}

/// The stream of a seed: its lower 32 bits.
pub open spec fn stream_of(seed: u64) -> u32 {
    (seed % 0x1_0000_0000) as u32
}

// ── Coverage ─────────────────────────────────────────────────────────────

/// Encoding of 1e-6, the smallest probability.
pub const LEAST_SHARE: u64 = 0x3eb0_c6f7_a0b5_ed8d;

/// Encoding of `1 - 1e-6`, the greatest probability.
pub const GREATEST_SHARE: u64 = 0x3fef_fffd_e721_0be9;

/// `p` is the probability that a particle is developed at a density.
pub open spec fn is_share<T: Sample, A: Arithmetic>(ar: &A, d: T, dmax: Double, p: Double) -> bool {
    exists|ratio: Double| #[trigger]
        is_double(ar, over(d.fetched(), double(dmax)), ratio) && p == ratio.limited(
            Double { bits: LEAST_SHARE },
            Double { bits: GREATEST_SHARE },
        )
}

/// What a probability and the uniformity of the grain leave of the particles.
pub open spec fn saturation(p: Double, uniformity: Double) -> Formula {
    minus(
        constant(ONE),
        times(times(double(p), double(uniformity)), constant(GREATEST_SHARE)),
    )
}

/// `ps` and `sats` are the probabilities and the saturations of densities.
pub open spec fn are_covered<T: Sample, A: Arithmetic>(
    ar: &A,
    density: Seq<T>,
    dmax: Double,
    uniformity: Double,
    ps: Seq<Double>,
    sats: Seq<Double>,
) -> bool {
    &&& ps.len() == density.len()
    &&& sats.len() == density.len()
    &&& forall|i: int| 0 <= i < density.len() ==> is_share(ar, density[i], dmax, #[trigger] ps[i])
    &&& forall|i: int|
        0 <= i < density.len() ==> is_double(
            ar,
            saturation(ps[i], uniformity),
            #[trigger] sats[i],
        )
}

fn share<T: Sample, A: Arithmetic>(ar: &A, d: T, dmax: Double) -> (p: Double)
    ensures
        is_share(ar, d, dmax, p),
{
    let ratio = d.fetch(ar).over(ar, Traced::new(ar, dmax)).value;
    assert(is_double(ar, over(d.fetched(), double(dmax)), ratio));
    ratio.clamp(Double { bits: LEAST_SHARE }, Double { bits: GREATEST_SHARE })
}

fn coverage<T: Sample, A: Arithmetic>(
    ar: &A,
    density: &Vec<T>,
    dmax: Double,
    uniformity: Double,
) -> (r: (Vec<Double>, Vec<Double>))
    ensures
        are_covered(ar, density@, dmax, uniformity, r.0@, r.1@),
{
    let mut ps: Vec<Double> = Vec::new();
    let mut sats: Vec<Double> = Vec::new();
    let mut i: usize = 0;
    while i < density.len()
        invariant
            i <= density@.len(),
            ps@.len() == i,
            sats@.len() == i,
            forall|k: int| 0 <= k < i ==> is_share(ar, density@[k], dmax, #[trigger] ps@[k]),
            forall|k: int|
                0 <= k < i ==> is_double(ar, saturation(ps@[k], uniformity), #[trigger] sats@[k]),
        decreases density.len() - i,
    {
        let p = share(ar, density[i], dmax);
        let one: Traced<Double> = Traced::constant(ar, ONE);
        let most: Traced<Double> = Traced::constant(ar, GREATEST_SHARE);
        let pt: Traced<Double> = Traced::new(ar, p);
        let taken = pt.times(ar, Traced::new(ar, uniformity)).times(ar, most);
        ps.push(p);
        sats.push(one.minus(ar, taken).value);
        i += 1;
    }
    (ps, sats)
}

// ── Particles ────────────────────────────────────────────────────────────

/// `x` particles are seeded at a saturation, from the words from `from` to
/// `to` of a stream.
pub open spec fn is_seeded<A: Arithmetic>(
    ar: &A,
    per_pixel: Double,
    sat: Double,
    seed: u32,
    from: nat,
    to: nat,
    x: u64,
) -> bool {
    exists|rate: Double| #[trigger]
        is_double(ar, over(double(per_pixel), double(sat)), rate) && is_poisson(
            ar,
            rate,
            seed,
            from,
            to,
            x,
        )
}

/// The particles of all pixels are seeded one after the other; the words up
/// to `at[i]` are used up before pixel `i`.
pub open spec fn are_seeded<A: Arithmetic>(
    ar: &A,
    per_pixel: Double,
    sats: Seq<Double>,
    seed: u32,
    at: Seq<nat>,
    counts: Seq<u64>,
) -> bool {
    &&& at.len() == counts.len() + 1
    &&& at[0] == 0
    &&& counts.len() <= sats.len()
    &&& forall|i: int|
        0 <= i < counts.len() ==> is_seeded(
            ar,
            per_pixel,
            sats[i],
            seed,
            at[i],
            at[i + 1],
            #[trigger] counts[i],
        )
}

/// The particles of all pixels are developed one after the other, from word
/// `start` on.
pub open spec fn are_developed<A: Arithmetic>(
    ar: &A,
    counts: Seq<u64>,
    ps: Seq<Double>,
    seed: u32,
    start: nat,
    at: Seq<nat>,
    developed: Seq<u64>,
) -> bool {
    &&& at.len() == developed.len() + 1
    &&& at[0] == start
    &&& developed.len() <= counts.len()
    &&& forall|i: int|
        0 <= i < developed.len() ==> is_binomial(
            ar,
            counts[i],
            ps[i],
            seed,
            at[i],
            at[i + 1],
            #[trigger] developed[i],
        )
}

/// The seeding stops short: all tries at the next pixel were rejected.
pub open spec fn seeding_stops<A: Arithmetic>(
    ar: &A,
    per_pixel: Double,
    sats: Seq<Double>,
    seed: u32,
    at: Seq<nat>,
    counts: Seq<u64>,
) -> bool {
    &&& are_seeded(ar, per_pixel, sats, seed, at, counts)
    &&& counts.len() < sats.len()
    &&& exists|rate: Double| #[trigger]
        is_double(ar, over(double(per_pixel), double(sats[counts.len() as int])), rate)
            && poisson_fails(ar, rate, seed, at.last(), TRIES as nat)
}

/// The development stops short: all tries at the next pixel were rejected, or
/// it has more particles than can be counted.
pub open spec fn development_stops<A: Arithmetic>(
    ar: &A,
    counts: Seq<u64>,
    ps: Seq<Double>,
    seed: u32,
    start: nat,
    at: Seq<nat>,
    developed: Seq<u64>,
) -> bool {
    let i = developed.len() as int;
    &&& are_developed(ar, counts, ps, seed, start, at, developed)
    &&& i < counts.len()
    &&& counts[i] >= i64::MAX || binomial_fails(
        ar,
        counts[i],
        ps[i],
        seed,
        at.last(),
        TRIES as nat,
    )
}

/// The seeding of the particles stops short.
pub open spec fn stops_seeding<A: Arithmetic>(
    ar: &A,
    per_pixel: Double,
    sats: Seq<Double>,
    seed: u32,
) -> bool {
    exists|at: Seq<nat>, counts: Seq<u64>| #[trigger]
        seeding_stops(ar, per_pixel, sats, seed, at, counts)
}

/// The development of the particles stops short.
pub open spec fn stops_developing<A: Arithmetic>(
    ar: &A,
    counts: Seq<u64>,
    ps: Seq<Double>,
    seed: u32,
    start: nat,
) -> bool {
    exists|at: Seq<nat>, developed: Seq<u64>| #[trigger]
        development_stops(ar, counts, ps, seed, start, at, developed)
}

fn seed_particles<A: Arithmetic>(
    ar: &A,
    rng: &mut MtStream,
    per_pixel: Double,
    sats: &Vec<Double>,
) -> (r: (Option<Vec<u64>>, Ghost<Seq<nat>>))
    requires
        old(rng).drawn() == 0,
    ensures
        final(rng).seed() == old(rng).seed(),
        match r.0 {
            Some(counts) => {
                &&& are_seeded(ar, per_pixel, sats@, old(rng).seed(), r.1@, counts@)
                &&& counts@.len() == sats@.len()
                &&& final(rng).drawn() == r.1@.last()
            },
            None => stops_seeding(ar, per_pixel, sats@, old(rng).seed()),
        },
{
    let mut counts: Vec<u64> = Vec::new();
    let ghost mut at: Seq<nat> = seq![0nat];
    let mut i: usize = 0;
    while i < sats.len()
        invariant
            i <= sats@.len(),
            counts@.len() == i,
            rng.seed() == old(rng).seed(),
            rng.drawn() == at.last(),
            are_seeded(ar, per_pixel, sats@, old(rng).seed(), at, counts@),
        decreases sats.len() - i,
    {
        let n: Traced<Double> = Traced::new(ar, per_pixel);
        let rate = n.over(ar, Traced::new(ar, sats[i])).value;
        assert(is_double(ar, over(double(per_pixel), double(sats@[i as int])), rate));
        match rk_poisson(ar, rng, rate) {
            None => {
                proof {
                    assert(seeding_stops(
                        ar,
                        per_pixel,
                        sats@,
                        old(rng).seed(),
                        at,
                        counts@,
                    ));
                }
                return (None, Ghost(at));
            },
            Some(x) => {
                let ghost before = at;
                let ghost earlier = counts@;
                counts.push(x);
                proof {
                    at = at.push(rng.drawn());
                    assert forall|k: int| 0 <= k < counts@.len() implies is_seeded(
                        ar,
                        per_pixel,
                        sats@[k],
                        old(rng).seed(),
                        at[k],
                        at[k + 1],
                        #[trigger] counts@[k],
                    ) by {
                        if k < earlier.len() {
                            assert(counts@[k] == earlier[k]);
                            assert(at[k] == before[k] && at[k + 1] == before[k + 1]);
                        }
                    }
                }
            },
        }
        i += 1;
    }
    (Some(counts), Ghost(at))
}

fn develop_particles<A: Arithmetic>(
    ar: &A,
    rng: &mut MtStream,
    counts: &Vec<u64>,
    ps: &Vec<Double>,
) -> (r: (Option<Vec<u64>>, Ghost<Seq<nat>>))
    requires
        ps@.len() == counts@.len(),
    ensures
        match r.0 {
            Some(developed) => {
                &&& are_developed(
                    ar,
                    counts@,
                    ps@,
                    old(rng).seed(),
                    old(rng).drawn(),
                    r.1@,
                    developed@,
                )
                &&& developed@.len() == counts@.len()
            },
            None => stops_developing(
                ar,
                counts@,
                ps@,
                old(rng).seed(),
                old(rng).drawn(),
            ),
        },
{
    let mut developed: Vec<u64> = Vec::new();
    let ghost start = rng.drawn();
    let ghost mut at: Seq<nat> = seq![start];
    let mut i: usize = 0;
    while i < counts.len()
        invariant
            i <= counts@.len(),
            ps@.len() == counts@.len(),
            developed@.len() == i,
            start == old(rng).drawn(),
            rng.seed() == old(rng).seed(),
            rng.drawn() == at.last(),
            are_developed(ar, counts@, ps@, old(rng).seed(), start, at, developed@),
        decreases counts.len() - i,
    {
        if counts[i] >= i64::MAX as u64 {
            proof {
                assert(development_stops(
                    ar,
                    counts@,
                    ps@,
                    old(rng).seed(),
                    start,
                    at,
                    developed@,
                ));
            }
            return (None, Ghost(at));
        }
        match rk_binomial(ar, rng, counts[i], ps[i]) {
            None => {
                proof {
                    assert(development_stops(
                        ar,
                        counts@,
                        ps@,
                        old(rng).seed(),
                        start,
                        at,
                        developed@,
                    ));
                }
                return (None, Ghost(at));
            },
            Some(x) => {
                let ghost before = at;
                let ghost earlier = developed@;
                developed.push(x);
                proof {
                    at = at.push(rng.drawn());
                    assert forall|k: int| 0 <= k < developed@.len() implies is_binomial(
                        ar,
                        counts@[k],
                        ps@[k],
                        old(rng).seed(),
                        at[k],
                        at[k + 1],
                        #[trigger] developed@[k],
                    ) by {
                        if k < earlier.len() {
                            assert(developed@[k] == earlier[k]);
                            assert(at[k] == before[k] && at[k + 1] == before[k + 1]);
                        }
                    }
                }
            },
        }
        i += 1;
    }
    (Some(developed), Ghost(at))
}

// ── One layer ────────────────────────────────────────────────────────────

/// Density of one developed particle.
pub open spec fn particle_density(dmax: Double, per_pixel: Double) -> Formula {
    over(double(dmax), double(per_pixel))
}

/// Density of the developed particles of a pixel.
pub open spec fn developed_density(developed: u64, od: Double, sat: Double) -> Formula {
    times(times(Formula::Whole(developed), double(od)), double(sat))
}

/// `r` is the densities of the developed particles.
pub open spec fn are_grains<T: Sample, A: Arithmetic>(
    ar: &A,
    developed: Seq<u64>,
    od: Double,
    sats: Seq<Double>,
    r: Seq<T>,
) -> bool {
    r.len() == developed.len() && forall|i: int|
        0 <= i < r.len() ==> evaluates(
            ar,
            T::stored(developed_density(developed[i], od, sats[i])),
            (#[trigger] r[i]).number(),
        )
}

fn grains<T: Sample, A: Arithmetic>(
    ar: &A,
    developed: &Vec<u64>,
    od: Double,
    sats: &Vec<Double>,
) -> (r: Vec<T>)
    requires
        sats@.len() == developed@.len(),
    ensures
        are_grains(ar, developed@, od, sats@, r@),
{
    let mut r: Vec<T> = Vec::new();
    let mut i: usize = 0;
    while i < developed.len()
        invariant
            i <= developed@.len(),
            sats@.len() == developed@.len(),
            r@.len() == i,
            forall|k: int|
                0 <= k < i ==> evaluates(
                    ar,
                    T::stored(developed_density(developed@[k], od, sats@[k])),
                    (#[trigger] r@[k]).number(),
                ),
        decreases developed.len() - i,
    {
        let n: Traced<Double> = Traced::whole(ar, developed[i]);
        let d = n.times(ar, Traced::new(ar, od)).times(ar, Traced::new(ar, sats[i]));
        r.push(T::store(ar, d).value);
        i += 1;
    }
    r
}

/// Encoding of 0.1 in single precision: a narrower blur is left out.
pub const MIN_PARTICLE_SIGMA: u32 = 0x3dcc_cccd;

/// Width of the blur of the particles.
pub open spec fn particle_blur(blur: Single, od: Double) -> Formula {
    narrow(times(widen(single(blur)), unary(Unary::SquareRoot, double(od))))
}

/// `r` is the particles after their blur: where it is beyond its threshold,
/// and its width is worth the pass.
pub open spec fn are_blurred_particles<T: Sample, A: Arithmetic>(
    ar: &A,
    width: u32,
    height: u32,
    blur: Single,
    od: Double,
    g: Seq<T>,
    r: Seq<T>,
) -> bool {
    if (Single { bits: GRAIN_BLUR_THRESHOLD }).below(blur) {
        exists|sigma: Single| #[trigger]
            is_single(ar, particle_blur(blur, od), sigma) && if (Single {
                bits: MIN_PARTICLE_SIGMA,
            }).below(sigma) {
                is_blurred(ar, width as nat, height as nat, sigma, g, r)
            } else {
                r == g
            }
    } else {
        r == g
    }
}

fn blurred_particles<T: Sample, A: Arithmetic>(
    ar: &A,
    width: u32,
    height: u32,
    blur: Single,
    od: Double,
    g: Vec<T>,
) -> (r: Vec<T>)
    requires
        g@.len() == pixels_of(width, height),
        width <= isize::MAX,
        height <= isize::MAX,
    ensures
        are_blurred_particles(ar, width, height, blur, od, g@, r@),
        r@.len() == g@.len(),
{
    let threshold = Single { bits: GRAIN_BLUR_THRESHOLD };
    if threshold.is_below(blur) {
        let b: Traced<Single> = Traced::new(ar, blur);
        let o: Traced<Double> = Traced::new(ar, od);
        let sigma = b.widen(ar).times(ar, o.unary(ar, Unary::SquareRoot)).narrow(ar).value;
        assert(is_single(ar, particle_blur(blur, od), sigma));
        let narrowest = Single { bits: MIN_PARTICLE_SIGMA };
        if narrowest.is_below(sigma) {
            return gaussian_blur_channel(ar, &g, width, height, sigma);
        }
    }
    g
}

/// What a layer of particles is made of.
#[derive(Clone, Copy)]
pub struct Layer {
    pub width: u32,
    pub height: u32,
    pub density_max: Double,
    pub per_pixel: Double,
    pub uniformity: Double,
    pub seed: u64,
    pub blur: Single,
}

/// `r` is a layer of particles over densities: all particles are seeded
/// before the first is developed.
pub open spec fn is_layer<T: Sample, A: Arithmetic>(
    ar: &A,
    density: Seq<T>,
    l: Layer,
    r: Seq<T>,
) -> bool {
    exists|
        ps: Seq<Double>,
        sats: Seq<Double>,
        at: Seq<nat>,
        counts: Seq<u64>,
        at2: Seq<nat>,
        developed: Seq<u64>,
        od: Double,
        g: Seq<T>,
    |
        {
            &&& #[trigger] are_covered(ar, density, l.density_max, l.uniformity, ps, sats)
            &&& #[trigger] are_seeded(ar, l.per_pixel, sats, stream_of(l.seed), at, counts)
            &&& counts.len() == density.len()
            &&& #[trigger] are_developed(
                ar,
                counts,
                ps,
                stream_of(l.seed),
                at.last(),
                at2,
                developed,
            )
            &&& developed.len() == density.len()
            &&& is_double(ar, particle_density(l.density_max, l.per_pixel), od)
            &&& #[trigger] are_grains(ar, developed, od, sats, g)
            &&& are_blurred_particles(ar, l.width, l.height, l.blur, od, g, r)
        }
}

/// The layer stops short, in its seeding or in its development.
pub open spec fn layer_stops<T: Sample, A: Arithmetic>(
    ar: &A,
    density: Seq<T>,
    l: Layer,
) -> bool {
    exists|ps: Seq<Double>, sats: Seq<Double>|
        {
            &&& #[trigger] are_covered(ar, density, l.density_max, l.uniformity, ps, sats)
            &&& {
                ||| stops_seeding(ar, l.per_pixel, sats, stream_of(l.seed))
                ||| exists|at: Seq<nat>, counts: Seq<u64>|
                    {
                        &&& #[trigger] are_seeded(
                            ar,
                            l.per_pixel,
                            sats,
                            stream_of(l.seed),
                            at,
                            counts,
                        )
                        &&& counts.len() == density.len()
                        &&& stops_developing(
                            ar,
                            counts,
                            ps,
                            stream_of(l.seed),
                            at.last(),
                        )
                    }
            }
        }
}

/// A layer of particles over the densities of a channel. Gives nothing where
/// a sample is not found within [`TRIES`].
pub fn layer_particle_model<T: Sample, A: Arithmetic>(
    ar: &A,
    density: &Vec<T>,
    l: Layer,
) -> (r: Option<Vec<T>>)
    requires
        density@.len() == pixels_of(l.width, l.height),
        l.width <= isize::MAX,
        l.height <= isize::MAX,
    ensures
        match r {
            Some(g) => is_layer(ar, density@, l, g@) && g@.len() == density@.len(),
            None => layer_stops(ar, density@, l),
        },
{
    let dmax: Traced<Double> = Traced::new(ar, l.density_max);
    let od = dmax.over(ar, Traced::new(ar, l.per_pixel)).value;
    let mut rng = MtStream::new((l.seed % 0x1_0000_0000) as u32);
    let (ps, sats) = coverage(ar, density, l.density_max, l.uniformity);
    assert(are_covered(ar, density@, l.density_max, l.uniformity, ps@, sats@));
    let (seeded, at) = seed_particles(ar, &mut rng, l.per_pixel, &sats);
    match seeded {
        None => None,
        Some(counts) => {
            assert(are_seeded(ar, l.per_pixel, sats@, stream_of(l.seed), at@, counts@));
            let (found, at2) = develop_particles(ar, &mut rng, &counts, &ps);
            match found {
                None => None,
                Some(developed) => {
                    assert(are_developed(
                        ar,
                        counts@,
                        ps@,
                        stream_of(l.seed),
                        at@.last(),
                        at2@,
                        developed@,
                    ));
                    let g: Vec<T> = grains(ar, &developed, od, &sats);
                    assert(are_grains(ar, developed@, od, sats@, g@));
                    Some(blurred_particles(ar, l.width, l.height, l.blur, od, g))
                },
            }
        },
    }
}

// ── The grain of an image ────────────────────────────────────────────────

/// What the grain of a film is made of, at a pixel size.
#[derive(Clone, Copy)]
pub struct Grain {
    pub pixel_size_um: Single,
    pub particle_area_um2: Double,
    pub particle_scale: [Double; 3],
    pub density_min: [Double; 3],
    pub density_max_curves: [Double; 3],
    pub uniformity: [Double; 3],
    pub blur: Single,
    pub n_sub_layers: u32,
}

/// The grain of the parameters of a film.
pub open spec fn grain_of(p: GrainParams, pixel_um: Single, density_max: [Double; 3]) -> Grain {
    Grain {
        pixel_size_um: pixel_um,
        particle_area_um2: p.agx_particle_area_um2,
        particle_scale: p.agx_particle_scale,
        density_min: p.density_min,
        density_max_curves: density_max,
        uniformity: p.uniformity,
        blur: p.blur,
        n_sub_layers: p.n_sub_layers,
    }
}

/// Particles of a pixel in one layer.
pub open spec fn particles(g: Grain, c: int) -> Formula {
    let side = widen(single(g.pixel_size_um));
    let all = over(
        times(side, side),
        times(double(g.particle_area_um2), double(g.particle_scale@[c])),
    );
    if g.n_sub_layers > 1 {
        over(all, Formula::Whole(g.n_sub_layers as u64))
    } else {
        all
    }
}

/// The layer of channel `c` and sub-layer `l`.
pub open spec fn layer_for(
    width: u32,
    height: u32,
    g: Grain,
    c: int,
    l: int,
    dmax: Double,
    per_pixel: Double,
) -> Layer {
    Layer {
        width,
        height,
        density_max: dmax,
        per_pixel,
        uniformity: g.uniformity@[c],
        seed: layer_seed_of(c, l) as u64,
        blur: Single { bits: 0 },
    }
}

/// A number and the lowest density of a channel.
pub open spec fn are_lifted<T: Sample, A: Arithmetic>(ar: &A, xs: Seq<T>, low: T, r: Seq<T>) -> bool {
    r.len() == xs.len() && forall|i: int|
        0 <= i < r.len() ==> evaluates(ar, plus(num(xs[i]), num(low)), (#[trigger] r[i]).number())
}

/// `layers` are the sub-layers of a channel.
pub open spec fn are_layers<T: Sample, A: Arithmetic>(
    ar: &A,
    width: u32,
    height: u32,
    g: Grain,
    c: int,
    dmax: Double,
    per_pixel: Double,
    density: Seq<T>,
    layers: Seq<Seq<T>>,
) -> bool {
    forall|l: int|
        0 <= l < layers.len() ==> is_layer(
            ar,
            density,
            layer_for(width, height, g, c, l, dmax, per_pixel),
            #[trigger] layers[l],
        )
}

/// The sum of `n` sub-layers at pixel `i`.
pub open spec fn layer_sum<T: Sample>(layers: Seq<Seq<T>>, i: int, n: int) -> Formula {
    sum_from(num(T::zero_value()), |l: int| num(layers[l][i]), n)
}

/// Numbers that are sums of `n` sub-layers.
pub open spec fn are_layer_sums<T: Sample, A: Arithmetic>(
    ar: &A,
    layers: Seq<Seq<T>>,
    n: int,
    sums: Seq<T>,
) -> bool {
    forall|i: int|
        0 <= i < sums.len() ==> evaluates(ar, layer_sum(layers, i, n), (#[trigger] sums[i]).number())
}

/// The mean of the sub-layers without the lowest density.
pub open spec fn are_means<T: Sample, A: Arithmetic>(
    ar: &A,
    n: u32,
    low: T,
    sums: Seq<T>,
    r: Seq<T>,
) -> bool {
    r.len() == sums.len() && forall|i: int|
        0 <= i < r.len() ==> evaluates(
            ar,
            minus(
                times(
                    num(sums[i]),
                    T::stored(over(constant(ONE), Formula::Whole(n as u64))),
                ),
                num(low),
            ),
            (#[trigger] r[i]).number(),
        )
}

/// `r` is channel `c` of an image with its grain.
pub open spec fn is_grained_channel<T: Sample, A: Arithmetic>(
    ar: &A,
    width: u32,
    height: u32,
    g: Grain,
    c: int,
    xs: Seq<T>,
    r: Seq<T>,
) -> bool {
    exists|
        dmax: Double,
        per_pixel: Double,
        low: T,
        density: Seq<T>,
        layers: Seq<Seq<T>>,
        sums: Seq<T>,
    |
        {
            &&& is_double(
                ar,
                plus(double(g.density_max_curves@[c]), double(g.density_min@[c])),
                dmax,
            )
            &&& is_double(ar, particles(g, c), per_pixel)
            &&& evaluates(ar, T::stored(double(g.density_min@[c])), low.number())
            &&& #[trigger] are_lifted(ar, xs, low, density)
            &&& #[trigger] are_layers(
                ar,
                width,
                height,
                g,
                c,
                dmax,
                per_pixel,
                density,
                layers,
            )
            &&& layers.len() == g.n_sub_layers
            &&& are_layer_sums(ar, layers, g.n_sub_layers as int, sums)
            &&& #[trigger] are_means(ar, g.n_sub_layers, low, sums, r)
        }
}

/// A sub-layer of a channel stops short.
pub open spec fn channel_stops<T: Sample, A: Arithmetic>(
    ar: &A,
    width: u32,
    height: u32,
    g: Grain,
    c: int,
    xs: Seq<T>,
) -> bool {
    exists|low: T, density: Seq<T>, l: Layer|
        {
            &&& evaluates(ar, T::stored(double(g.density_min@[c])), low.number())
            &&& #[trigger] are_lifted(ar, xs, low, density)
            &&& is_double(
                ar,
                plus(double(g.density_max_curves@[c]), double(g.density_min@[c])),
                l.density_max,
            )
            &&& is_double(ar, particles(g, c), l.per_pixel)
            &&& l == layer_for(
                width,
                height,
                g,
                c,
                l.seed as int / 10,
                l.density_max,
                l.per_pixel,
            )
            &&& l.seed / 10 < g.n_sub_layers
            &&& #[trigger] layer_stops(ar, density, l)
        }
}

fn lifted<T: Sample, A: Arithmetic>(ar: &A, xs: &Vec<T>, low: T) -> (r: Vec<T>)
    ensures
        are_lifted(ar, xs@, low, r@),
{
    let mut r: Vec<T> = Vec::new();
    let mut i: usize = 0;
    while i < xs.len()
        invariant
            i <= xs@.len(),
            r@.len() == i,
            forall|k: int|
                0 <= k < i ==> evaluates(
                    ar,
                    plus(num(xs@[k]), num(low)),
                    (#[trigger] r@[k]).number(),
                ),
        decreases xs.len() - i,
    {
        let x: Traced<T> = Traced::new(ar, xs[i]);
        r.push(x.plus(ar, Traced::new(ar, low)).value);
        i += 1;
    }
    r
}

fn no_sums<T: Sample, A: Arithmetic>(ar: &A, n: usize) -> (r: Vec<T>)
    ensures
        r@.len() == n,
        are_layer_sums(ar, Seq::empty(), 0, r@),
{
    let mut r: Vec<T> = Vec::new();
    let mut i: usize = 0;
    while i < n
        invariant
            i <= n,
            r@.len() == i,
            forall|k: int| 0 <= k < i ==> #[trigger] r@[k] == T::zero_value(),
        decreases n - i,
    {
        r.push(T::zero());
        i += 1;
    }
    r
}

fn add_layer<T: Sample, A: Arithmetic>(
    ar: &A,
    sums: &Vec<T>,
    layer: &Vec<T>,
    layers: Ghost<Seq<Seq<T>>>,
) -> (r: Vec<T>)
    requires
        layer@.len() == sums@.len(),
        are_layer_sums(ar, layers@, layers@.len() as int, sums@),
    ensures
        r@.len() == sums@.len(),
        are_layer_sums(ar, layers@.push(layer@), layers@.len() as int + 1, r@),
{
    let ghost all = layers@.push(layer@);
    let ghost n = layers@.len() as int;
    let mut r: Vec<T> = Vec::new();
    let mut i: usize = 0;
    while i < sums.len()
        invariant
            i <= sums@.len(),
            layer@.len() == sums@.len(),
            are_layer_sums(ar, layers@, n, sums@),
            n == layers@.len(),
            all == layers@.push(layer@),
            r@.len() == i,
            forall|k: int|
                0 <= k < i ==> evaluates(
                    ar,
                    layer_sum(all, k, n + 1),
                    (#[trigger] r@[k]).number(),
                ),
        decreases sums.len() - i,
    {
        let a: Traced<T> = Traced { value: sums[i], formula: Ghost(layer_sum(layers@, i as int, n)) };
        proof {
            assert(sums@[i as int] == a.value);
            lemma_sum_extends(layers@, layer@, i as int, n);
        }
        let v = a.plus(ar, Traced::new(ar, layer[i])).value;
        r.push(v);
        i += 1;
    }
    r
}

proof fn lemma_sum_extends<T: Sample>(layers: Seq<Seq<T>>, layer: Seq<T>, i: int, n: int)
    requires
        0 <= n <= layers.len(),
    ensures
        layer_sum(layers.push(layer), i, n) == layer_sum(layers, i, n),
        n == layers.len() ==> layer_sum(layers.push(layer), i, n + 1) == plus(
            layer_sum(layers, i, n),
            num(layer[i]),
        ),
    decreases n,
{
    let all = layers.push(layer);
    if n > 0 {
        lemma_sum_extends(layers, layer, i, n - 1);
        assert(all[n - 1] == layers[n - 1]);
    }
}

fn means<T: Sample, A: Arithmetic>(ar: &A, n: u32, low: T, sums: &Vec<T>) -> (r: Vec<T>)
    ensures
        are_means(ar, n, low, sums@, r@),
{
    let one: Traced<Double> = Traced::constant(ar, ONE);
    let count: Traced<Double> = Traced::whole(ar, n as u64);
    let scale: Traced<T> = T::store(ar, one.over(ar, count));
    let mut r: Vec<T> = Vec::new();
    let mut i: usize = 0;
    while i < sums.len()
        invariant
            i <= sums@.len(),
            scale.holds(ar),
            scale.formula@ == T::stored(over(constant(ONE), Formula::Whole(n as u64))),
            r@.len() == i,
            forall|k: int|
                0 <= k < i ==> evaluates(
                    ar,
                    minus(
                        times(
                            num(sums@[k]),
                            T::stored(over(constant(ONE), Formula::Whole(n as u64))),
                        ),
                        num(low),
                    ),
                    (#[trigger] r@[k]).number(),
                ),
        decreases sums.len() - i,
    {
        let x: Traced<T> = Traced::new(ar, sums[i]);
        r.push(x.times(ar, scale).minus(ar, Traced::new(ar, low)).value);
        i += 1;
    }
    r
}

fn particles_of<A: Arithmetic>(ar: &A, g: &Grain, c: usize) -> (r: Double)
    requires
        c < 3,
    ensures
        is_double(ar, particles(*g, c as int), r),
{
    let p: Traced<Single> = Traced::new(ar, g.pixel_size_um);
    let side = p.widen(ar);
    let area: Traced<Double> = Traced::new(ar, g.particle_area_um2);
    let scale = g.particle_scale;
    let all = side.times(ar, side).over(ar, area.times(ar, Traced::new(ar, scale[c])));
    if g.n_sub_layers > 1 {
        let n: Traced<Double> = Traced::whole(ar, g.n_sub_layers as u64);
        all.over(ar, n).value
    } else {
        all.value
    }
}

fn grained_channel<T: Sample, A: Arithmetic>(
    ar: &A,
    width: u32,
    height: u32,
    g: &Grain,
    c: u32,
    xs: &Vec<T>,
) -> (r: Option<Vec<T>>)
    requires
        c < 3,
        xs@.len() == pixels_of(width, height),
        width <= isize::MAX,
        height <= isize::MAX,
    ensures
        match r {
            Some(v) => is_grained_channel(ar, width, height, *g, c as int, xs@, v@) && v@.len()
                == xs@.len(),
            None => channel_stops(ar, width, height, *g, c as int, xs@),
        },
{
    let lows = g.density_min;
    let tops = g.density_max_curves;
    let uniformities = g.uniformity;
    let top: Traced<Double> = Traced::new(ar, tops[c as usize]);
    let dmin: Traced<Double> = Traced::new(ar, lows[c as usize]);
    let dmax = top.plus(ar, dmin).value;
    let per_pixel = particles_of(ar, g, c as usize);
    let low: T = T::store(ar, dmin).value;
    let density = lifted(ar, xs, low);
    assert(are_lifted(ar, xs@, low, density@));
    let mut sums: Vec<T> = no_sums(ar, xs.len());
    let ghost mut layers: Seq<Seq<T>> = Seq::empty();
    let mut l: u32 = 0;
    while l < g.n_sub_layers
        invariant
            l <= g.n_sub_layers,
            c < 3,
            uniformities == g.uniformity,
            xs@.len() == pixels_of(width, height),
            density@.len() == xs@.len(),
            are_lifted(ar, xs@, low, density@),
            evaluates(ar, T::stored(double(g.density_min@[c as int])), low.number()),
            is_double(
                ar,
                plus(double(g.density_max_curves@[c as int]), double(g.density_min@[c as int])),
                dmax,
            ),
            is_double(ar, particles(*g, c as int), per_pixel),
            width <= isize::MAX,
            height <= isize::MAX,
            sums@.len() == xs@.len(),
            layers.len() == l,
            are_layers(ar, width, height, *g, c as int, dmax, per_pixel, density@, layers),
            are_layer_sums(ar, layers, l as int, sums@),
        decreases g.n_sub_layers - l,
    {
        let seed: u64 = layer_seed(c, l);
        let layer = Layer {
            width,
            height,
            density_max: dmax,
            per_pixel,
            uniformity: uniformities[c as usize],
            seed,
            blur: Single { bits: 0 },
        };
        match layer_particle_model(ar, &density, layer) {
            None => {
                proof {
                    assert(layer_stops(ar, density@, layer));
                    assert(seed / 10 == l);
                }
                return None;
            },
            Some(v) => {
                let ghost before = layers;
                sums = add_layer(ar, &sums, &v, Ghost(layers));
                proof {
                    layers = layers.push(v@);
                    assert forall|k: int| 0 <= k < layers.len() implies is_layer(
                        ar,
                        density@,
                        layer_for(width, height, *g, c as int, k, dmax, per_pixel),
                        #[trigger] layers[k],
                    ) by {
                        if k < before.len() {
                            assert(layers[k] == before[k]);
                        }
                    }
                }
            },
        }
        l += 1;
    }
    let r = means(ar, g.n_sub_layers, low, &sums);
    proof {
        assert(are_layers(ar, width, height, *g, c as int, dmax, per_pixel, density@, layers));
        assert(are_means(ar, g.n_sub_layers, low, sums@, r@));
    }
    Some(r)
}

/// `r` is a density image with its grain.
pub open spec fn is_grained<T: Sample, A: Arithmetic, B: ComputeBackend<T>>(
    ar: &A,
    backend: &B,
    img: ImageBuf<T>,
    g: Grain,
    r: ImageBuf<T>,
) -> bool {
    exists|sharp: ImageBuf<T>|
        {
            &&& #[trigger] has_grain(ar, img, g, sharp)
            &&& if (Single { bits: GRAIN_BLUR_THRESHOLD }).below(g.blur) {
                call_ensures(B::gaussian_blur, (backend, &sharp, g.blur), r)
            } else {
                same_image(sharp, r)
            }
        }
}

/// Each channel of `r` is that of the image with its grain.
pub open spec fn has_grain<T: Sample, A: Arithmetic>(
    ar: &A,
    img: ImageBuf<T>,
    g: Grain,
    r: ImageBuf<T>,
) -> bool {
    &&& r.width == img.width
    &&& r.height == img.height
    &&& r.valid()
    &&& forall|c: int|
        0 <= c < 3 ==> is_grained_channel(
            ar,
            img.width,
            img.height,
            g,
            c,
            #[trigger] channel_of(img.data@, c),
            channel_of(r.data@, c),
        )
}

/// The grain of some channel stops short.
pub open spec fn grain_stops<T: Sample, A: Arithmetic>(
    ar: &A,
    img: ImageBuf<T>,
    g: Grain,
) -> bool {
    exists|c: int|
        0 <= c < 3 && channel_stops(
            ar,
            img.width,
            img.height,
            g,
            c,
            #[trigger] channel_of(img.data@, c),
        )
}

/// Puts the grain of a film on a density image. Gives nothing where a sample
/// is not found within [`TRIES`].
pub fn apply_grain_to_density<T: Sample, A: Arithmetic, B: ComputeBackend<T>>(
    ar: &A,
    backend: &B,
    density_cmy: &ImageBuf<T>,
    g: &Grain,
) -> (r: Option<ImageBuf<T>>)
    requires
        density_cmy.valid(),
        addressable(*density_cmy),
    ensures
        match r {
            Some(v) => {
                &&& is_grained(ar, backend, *density_cmy, *g, v)
                &&& v.width == density_cmy.width
                &&& v.height == density_cmy.height
                &&& v.valid()
            },
            None => grain_stops(ar, *density_cmy, *g),
        },
{
    let w: u32 = density_cmy.width;
    let h: u32 = density_cmy.height;
    let x0 = density_cmy.extract_channel(0);
    let x1 = density_cmy.extract_channel(1);
    let x2 = density_cmy.extract_channel(2);
    proof {
        assert(x0@ =~= channel_of(density_cmy.data@, 0));
        assert(x1@ =~= channel_of(density_cmy.data@, 1));
        assert(x2@ =~= channel_of(density_cmy.data@, 2));
    }
    let c0 = match grained_channel(ar, w, h, g, 0, &x0) {
        Some(v) => v,
        None => return None,
    };
    let c1 = match grained_channel(ar, w, h, g, 1, &x1) {
        Some(v) => v,
        None => return None,
    };
    let c2 = match grained_channel(ar, w, h, g, 2, &x2) {
        Some(v) => v,
        None => return None,
    };
    let sharp = ImageBuf::from_channels(w, h, c0.as_slice(), c1.as_slice(), c2.as_slice());
    let ghost kept = sharp;
    proof {
        assert forall|c: int| 0 <= c < 3 implies is_grained_channel(
            ar,
            density_cmy.width,
            density_cmy.height,
            *g,
            c,
            #[trigger] channel_of(density_cmy.data@, c),
            channel_of(kept.data@, c),
        ) by {}
        assert(has_grain(ar, *density_cmy, *g, kept));
    }
    let threshold = Single { bits: GRAIN_BLUR_THRESHOLD };
    if threshold.is_below(g.blur) {
        Some(backend.gaussian_blur(&sharp, g.blur))
    } else {
        Some(sharp)
    }
}

} // verus!
