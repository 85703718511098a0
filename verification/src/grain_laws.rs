//! What grain keeps: the density of a layer is on average the density that it
//! was made of.

use vstd::arithmetic::power2::{lemma2_to64, lemma2_to64_rest, lemma_pow2_adds};
use vstd::prelude::*;

use crate::arith::{constant, double, evaluates, is_double, minus, over, plus, times};
use crate::arith::{Arithmetic, Formula, Sample};
use crate::bits::{Double, Single};
use crate::density_curves::ONE;
use crate::exact::{double_value, exact, finite_leaves, lemma_small_numbers};
use crate::exact::{single_value, Functions};
use crate::film_chain::GRAIN_BLUR_THRESHOLD;
use crate::gamma::{number_finite, value_of};
use crate::grain::{are_blurred_particles, are_covered, are_developed, are_grains, are_layer_sums};
use crate::grain::{are_layers, are_lifted, are_means, are_seeded, developed_density, is_layer};
use crate::grain::{is_grained_channel, is_seeded, is_share, layer_for, layer_sum, particle_density};
use crate::grain::{particles, saturation, stream_of, Grain, Layer, GREATEST_SHARE, LEAST_SHARE};
use crate::interp::num;
use crate::lossless::{lemma_lossless, lemma_lossless_double, lossless};
use crate::meter_laws::{lemma_grouped, lemma_swapped};
use crate::numpy_rng::{is_binomial, is_poisson};
use crate::rounding::lemma_order;

verus! {

/// Every number of a sequence is finite.
pub open spec fn finite_samples<T: Sample>(xs: Seq<T>) -> bool {
    forall|i: int| 0 <= i < xs.len() ==> number_finite((#[trigger] xs[i]).number())
}

/// A layer that can hold grain: a highest density and particles above zero,
/// and a uniformity from 0 to 1.
pub open spec fn is_grainy(l: Layer) -> bool {
    &&& l.density_max.finite() && l.per_pixel.finite() && l.uniformity.finite()
    &&& 0real < double_value(l.density_max)
    &&& 0real < double_value(l.per_pixel)
    &&& 0real <= double_value(l.uniformity) <= 1real
}

proof fn lemma_share_constants()
    ensures
        0real < double_value(Double { bits: LEAST_SHARE }) <= 1000001real / 1000000000000real,
        999998999real / 1000000000real <= double_value(Double { bits: GREATEST_SHARE })
            < 999999001real / 1000000000real,
        (Double { bits: LEAST_SHARE }).finite(),
        (Double { bits: GREATEST_SHARE }).finite(),
        double_value(Double { bits: ONE }) == 1real,
{
    lemma2_to64();
    lemma2_to64_rest();
    lemma_small_numbers();
    lemma_pow2_adds(36, 36);
    assert(double_value(Double { bits: LEAST_SHARE }) == (0x10_c6f7_a0b5_ed8dint as real) / (
    0x100_0000_0000_0000_0000int as real));
    assert(double_value(Double { bits: GREATEST_SHARE }) == (0x1f_fffd_e721_0be9int as real) / (
    0x20_0000_0000_0000int as real));
}

/// The probability of a particle: the share of the density in the highest one,
/// kept away from 0 and 1.
proof fn lemma_share<T: Sample, A: Arithmetic>(
    ar: &A,
    g: Functions,
    d: T,
    dmax: Double,
    p: Double,
)
    requires
        lossless(ar, g),
        number_finite(d.number()),
        dmax.finite(),
        0real < double_value(dmax),
        is_share(ar, d, dmax, p),
    ensures
        p.finite(),
        0real < double_value(p) < 999999001real / 1000000000real,
        1000001real / 1000000000000real * double_value(dmax) <= value_of(d) <= 999998999real
            / 1000000000real * double_value(dmax) ==> double_value(p) * double_value(dmax)
            == value_of(d),
{
    lemma_share_constants();
    let (low, high) = (Double { bits: LEAST_SHARE }, Double { bits: GREATEST_SHARE });
    let f = over(d.fetched(), double(dmax));
    let ratio = choose|ratio: Double| #[trigger]
        is_double(ar, over(d.fetched(), double(dmax)), ratio) && p == ratio.limited(low, high);
    d.lemma_forms(g, f);
    reveal_with_fuel(finite_leaves, 2);
    reveal_with_fuel(exact, 2);
    lemma_lossless_double(ar, g, f, ratio);
    lemma_order(ratio, low);
    lemma_order(high, ratio);
    let (v, m) = (value_of(d), double_value(dmax));
    lemma_ratio_limits(v, m);
}

proof fn lemma_ratio_limits(v: real, m: real)
    by (nonlinear_arith)
    requires
        0real < m,
    ensures
        (v / m) * m == v,
        1000001real / 1000000000000real * m <= v ==> 1000001real / 1000000000000real <= v / m,
        v <= 999998999real / 1000000000real * m ==> v / m <= 999998999real / 1000000000real,
{
    assert((v / m) * m == v);
}

/// The saturation: one less the probability times the uniformity, and so above
/// zero.
proof fn lemma_saturation<A: Arithmetic>(ar: &A, g: Functions, p: Double, u: Double, sat: Double)
    requires
        lossless(ar, g),
        p.finite() && u.finite(),
        0real < double_value(p) < 1real,
        0real <= double_value(u) <= 1real,
        is_double(ar, saturation(p, u), sat),
    ensures
        sat.finite(),
        0real < double_value(sat) <= 1real,
        double_value(sat) == 1real - double_value(p) * double_value(u) * double_value(
            Double { bits: GREATEST_SHARE },
        ),
{
    lemma_share_constants();
    let f = saturation(p, u);
    reveal_with_fuel(finite_leaves, 4);
    reveal_with_fuel(exact, 4);
    lemma_lossless_double(ar, g, f, sat);
    let (x, y, k) = (double_value(p), double_value(u), double_value(Double { bits: GREATEST_SHARE }));
    assert(0real <= x * y < 1real) by (nonlinear_arith)
        requires
            0real < x < 1real,
            0real <= y <= 1real,
    ;
    let z = x * y;
    assert(0real <= z * k < 1real) by (nonlinear_arith)
        requires
            0real <= z < 1real,
            0real <= k <= 1real,
    ;
}

/// How a layer was drawn.
pub ghost struct Draws {
    /// Probabilities of the particles.
    pub ps: Seq<Double>,
    /// Numbers of particles to expect.
    pub rates: Seq<Double>,
    /// Particles seeded, from the words up to each place.
    pub counts: Seq<u64>,
    pub at: Seq<nat>,
    /// Particles developed, from the words up to each place.
    pub developed: Seq<u64>,
    pub at2: Seq<nat>,
}

/// The particles of pixel `i` were drawn: seeded by a Poisson draw at the
/// pixel's rate, and developed by a binomial one at its probability.
pub open spec fn is_drawn<A: Arithmetic>(ar: &A, seed: u32, d: Draws, i: int) -> bool {
    &&& is_poisson(ar, d.rates[i], seed, d.at[i], d.at[i + 1], d.counts[i])
    &&& is_binomial(ar, d.counts[i], d.ps[i], seed, d.at2[i], d.at2[i + 1], d.developed[i])
    &&& d.ps[i].finite() && d.rates[i].finite()
}

/// Developed particles to expect in pixel `i`: the rate of the seeding times
/// the probability of development.
pub open spec fn expected(d: Draws, i: int) -> real {
    double_value(d.rates[i]) * double_value(d.ps[i])
}

/// A pixel of density `was` has the density `now`: the two are to each other as
/// the particles that developed are to those to expect. A density that is next
/// to nothing, or to the highest one, counts as a millionth from it.
pub open spec fn is_kept(l: Layer, d: Draws, i: int, was: real, now: real) -> bool {
    let top = double_value(l.density_max);
    let aimed = double_value(d.ps[i]) * top;
    &&& 0real < expected(d, i)
    &&& now * expected(d, i) == (d.developed[i] as real) * aimed
    &&& 1000001real / 1000000000000real * top <= was <= 999998999real / 1000000000real * top
        ==> aimed == was
}

/// The density of a pixel is made of equal steps, and the variance of a Poisson
/// draw in these steps is that of the grain: proportional to the probability,
/// to what the uniformity leaves, and to the square of the highest density, and
/// smaller with more particles.
pub open spec fn has_variance(l: Layer, d: Draws, i: int, now: real) -> bool {
    let p = double_value(d.ps[i]);
    let step = particle_step(l, d, i);
    let top = double_value(l.density_max);
    &&& now == (d.developed[i] as real) * step
    &&& expected(d, i) * (step * step) * double_value(l.per_pixel) == (p * (1real - p
        * double_value(l.uniformity) * double_value(Double { bits: GREATEST_SHARE }))) * (top * top)
}

/// Grain keeps the density on average: without rounding, the density of a
/// pixel is to the density that it was made of as the number of particles that
/// developed is to the number to expect, the rate of the seeding times the
/// probability of development. So it is the same where that number developed.
pub proof fn lemma_grain_keeps_density<T: Sample, A: Arithmetic>(
    ar: &A,
    g: Functions,
    density: Seq<T>,
    l: Layer,
    r: Seq<T>,
) -> (d: Draws)
    requires
        lossless(ar, g),
        finite_samples(density),
        is_grainy(l),
        !(Single { bits: GRAIN_BLUR_THRESHOLD }).below(l.blur),
        is_layer(ar, density, l, r),
    ensures
        d.developed.len() == density.len(),
        r.len() == density.len(),
        finite_samples(r),
        forall|i: int|
            0 <= i < density.len() ==> #[trigger] is_drawn(ar, stream_of(l.seed), d, i)
                && is_kept(l, d, i, value_of(density[i]), value_of(r[i])) && has_variance(
                l,
                d,
                i,
                value_of(r[i]),
            ),
{
    let (ps, sats, at, counts, at2, developed, od, s) = choose|
        ps: Seq<Double>,
        sats: Seq<Double>,
        at: Seq<nat>,
        counts: Seq<u64>,
        at2: Seq<nat>,
        developed: Seq<u64>,
        od: Double,
        s: Seq<T>,
    |
        {
            &&& #[trigger] are_covered(ar, density, l.density_max, l.uniformity, ps, sats)
            &&& #[trigger] are_seeded(ar, l.per_pixel, sats, stream_of(l.seed), at, counts)
            &&& counts.len() == density.len()
            &&& #[trigger] are_developed(
                ar,
                counts,
                ps,
                stream_of(l.seed),
                at.last(),
                at2,
                developed,
            )
            &&& developed.len() == density.len()
            &&& is_double(ar, particle_density(l.density_max, l.per_pixel), od)
            &&& #[trigger] are_grains(ar, developed, od, sats, s)
            &&& are_blurred_particles(ar, l.width, l.height, l.blur, od, s, r)
        };
    let rates = Seq::new(density.len(), |i: int| seeding_rate(ar, l, sats[i], at[i], at[i + 1], counts[i]));
    let d = Draws { ps, rates, counts, at, developed, at2 };
    let dmax = double_value(l.density_max);
    let n = double_value(l.per_pixel);
    assert forall|i: int| 0 <= i < density.len() implies #[trigger] is_drawn(
        ar,
        stream_of(l.seed),
        d,
        i,
    ) && is_kept(l, d, i, value_of(density[i]), value_of(r[i])) && has_variance(
        l,
        d,
        i,
        value_of(r[i]),
    ) by {
        assert(is_share(ar, density[i], l.density_max, ps[i]));
        lemma_share(ar, g, density[i], l.density_max, ps[i]);
        assert(is_double(ar, saturation(ps[i], l.uniformity), sats[i]));
        lemma_saturation(ar, g, ps[i], l.uniformity, sats[i]);
        assert(is_seeded(ar, l.per_pixel, sats[i], stream_of(l.seed), at[i], at[i + 1], counts[i]));
        assert(is_binomial(
            ar,
            counts[i],
            ps[i],
            stream_of(l.seed),
            at2[i],
            at2[i + 1],
            developed[i],
        ));
        let rate = rates[i];
        let f = over(double(l.per_pixel), double(sats[i]));
        assert(is_double(ar, f, rate));
        reveal_with_fuel(finite_leaves, 3);
        reveal_with_fuel(exact, 3);
        lemma_lossless_double(ar, g, f, rate);
        lemma_lossless_double(ar, g, particle_density(l.density_max, l.per_pixel), od);
        let h = developed_density(developed[i], od, sats[i]);
        s[i].lemma_forms(g, h);
        T::lemma_stored(g, h);
        assert(evaluates(ar, T::stored(h), s[i].number()));
        lemma_lossless(ar, g, T::stored(h), s[i].number());
        lemma_expected(
            n,
            double_value(sats[i]),
            dmax,
            double_value(ps[i]),
            developed[i] as real,
        );
        lemma_step_of(n, double_value(sats[i]), dmax);
    }
    assert forall|i: int| 0 <= i < r.len() implies number_finite((#[trigger] r[i]).number()) by {
        assert(is_drawn(ar, stream_of(l.seed), d, i));
        let h = developed_density(developed[i], od, sats[i]);
        s[i].lemma_forms(g, h);
        lemma_share(ar, g, density[i], l.density_max, ps[i]);
        assert(is_double(ar, saturation(ps[i], l.uniformity), sats[i]));
        lemma_saturation(ar, g, ps[i], l.uniformity, sats[i]);
        reveal_with_fuel(finite_leaves, 3);
        lemma_lossless_double(ar, g, particle_density(l.density_max, l.per_pixel), od);
        assert(evaluates(ar, T::stored(h), s[i].number()));
        lemma_lossless(ar, g, T::stored(h), s[i].number());
    }
    d
}

/// What one more particle adds to the density of pixel `i`.
pub open spec fn particle_step(l: Layer, d: Draws, i: int) -> real {
    double_value(l.density_max) / double_value(d.rates[i])
}

proof fn lemma_step_of(n: real, s: real, dmax: real)
    by (nonlinear_arith)
    requires
        0real < n,
        0real < s,
    ensures
        0real < n / s,
        (dmax / n) * s == dmax / (n / s),
{
    let q = n / s;
    assert(q * s == n);
    assert(0real < q);
    let t = dmax / q;
    assert(t * q == dmax);
    let o = dmax / n;
    assert(o * n == dmax);
    assert((o * s - t) * q == 0real);
}

/// The expected density of a layer, and how far it strays.
proof fn lemma_expected(n: real, s: real, dmax: real, p: real, k: real)
    requires
        0real < n,
        0real < s,
        0real < p,
    ensures
        ({
            let m = (n / s) * p;
            let step = (dmax / n) * s;
            &&& 0real < m
            &&& ((k * (dmax / n)) * s) == k * step
            &&& ((k * (dmax / n)) * s) * m == k * (p * dmax)
            &&& m * (step * step) * n == (p * s) * (dmax * dmax)
        }),
{
    let (q, o) = (n / s, dmax / n);
    assert(q * s == n && o * n == dmax && 0real < q) by (nonlinear_arith)
        requires
            q == n / s,
            o == dmax / n,
            0real < n,
            0real < s,
    ;
    let m = q * p;
    let step = o * s;
    assert(0real < m) by (nonlinear_arith)
        requires
            0real < q,
            0real < p,
            m == q * p,
    ;
    lemma_grouped(k, o, s);
    // step * m == o * (s * q) * p == o * n * p == dmax * p
    assert(step * q == dmax) by {
        lemma_grouped(o, s, q);
        assert(s * q == q * s) by (nonlinear_arith);
    }
    assert(step * m == dmax * p) by {
        lemma_grouped(step, q, p);
    }
    assert(dmax * p == p * dmax) by (nonlinear_arith);
    lemma_grouped(k, step, m);
    // m * step * step * n == (dmax * p) * (step * n) and step * n == s * dmax
    assert(step * n == s * dmax) by {
        assert(o * s == s * o) by (nonlinear_arith);
        lemma_grouped(s, o, n);
    }
    assert(m * (step * step) == (step * m) * step) by {
        lemma_swapped(m, step, step);
        lemma_grouped(step, m, step);
    }
    assert((m * (step * step)) * n == (dmax * p) * (s * dmax)) by {
        lemma_grouped(dmax * p, step, n);
    }
    assert((dmax * p) * (s * dmax) == (p * s) * (dmax * dmax)) by {
        lemma_four(dmax, p, s);
    }
}

proof fn lemma_four(d: real, p: real, s: real)
    by (nonlinear_arith)
    ensures
        (d * p) * (s * d) == (p * s) * (d * d),
{
}

/// The rate of a seeding.
spec fn seeding_rate<A: Arithmetic>(
    ar: &A,
    l: Layer,
    sat: Double,
    from: nat,
    to: nat,
    x: u64,
) -> Double {
    choose|rate: Double| #[trigger]
        is_double(ar, over(double(l.per_pixel), double(sat)), rate) && is_poisson(
            ar,
            rate,
            stream_of(l.seed),
            from,
            to,
            x,
        )
}

// ── Channels ─────────────────────────────────────────────────────────────

/// The sub-layers of a pixel, added up.
pub open spec fn layers_total<T: Sample>(layers: Seq<Seq<T>>, i: int, n: int) -> real
    decreases n,
{
    if n <= 0 {
        0real
    } else {
        layers_total(layers, i, n - 1) + value_of(layers[n - 1][i])
    }
}

proof fn lemma_layers_total<T: Sample>(g: Functions, layers: Seq<Seq<T>>, i: int, n: int)
    requires
        forall|l: int|
            0 <= l < n ==> number_finite((#[trigger] layers[l])[i].number()),
    ensures
        finite_leaves(layer_sum(layers, i, n)),
        exact(g, layer_sum(layers, i, n)) == layers_total(layers, i, n),
    decreases n,
{
    T::lemma_zero();
    let terms = |l: int| num(layers[l][i]);
    let z = num(T::zero_value());
    reveal_with_fuel(finite_leaves, 2);
    reveal_with_fuel(exact, 2);
    if n > 0 {
        lemma_layers_total(g, layers, i, n - 1);
        assert(number_finite(layers[n - 1][i].number()));
        assert(layer_sum(layers, i, n) == plus(layer_sum(layers, i, n - 1), terms(n - 1)));
    }
}

/// What the parts of a channel come from.
pub ghost struct Parts<T> {
    pub top: Double,
    pub per_pixel: Double,
    pub density: Seq<T>,
    pub layers: Seq<Seq<T>>,
}

/// A channel of grain is the mean of its sub-layers: without rounding, each
/// sub-layer is one of particles over the density with the lowest density put
/// on it, up to the highest density of the curves with the lowest put on it;
/// the particles of all sub-layers fill the pixel; and the mean of the
/// sub-layers less the lowest density is what comes out.
pub proof fn lemma_channel_is_a_mean<T: Sample, A: Arithmetic>(
    ar: &A,
    g: Functions,
    width: u32,
    height: u32,
    grain: Grain,
    c: int,
    xs: Seq<T>,
    r: Seq<T>,
) -> (q: Parts<T>)
    requires
        lossless(ar, g),
        finite_samples(xs),
        0 <= c < 3,
        grain.n_sub_layers > 0,
        grain.density_min@[c].finite(),
        grain.density_max_curves@[c].finite(),
        grain.pixel_size_um.finite(),
        grain.particle_area_um2.finite(),
        grain.particle_scale@[c].finite(),
        grain.uniformity@[c].finite(),
        0real <= double_value(grain.uniformity@[c]) <= 1real,
        0real < double_value(grain.density_max_curves@[c]) + double_value(grain.density_min@[c]),
        0real < single_value(grain.pixel_size_um),
        0real < double_value(grain.particle_area_um2),
        0real < double_value(grain.particle_scale@[c]),
        is_grained_channel(ar, width, height, grain, c, xs, r),
    ensures
        double_value(q.top) == double_value(grain.density_max_curves@[c]) + double_value(
            grain.density_min@[c],
        ),
        double_value(q.per_pixel) * (grain.n_sub_layers as real) * (double_value(
            grain.particle_area_um2,
        ) * double_value(grain.particle_scale@[c])) == single_value(grain.pixel_size_um)
            * single_value(grain.pixel_size_um),
        q.layers.len() == grain.n_sub_layers,
        q.density.len() == xs.len(),
        forall|l: int|
            0 <= l < q.layers.len() ==> is_layer(
                ar,
                q.density,
                layer_for(width, height, grain, c, l, q.top, q.per_pixel),
                #[trigger] q.layers[l],
            ) && is_grainy(layer_for(width, height, grain, c, l, q.top, q.per_pixel)),
        forall|i: int|
            0 <= i < xs.len() ==> value_of(#[trigger] q.density[i]) == value_of(xs[i])
                + double_value(grain.density_min@[c]),
        forall|i: int|
            0 <= i < r.len() && i < xs.len() ==> (value_of(#[trigger] r[i]) + double_value(
                grain.density_min@[c],
            )) * (grain.n_sub_layers as real) == layers_total(
                q.layers,
                i,
                grain.n_sub_layers as int,
            ),
{
    let (top, per_pixel, low, density, layers, sums) = choose|
        top: Double,
        per_pixel: Double,
        low: T,
        density: Seq<T>,
        layers: Seq<Seq<T>>,
        sums: Seq<T>,
    |
        {
            &&& is_double(
                ar,
                plus(double(grain.density_max_curves@[c]), double(grain.density_min@[c])),
                top,
            )
            &&& is_double(ar, particles(grain, c), per_pixel)
            &&& evaluates(ar, T::stored(double(grain.density_min@[c])), low.number())
            &&& #[trigger] are_lifted(ar, xs, low, density)
            &&& #[trigger] are_layers(
                ar,
                width,
                height,
                grain,
                c,
                top,
                per_pixel,
                density,
                layers,
            )
            &&& layers.len() == grain.n_sub_layers
            &&& are_layer_sums(ar, layers, grain.n_sub_layers as int, sums)
            &&& #[trigger] are_means(ar, grain.n_sub_layers, low, sums, r)
        };
    let q = Parts { top, per_pixel, density, layers };
    let n = grain.n_sub_layers as int;
    let dmin = double(grain.density_min@[c]);
    reveal_with_fuel(finite_leaves, 3);
    reveal_with_fuel(exact, 3);
    lemma_lossless_double(ar, g, plus(double(grain.density_max_curves@[c]), dmin), top);
    low.lemma_forms(g, dmin);
    T::lemma_stored(g, dmin);
    lemma_lossless(ar, g, T::stored(dmin), low.number());
    lemma_particles(ar, g, grain, c, per_pixel);
    assert forall|i: int| 0 <= i < xs.len() implies value_of(#[trigger] density[i]) == value_of(
        xs[i],
    ) + double_value(grain.density_min@[c]) && number_finite(density[i].number()) by {
        assert(evaluates(ar, plus(num(xs[i]), num(low)), density[i].number()));
        lemma_lossless(ar, g, plus(num(xs[i]), num(low)), density[i].number());
    }
    assert(finite_samples(density));
    lemma_threshold();
    assert forall|l: int| 0 <= l < layers.len() implies is_layer(
        ar,
        density,
        layer_for(width, height, grain, c, l, top, per_pixel),
        #[trigger] layers[l],
    ) && is_grainy(layer_for(width, height, grain, c, l, top, per_pixel)) && finite_samples(
        layers[l],
    ) && layers[l].len() == density.len() by {
        let layer = layer_for(width, height, grain, c, l, top, per_pixel);
        assert(is_layer(ar, density, layer, layers[l]));
        let d = lemma_grain_keeps_density(ar, g, density, layer, layers[l]);
    }
    assert forall|i: int| 0 <= i < r.len() && i < xs.len() implies (value_of(#[trigger] r[i])
        + double_value(grain.density_min@[c])) * (n as real) == layers_total(layers, i, n) by {
        assert forall|l: int| 0 <= l < n implies number_finite(
            (#[trigger] layers[l])[i].number(),
        ) by {
            assert(finite_samples(layers[l]));
        }
        lemma_layers_total(g, layers, i, n);
        assert(evaluates(ar, layer_sum(layers, i, n), sums[i].number()));
        lemma_lossless(ar, g, layer_sum(layers, i, n), sums[i].number());
        let part = over(constant(ONE), Formula::Whole(n as u64));
        let f = minus(times(num(sums[i]), T::stored(part)), num(low));
        lemma_share_constants();
        low.lemma_forms(g, part);
        T::lemma_stored(g, part);
        reveal_with_fuel(finite_leaves, 4);
        reveal_with_fuel(exact, 4);
        assert(exact(g, part) == 1real / (n as real));
        lemma_lossless(ar, g, f, r[i].number());
        let t = layers_total(layers, i, n);
        let k = n as real;
        assert((t * (1real / k)) * k == t) by {
            lemma_grouped(t, 1real / k, k);
            assert((1real / k) * k == 1real) by (nonlinear_arith)
                requires
                    k > 0real,
            ;
        }
    }
    q
}

/// The blur of a sub-layer is left out.
proof fn lemma_threshold()
    ensures
        !(Single { bits: GRAIN_BLUR_THRESHOLD }).below(Single { bits: 0 }),
{
}

/// The particles of a pixel and their sizes.
proof fn lemma_particles<A: Arithmetic>(ar: &A, g: Functions, grain: Grain, c: int, per_pixel: Double)
    requires
        lossless(ar, g),
        grain.n_sub_layers > 0,
        grain.pixel_size_um.finite(),
        grain.particle_area_um2.finite(),
        grain.particle_scale@[c].finite(),
        0real < single_value(grain.pixel_size_um),
        0real < double_value(grain.particle_area_um2),
        0real < double_value(grain.particle_scale@[c]),
        is_double(ar, particles(grain, c), per_pixel),
    ensures
        per_pixel.finite(),
        0real < double_value(per_pixel),
        double_value(per_pixel) * (grain.n_sub_layers as real) * (double_value(
            grain.particle_area_um2,
        ) * double_value(grain.particle_scale@[c])) == single_value(grain.pixel_size_um)
            * single_value(grain.pixel_size_um),
{
    let side = single_value(grain.pixel_size_um);
    let a = double_value(grain.particle_area_um2);
    let s = double_value(grain.particle_scale@[c]);
    let n = grain.n_sub_layers as real;
    reveal_with_fuel(finite_leaves, 6);
    reveal_with_fuel(exact, 6);
    lemma_lossless_double(ar, g, particles(grain, c), per_pixel);
    assert(0real < a * s && 0real < side * side) by (nonlinear_arith)
        requires
            0real < a,
            0real < s,
            0real < side,
    ;
    let (x, y) = (side * side, a * s);
    assert((x / y) * y == x && 0real < x / y) by (nonlinear_arith)
        requires
            0real < x,
            0real < y,
    ;
    let z = x / y;
    assert((z / n) * n == z && 0real < z / n) by (nonlinear_arith)
        requires
            0real < z,
            0real < n,
    ;
    assert(z * 1real == z) by (nonlinear_arith);
}

} // verus!
