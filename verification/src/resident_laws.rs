//! What the numbers that are handed to the device promise: exposures add up in
//! stops, weights add up to one, and lights keep their colour.

use vstd::arithmetic::power2::{lemma2_to64, lemma2_to64_rest};
use vstd::prelude::*;

use crate::arith::{double, is_single, over, single, sum_from, Arithmetic};
use crate::bits::{Double, Single};
use crate::exact::{double_value, exact, finite_leaves, lemma_one_values, lemma_small_numbers};
use crate::exact::{lemma_zero_values, single_value, Functions};
use crate::files::raw_share;
use crate::gpu_setup::{are_shared, decay_sum, gamma_inverse, renormalizer};
use crate::illuminants::{are_relative, largest};
use crate::interp::table_position;
use crate::lossless::{lemma_lossless_double, lemma_lossless_single, lemma_sum_leaves, lossless};
use crate::meter_laws::lemma_grouped;
use crate::params::GrainParams;
use crate::pipeline::is_print_factor;
use crate::resident::{at_least_one, exposure_scale, resident_particles};
use crate::rounding::lemma_short_order;

verus! {

// ── Exposure ─────────────────────────────────────────────────────────────

/// Powers of two of a sum, and of nothing.
pub open spec fn stops_add(g: Functions) -> bool {
    &&& (g.power)(2real, 0real) == 1real
    &&& forall|x: real, y: real| #[trigger]
        (g.power)(2real, x + y) == (g.power)(2real, x) * (g.power)(2real, y)
}

/// The exposure that is metered and the compensation add up in stops: without
/// rounding, the scale is two to the power of their sum.
pub proof fn lemma_exposures_add(
    g: Functions,
    metered: Option<Single>,
    compensation: Single,
)
    requires
        stops_add(g),
        compensation.finite(),
    ensures
        exact(g, exposure_scale(metered, compensation)) == (g.power)(
            2real,
            (match metered {
                Some(ev) => single_value(ev),
                None => 0real,
            }) + single_value(compensation),
        ),
{
    lemma_small_numbers();
    reveal_with_fuel(exact, 5);
    lemma_zero_values();
    lemma_short_order(compensation, Single { bits: 0 });
    lemma_short_order(Single { bits: 0 }, compensation);
    let first = match metered {
        Some(ev) => single_value(ev),
        None => 0real,
    };
    let (a, b) = ((g.power)(2real, first), (g.power)(2real, single_value(compensation)));
    assert((g.power)(2real, first + single_value(compensation)) == a * b);
    assert(1real * a == a && a * 1real == a && 1real * b == b) by (nonlinear_arith);
}

/// Compensation is the same with and without normalization: without rounding,
/// the factors with and without it are to each other as the factors of the
/// compensated and of the plain card.
pub proof fn lemma_compensation<A: Arithmetic>(
    ar: &A,
    g: Functions,
    normalize: bool,
    plain: Double,
    comp: Double,
    without: Double,
    with: Double,
)
    requires
        lossless(ar, g),
        plain.finite() && comp.finite(),
        double_value(plain) != 0real,
        is_print_factor(ar, normalize, false, plain, comp, without),
        is_print_factor(ar, normalize, true, plain, comp, with),
    ensures
        double_value(with) * double_value(plain) == double_value(without) * double_value(comp),
{
    lemma_one_values();
    let (a, b) = (double_value(plain), double_value(comp));
    assert(b * a == a * b && 1real * b == b) by (nonlinear_arith);
    if !normalize {
        assert(without == Double { bits: 0x3ff0_0000_0000_0000 });
        reveal_with_fuel(exact, 2);
        reveal_with_fuel(finite_leaves, 2);
        lemma_lossless_double(ar, g, over(double(comp), double(plain)), with);
        lemma_undone(b, a, double_value(with));
    }
}

// ── Weights ──────────────────────────────────────────────────────────────

/// Numbers added up.
pub open spec fn short_total(xs: Seq<Single>, n: int) -> real
    decreases n,
{
    if n <= 0 {
        0real
    } else {
        short_total(xs, n - 1) + single_value(xs[n - 1])
    }
}

/// Weights that are shared out add up to one, and are to each other as they
/// were: without rounding, where their sum is above nothing.
pub proof fn lemma_weights_shared<A: Arithmetic>(
    ar: &A,
    g: Functions,
    decay: Seq<Single>,
    sum: Single,
    r: Seq<Single>,
)
    requires
        lossless(ar, g),
        forall|k: int| 0 <= k < decay.len() ==> (#[trigger] decay[k]).finite(),
        is_single(ar, decay_sum(decay), sum),
        0real < short_total(decay, decay.len() as int),
        are_shared(ar, decay, sum, r),
    ensures
        short_total(r, r.len() as int) == 1real,
        forall|k: int|
            0 <= k < r.len() ==> single_value(#[trigger] r[k]) * short_total(
                decay,
                decay.len() as int,
            ) == single_value(decay[k]),
{
    let n = decay.len() as int;
    let terms = |k: int| single(decay[k]);
    lemma_zero_values();
    assert forall|k: int| 0 <= k < n implies finite_leaves(#[trigger] terms(k)) by {
        assert(decay[k].finite());
    }
    lemma_sum_leaves(single(Single { bits: 0 }), terms, n);
    lemma_lossless_single(ar, g, decay_sum(decay), sum);
    lemma_short_total(g, decay, n);
    lemma_short_order(Single { bits: 0 }, sum);
    let w = single_value(sum);
    assert forall|k: int| 0 <= k < n implies single_value(#[trigger] r[k]) * w == single_value(
        decay[k],
    ) by {
        assert(decay[k].finite());
        let f = over(single(decay[k]), single(sum));
        assert(is_single(ar, f, r[k]));
        reveal_with_fuel(finite_leaves, 2);
        reveal_with_fuel(exact, 2);
        lemma_lossless_single(ar, g, f, r[k]);
        lemma_undone(single_value(decay[k]), w, single_value(r[k]));
    }
    lemma_total_scaled(r, decay, w, n);
    let t = short_total(r, n);
    assert(t == 1real) by (nonlinear_arith)
        requires
            t * w == w,
            0real < w,
    ;
}

proof fn lemma_short_total(g: Functions, xs: Seq<Single>, n: int)
    requires
        0 <= n <= xs.len(),
    ensures
        exact(g, sum_from(single(Single { bits: 0 }), |k: int| single(xs[k]), n)) == short_total(
            xs,
            n,
        ),
    decreases n,
{
    lemma_zero_values();
    reveal_with_fuel(exact, 2);
    if n > 0 {
        lemma_short_total(g, xs, n - 1);
    }
}

proof fn lemma_total_scaled(r: Seq<Single>, xs: Seq<Single>, w: real, n: int)
    requires
        0 <= n <= r.len(),
        n <= xs.len(),
        forall|k: int| 0 <= k < n ==> single_value(#[trigger] r[k]) * w == single_value(xs[k]),
    ensures
        short_total(r, n) * w == short_total(xs, n),
    decreases n,
{
    if n > 0 {
        lemma_total_scaled(r, xs, w, n - 1);
        let (a, b) = (short_total(r, n - 1), single_value(r[n - 1]));
        assert(b * w == single_value(xs[n - 1]));
        assert((a + b) * w == a * w + b * w) by (nonlinear_arith);
    } else {
        assert(0real * w == 0real) by (nonlinear_arith);
    }
}

proof fn lemma_undone(a: real, b: real, q: real)
    by (nonlinear_arith)
    requires
        q == a / b,
        b != 0real,
    ensures
        q * b == a,
{
}

/// The factor after halation takes back what halation adds to an even part:
/// without rounding, it is undone by one plus the strength.
pub proof fn lemma_halation_taken_back<A: Arithmetic>(ar: &A, g: Functions, a: Single, r: Single)
    requires
        lossless(ar, g),
        a.finite(),
        0real <= single_value(a),
        is_single(ar, renormalizer(a), r),
    ensures
        single_value(r) * (1real + single_value(a)) == 1real,
{
    lemma_one_values();
    reveal_with_fuel(exact, 3);
    reveal_with_fuel(finite_leaves, 3);
    lemma_lossless_single(ar, g, renormalizer(a), r);
    lemma_undone(1real, 1real + single_value(a), single_value(r));
}

/// The factor for a gamma undoes it.
pub proof fn lemma_gamma_undone<A: Arithmetic>(ar: &A, g: Functions, gamma: Double, r: Single)
    requires
        lossless(ar, g),
        gamma.finite(),
        double_value(gamma) != 0real,
        is_single(ar, gamma_inverse(gamma), r),
    ensures
        single_value(r) * double_value(gamma) == 1real,
{
    lemma_one_values();
    reveal_with_fuel(exact, 3);
    reveal_with_fuel(finite_leaves, 3);
    lemma_lossless_single(ar, g, gamma_inverse(gamma), r);
    lemma_undone(1real, double_value(gamma), single_value(r));
}

// ── Grain ────────────────────────────────────────────────────────────────

/// The particles of all sub-layers fill a pixel: without rounding, their number
/// times the area of one is the area of the pixel.
pub proof fn lemma_particles_fill<A: Arithmetic>(
    ar: &A,
    g: Functions,
    p: GrainParams,
    pixel_um: Single,
    c: int,
    r: Single,
)
    requires
        lossless(ar, g),
        0 <= c < 3,
        pixel_um.finite(),
        p.agx_particle_area_um2.finite(),
        p.agx_particle_scale@[c].finite(),
        double_value(p.agx_particle_area_um2) * double_value(p.agx_particle_scale@[c]) != 0real,
        is_single(ar, resident_particles(p, pixel_um, c), r),
    ensures
        (single_value(r) * (at_least_one(p.n_sub_layers) as real)) * (double_value(
            p.agx_particle_area_um2,
        ) * double_value(p.agx_particle_scale@[c])) == single_value(pixel_um) * single_value(
            pixel_um,
        ),
{
    reveal_with_fuel(exact, 6);
    reveal_with_fuel(finite_leaves, 6);
    lemma_lossless_single(ar, g, resident_particles(p, pixel_um, c), r);
    let area = double_value(p.agx_particle_area_um2) * double_value(p.agx_particle_scale@[c]);
    let whole = single_value(pixel_um) * single_value(pixel_um);
    let n = at_least_one(p.n_sub_layers) as u64 as real;
    lemma_undone(whole, area, whole / area);
    lemma_undone(whole / area, n, single_value(r));
}

// ── Lights and levels ────────────────────────────────────────────────────

/// A light that is brought to its largest number has one there, and no more
/// anywhere; the numbers are to each other as they were.
pub proof fn lemma_relative_light<A: Arithmetic>(
    ar: &A,
    g: Functions,
    raw: Seq<Single>,
    top: Single,
    r: Seq<Single>,
    i: int,
)
    requires
        lossless(ar, g),
        forall|k: int| 0 <= k < raw.len() ==> (#[trigger] raw[k]).finite(),
        is_single(ar, largest(raw, raw.len() as int), top),
        0 <= i < raw.len(),
        0real < single_value(raw[i]),
        are_relative(ar, raw, top, r),
    ensures
        forall|k: int| 0 <= k < raw.len() ==> single_value(#[trigger] r[k]) <= 1real,
        forall|k: int|
            0 <= k < raw.len() ==> single_value(#[trigger] r[k]) * single_value(top)
                == single_value(raw[k]),
        (forall|k: int| 0 <= k < raw.len() ==> single_value(#[trigger] raw[k]) <= single_value(
            raw[i],
        )) ==> single_value(r[i]) == 1real,
{
    let n = raw.len() as int;
    lemma_largest(g, raw, n);
    lemma_lossless_single(ar, g, largest(raw, n), top);
    lemma_zero_values();
    let t = single_value(top);
    assert(single_value(raw[i]) <= t);
    lemma_short_order(Single { bits: 0 }, top);
    assert forall|k: int| 0 <= k < n implies single_value(#[trigger] r[k]) * t == single_value(
        raw[k],
    ) && single_value(r[k]) <= 1real by {
        assert(raw[k].finite());
        let f = over(single(raw[k]), single(top));
        assert(is_single(ar, f, r[k]));
        reveal_with_fuel(finite_leaves, 2);
        reveal_with_fuel(exact, 2);
        lemma_lossless_single(ar, g, f, r[k]);
        let (x, q) = (single_value(raw[k]), single_value(r[k]));
        lemma_undone(x, t, q);
        assert(x <= t);
        assert(q <= 1real) by (nonlinear_arith)
            requires
                q * t == x,
                x <= t,
                0real < t,
        ;
    }
    if forall|k: int| 0 <= k < n ==> single_value(#[trigger] raw[k]) <= single_value(raw[i]) {
        lemma_largest_at(g, raw, n, i);
        let q = single_value(r[i]);
        assert(q * t == t);
        assert(q == 1real) by (nonlinear_arith)
            requires
                q * t == t,
                0real < t,
        ;
    }
}

proof fn lemma_largest(g: Functions, xs: Seq<Single>, n: int)
    requires
        0 <= n <= xs.len(),
        forall|k: int| 0 <= k < xs.len() ==> (#[trigger] xs[k]).finite(),
    ensures
        finite_leaves(largest(xs, n)),
        0real <= exact(g, largest(xs, n)),
        forall|k: int| 0 <= k < n ==> single_value(#[trigger] xs[k]) <= exact(g, largest(xs, n)),
    decreases n,
{
    lemma_zero_values();
    reveal_with_fuel(exact, 2);
    reveal_with_fuel(finite_leaves, 2);
    if n > 0 {
        lemma_largest(g, xs, n - 1);
        assert(xs[n - 1].finite());
    }
}

proof fn lemma_largest_at(g: Functions, xs: Seq<Single>, n: int, i: int)
    requires
        0 <= n <= xs.len(),
        0 <= i < xs.len(),
        0real < single_value(xs[i]),
        forall|k: int| 0 <= k < xs.len() ==> single_value(#[trigger] xs[k]) <= single_value(xs[i]),
    ensures
        exact(g, largest(xs, n)) <= single_value(xs[i]),
        i < n ==> exact(g, largest(xs, n)) == single_value(xs[i]),
    decreases n,
{
    lemma_zero_values();
    reveal_with_fuel(exact, 2);
    if n > 0 {
        lemma_largest_at(g, xs, n - 1, i);
        assert(single_value(xs[n - 1]) <= single_value(xs[i]));
    }
}

/// The levels of a raw file go from nothing to one, evenly: without rounding, a
/// level is 65535 times its share.
pub proof fn lemma_raw_levels<A: Arithmetic>(ar: &A, g: Functions, level: u16, r: Single)
    requires
        lossless(ar, g),
        is_single(ar, raw_share(level), r),
    ensures
        single_value(r) * 65535real == level as real,
        level == 0 ==> single_value(r) == 0real,
        level == u16::MAX ==> single_value(r) == 1real,
{
    lemma_one_values();
    lemma2_to64();
    lemma2_to64_rest();
    let top = Single { bits: 0x477f_ff00 };
    assert(single_value(top) == (0xff_ff00int as real) / (0x100int as real));
    assert(single_value(top) == 65535real);
    assert(top.finite());
    reveal_with_fuel(exact, 4);
    reveal_with_fuel(finite_leaves, 4);
    lemma_lossless_single(ar, g, raw_share(level), r);
    let (k, q) = (level as u64 as real, single_value(r));
    assert(q == k * (1real / 65535real));
}

/// A uniform table is read along its samples: without rounding, the positions
/// of its ends are the first and the last sample, and between them a position
/// grows evenly.
pub proof fn lemma_table_positions(
    g: Functions,
    x_min: Single,
    x_max: Single,
    n: u64,
    xq: Single,
)
    requires
        single_value(x_min) < single_value(x_max),
        2 <= n,
    ensures
        exact(g, table_position(x_min, x_max, n, xq)) * (single_value(x_max) - single_value(x_min))
            == (single_value(xq) - single_value(x_min)) * (n as real - 1real),
        single_value(xq) == single_value(x_min) ==> exact(g, table_position(x_min, x_max, n, xq))
            == 0real,
        single_value(xq) == single_value(x_max) ==> exact(g, table_position(x_min, x_max, n, xq))
            == n as real - 1real,
{
    lemma_one_values();
    reveal_with_fuel(exact, 5);
    let (d, k) = (single_value(x_max) - single_value(x_min), n as real - 1real);
    let (e, s) = (single_value(xq) - single_value(x_min), d / k);
    lemma_undone(d, k, s);
    assert(0real < s) by (nonlinear_arith)
        requires
            s * k == d,
            0real < d,
            0real < k,
    ;
    let p = e / s;
    lemma_undone(e, s, p);
    lemma_grouped(p, s, k);
    assert(exact(g, table_position(x_min, x_max, n, xq)) == p);
    if e == 0real {
        assert(p == 0real) by (nonlinear_arith)
            requires
                p * s == e,
                e == 0real,
                0real < s,
        ;
    }
    if e == d {
        assert(p == k) by (nonlinear_arith)
            requires
                p * s == e,
                s * k == d,
                e == d,
                0real < s,
        ;
    }
}

} // verus!
