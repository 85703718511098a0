//! Binomial counts lie between 0 and the number of trials.

use vstd::arithmetic::power2::{lemma2_to64, lemma2_to64_rest, pow2};
use vstd::prelude::*;

use crate::arith::{constant, double, is_double, minus, over, plus, rounds_to, times};
use crate::arith::{unary, Arithmetic, Binary, Formula, Rounding, Unary};
use crate::bits::Double;
use crate::density_curves::ONE;
use crate::exact::{double_value, lemma_small_numbers, scaled};
use crate::numpy_rng::{envelope_variance, is_envelope, left_rate, right_rate, signed, tail};
use crate::numpy_rng::{counted_successes, is_binomial, is_binomial_try, is_candidate, is_counted};
use crate::numpy_rng::{is_inversion, is_inverted_count, is_outcome, is_rejection_count};
use crate::numpy_rng::{lemma_binomial_mirror, mt_word, slab_place, uniform, wrapped};
use crate::numpy_rng::{Candidate, Envelope, Inversion};
use crate::pchip::{HALF, TWO};
use crate::rounding::{lemma_binary, lemma_floor, lemma_huge, lemma_order, lemma_unary};
use crate::rounding::{near, sound, whole_sound};

verus! {

proof fn lemma_constants()
    ensures
        double_value(Double { bits: HALF }) == 1real / 2real,
        double_value(Double { bits: 0x403e_0000_0000_0000 }) == 30real,
        219real / 100real <= double_value(Double { bits: 0x4001_8f5c_28f5_c28f }) <= 22real / 10real,
        45real / 10real <= double_value(Double { bits: 0x4012_6666_6666_6666 }) <= 46real / 10real,
        13real / 100real <= double_value(Double { bits: 0x3fc1_26e9_78d4_fdf4 }) <= 14real / 100real,
        double_value(Double { bits: 0x4034_8000_0000_0000 }) == 205real / 10real,
        153real / 10real <= double_value(Double { bits: 0x402e_9999_9999_999a }) <= 154real / 10real,
{
    lemma2_to64_rest();
    assert(double_value(Double { bits: 0x3fe0_0000_0000_0000 }) == (0x10_0000_0000_0000int as real) / (0x20_0000_0000_0000int as real));
    assert(double_value(Double { bits: 0x403e_0000_0000_0000 }) == (0x1e_0000_0000_0000int as real) / (0x1_0000_0000_0000int as real));
    assert(double_value(Double { bits: 0x4001_8f5c_28f5_c28f }) == (0x11_8f5c_28f5_c28fint as real) / (0x8_0000_0000_0000int as real));
    assert(double_value(Double { bits: 0x4012_6666_6666_6666 }) == (0x12_6666_6666_6666int as real) / (0x4_0000_0000_0000int as real));
    assert(double_value(Double { bits: 0x3fc1_26e9_78d4_fdf4 }) == (0x11_26e9_78d4_fdf4int as real) / (0x80_0000_0000_0000int as real));
    assert(double_value(Double { bits: 0x4034_8000_0000_0000 }) == (0x14_8000_0000_0000int as real) / (0x1_0000_0000_0000int as real));
    assert(double_value(Double { bits: 0x402e_9999_9999_999a }) == (0x1e_9999_9999_999aint as real) / (0x2_0000_0000_0000int as real));
}

proof fn lemma_half_at_most(p: real, w: real)
    by (nonlinear_arith)
    requires
        0real <= p <= 1real / 2real,
        0real <= w,
    ensures
        0real <= w * p <= w / 2real,
{
}

proof fn lemma_between_half_and_one(v: real, q: real)
    by (nonlinear_arith)
    requires
        1real / 2real <= q <= 1real,
        0real <= v,
    ensures
        v / 2real <= v * q <= v,
{
}

proof fn lemma_root_bounds(s: real, b: real)
    by (nonlinear_arith)
    requires
        0real <= s,
        s * s <= b,
    ensures
        22real * s <= 31real + 4real * b,
        s * s >= 14real ==> s >= 37real / 10real,
{
}

proof fn lemma_root_grows(s: real, a: real)
    by (nonlinear_arith)
    requires
        0real <= s,
        0real <= a <= 5000000000000000000real,
        4real / 10real * a <= s * s,
    ensures
        s >= a / 10000000000real,
{
}

proof fn lemma_scaled_root(k: real, s: real)
    by (nonlinear_arith)
    requires
        219real / 100real <= k <= 22real / 10real,
        0real <= s,
    ensures
        219real / 100real * s <= k * s <= 22real / 10real * s,
{
}

proof fn lemma_scaled_share(k: real, q: real)
    by (nonlinear_arith)
    requires
        45real / 10real <= k <= 46real / 10real,
        1real / 2real <= q <= 1real,
    ensures
        22real / 10real <= k * q <= 46real / 10real,
{
}

proof fn lemma_whole<A: Arithmetic>(ar: &A, n: u64, r: Double)
    requires
        sound(ar),
        is_double(ar, Formula::Whole(n), r),
    ensures
        whole_sound(n, r),
{
}

/// What is known of the numbers of the rejection, for a mean of `a`.
pub open spec fn ample(n: u64, e: Envelope, a: real) -> bool {
    &&& e.r.finite()
    &&& e.q.finite()
    &&& e.fm.finite()
    &&& e.p1.finite()
    &&& e.xm.finite()
    &&& e.xl.finite()
    &&& e.xr.finite()
    &&& 29real <= a <= 51real / 100real * (n as real)
    &&& 0real <= double_value(e.r) <= 1real / 2real
    &&& 1real / 2real <= double_value(e.q) <= 1real
    &&& 27real / 10real <= double_value(e.p1) <= 4real + 42real / 100real * a
    &&& a / 10000000000real - 6real <= double_value(e.p1)
    &&& 99real / 100real * a <= double_value(e.fm) <= 101real / 100real * a + 1real
    &&& 0 <= e.m
    &&& double_value(e.fm) - 1real < e.m as real <= double_value(e.fm)
    &&& -(e.m as real + 1real) / 100000000000000real <= double_value(e.xm) - (e.m as real + 1real
        / 2real) <= (e.m as real + 1real) / 100000000000000real
    &&& near(double_value(e.xl), double_value(e.xm) - double_value(e.p1))
    &&& near(double_value(e.xr), double_value(e.xm) + double_value(e.p1))
}

proof fn lemma_middle<A: Arithmetic>(ar: &A, n: u64, p: Double, e: Envelope, mean: Double) -> (w: Double)
    requires
        sound(ar),
        is_envelope(ar, n, p, e),
        n < i64::MAX,
        p.finite(),
        double_value(p) >= 0real,
        p.at_most(Double { bits: HALF }),
        is_double(ar, times(double(p), Formula::Whole(n)), mean),
        !mean.at_most(Double { bits: 0x403e_0000_0000_0000 }),
    ensures
        e.r.finite(),
        e.q.finite(),
        e.fm.finite(),
        double_value(e.r) == double_value(p),
        0real <= double_value(e.r) <= 1real / 2real,
        1real / 2real <= double_value(e.q) <= 1real,
        whole_sound(n, w),
        299real / 10real <= double_value(w) * double_value(p) <= 51real / 100real * (n as real),
        99real / 100real * (double_value(w) * double_value(p)) <= double_value(e.fm)
            <= 101real / 100real * (double_value(w) * double_value(p)) + 1real,
        0 <= e.m,
        double_value(e.fm) - 1real < e.m as real <= double_value(e.fm),
{
    lemma_constants();
    lemma_small_numbers();
    lemma_huge();
    let half = Double { bits: HALF };
    let one = Double { bits: ONE };
    let none = Double { bits: 0 };
    let thirty = Double { bits: 0x403e_0000_0000_0000 };
    assert(half.finite() && one.finite() && none.finite() && thirty.finite());
    lemma_order(p, half);
    let pv = double_value(p);
    // the mean is above 30
    let (x0, w0) = lemma_binary(ar, Binary::Times, double(p), Formula::Whole(n), mean);
    lemma_whole(ar, n, w0);
    lemma_half_at_most(pv, double_value(w0));
    lemma_commutes(pv, double_value(w0));
    assert(mean.finite());
    lemma_order(mean, thirty);
    let a0 = double_value(w0) * pv;
    assert(a0 >= 2999real / 100real);
    // the rarer outcome
    let (x1, d1) = lemma_binary(
        ar,
        Binary::Min,
        double(p),
        minus(constant(ONE), double(p)),
        e.r,
    );
    let (x2, x3) = lemma_binary(ar, Binary::Minus, constant(ONE), double(p), d1);
    assert(1real / 2real <= double_value(d1));
    assert(double_value(e.r) == pv);
    let (x4, x5) = lemma_binary(ar, Binary::Minus, constant(ONE), double(e.r), e.q);
    assert(1real / 2real <= double_value(e.q) <= 1real);
    // the middle
    let (t1, x6) = lemma_binary(
        ar,
        Binary::Plus,
        times(Formula::Whole(n), double(e.r)),
        double(e.r),
        e.fm,
    );
    let (w, x7) = lemma_binary(ar, Binary::Times, Formula::Whole(n), double(e.r), t1);
    lemma_whole(ar, n, w);
    lemma_half_at_most(pv, double_value(w));
    let a = double_value(w) * pv;
    lemma_like(pv, double_value(w0), double_value(w), n as real);
    assert(a >= 299real / 10real);
    assert(near(double_value(t1), a));
    assert(near(double_value(e.fm), double_value(t1) + pv));
    let at = lemma_floor(ar, double(e.fm), e.m);
    assert(at == e.fm);
    w
}

proof fn lemma_commutes(a: real, b: real)
    by (nonlinear_arith)
    ensures
        a * b == b * a,
{
}

/// Two doubles for one whole number make about the same mean.
proof fn lemma_like(p: real, v: real, w: real, n: real)
    by (nonlinear_arith)
    requires
        0real <= p <= 1real / 2real,
        -(n / 100000real) <= v - w <= n / 100000real,
        0real <= n,
        w >= n * 99999real / 100000real,
    ensures
        w * p - w * p / 10000real <= v * p <= w * p + w * p / 10000real,
{
    assert(-(w / 10000real) <= v - w <= w / 10000real);
    assert(-((w / 10000real) * p) <= (v - w) * p <= (w / 10000real) * p);
}

proof fn lemma_width<A: Arithmetic>(ar: &A, n: u64, p: Double, e: Envelope, w: Double)
    requires
        sound(ar),
        is_envelope(ar, n, p, e),
        n < i64::MAX,
        e.r.finite(),
        e.q.finite(),
        double_value(e.r) == double_value(p),
        0real <= double_value(p) <= 1real / 2real,
        1real / 2real <= double_value(e.q) <= 1real,
        whole_sound(n, w),
        299real / 10real <= double_value(w) * double_value(p) <= 51real / 100real * (n as real),
    ensures
        e.p1.finite(),
        27real / 10real <= double_value(e.p1) <= 4real + 42real / 100real * (double_value(w)
            * double_value(p)),
        (double_value(w) * double_value(p)) / 10000000000real - 6real <= double_value(e.p1),
{
    let a = double_value(w) * double_value(p);
    lemma_constants();
    lemma_small_numbers();
    lemma_huge();
    let k0 = Double { bits: 0x4001_8f5c_28f5_c28f };
    let k1 = Double { bits: 0x4012_6666_6666_6666 };
    let half = Double { bits: HALF };
    assert(k0.finite() && k1.finite() && half.finite());
    // the width of the triangle
    let root = unary(Unary::SquareRoot, envelope_variance(n, e));
    let wide = minus(
        times(constant(0x4001_8f5c_28f5_c28f), root),
        times(constant(0x4012_6666_6666_6666), double(e.q)),
    );
    let (fl, h0) = lemma_binary(
        ar,
        Binary::Plus,
        unary(Unary::Floor, wide),
        constant(HALF),
        e.p1,
    );
    let wd = lemma_unary(ar, Unary::Floor, wide, fl);
    let (ks, kq) = lemma_binary(
        ar,
        Binary::Minus,
        times(constant(0x4001_8f5c_28f5_c28f), root),
        times(constant(0x4012_6666_6666_6666), double(e.q)),
        wd,
    );
    let (k0x, s) = lemma_binary(
        ar,
        Binary::Times,
        constant(0x4001_8f5c_28f5_c28f),
        root,
        ks,
    );
    let (k1x, qx) = lemma_binary(
        ar,
        Binary::Times,
        constant(0x4012_6666_6666_6666),
        double(e.q),
        kq,
    );
    let v = lemma_unary(ar, Unary::SquareRoot, envelope_variance(n, e), s);
    let (v1, qy) = lemma_binary(
        ar,
        Binary::Times,
        times(Formula::Whole(n), double(e.r)),
        double(e.q),
        v,
    );
    let (w1, ry) = lemma_binary(ar, Binary::Times, Formula::Whole(n), double(e.r), v1);
    lemma_whole(ar, n, w1);
    lemma_like(double_value(p), double_value(w1), double_value(w), n as real);
    lemma_half_at_most(double_value(p), double_value(w1));
    assert(99real / 100real * a <= double_value(v1) <= 101real / 100real * a);
    lemma_between_half_and_one(double_value(v1), double_value(e.q));
    assert(48real / 100real * a <= double_value(v) <= 102real / 100real * a);
    let sv = double_value(s);
    lemma_root_bounds(sv, 103real / 100real * a);
    assert(sv >= 37real / 10real);
    lemma_root_grows(sv, a);
    lemma_scaled_root(double_value(k0), sv);
    lemma_scaled_share(double_value(k1), double_value(e.q));
    assert(22real / 10real * sv <= 31real / 10real + 412real / 1000real * a);
    assert(ks.finite());
    assert(81real / 10real <= double_value(ks) <= 32real / 10real + 413real / 1000real * a);
    assert(kq.finite());
    assert(21real / 10real <= double_value(kq) <= 47real / 10real);
    assert(wd.finite());
    assert(33real / 10real <= double_value(wd) <= 2real + 414real / 1000real * a);
    assert(fl.finite());
    assert(23real / 10real <= double_value(fl) <= 2real + 414real / 1000real * a);
    assert(double_value(wd) >= 2real * sv - 48real / 10real);
}

proof fn lemma_envelope<A: Arithmetic>(ar: &A, n: u64, p: Double, e: Envelope, mean: Double) -> (a:
    real)
    requires
        sound(ar),
        is_envelope(ar, n, p, e),
        n < i64::MAX,
        p.finite(),
        double_value(p) >= 0real,
        p.at_most(Double { bits: HALF }),
        is_double(ar, times(double(p), Formula::Whole(n)), mean),
        !mean.at_most(Double { bits: 0x403e_0000_0000_0000 }),
    ensures
        ample(n, e, a),
{
    let w = lemma_middle(ar, n, p, e, mean);
    lemma_width(ar, n, p, e, w);
    lemma_constants();
    lemma_huge();
    let half = Double { bits: HALF };
    assert(half.finite());
    // the places around the middle
    let (mf, h1) = lemma_binary(ar, Binary::Plus, signed(e.m as int), constant(HALF), e.xm);
    lemma_whole(ar, e.m as u64, mf);
    assert(e.xm.finite());
    let (xm0, p0) = lemma_binary(ar, Binary::Minus, double(e.xm), double(e.p1), e.xl);
    let (xm1, p1) = lemma_binary(ar, Binary::Plus, double(e.xm), double(e.p1), e.xr);
    double_value(w) * double_value(p)
}

// ── The tails ────────────────────────────────────────────────────────────

/// A rate of a tail: above 0 by some margin, and no more than 100.
pub open spec fn is_rate(x: Double) -> bool {
    x.finite() && 1real / 10000000000000000000000real <= double_value(x) <= 100real
}

proof fn lemma_quotient(d: real, e: real)
    by (nonlinear_arith)
    requires
        2real <= d <= 5real * e,
        0real < e <= 30000000000000000000real,
    ensures
        1real / 20000000000000000000real <= d / e <= 5real,
{
    assert((d / e) * e == d);
}

proof fn lemma_tail_bounds(a: real, b: real)
    by (nonlinear_arith)
    requires
        1real / 30000000000000000000real <= a <= 6real,
        1real <= b <= 5real,
    ensures
        1real / 30000000000000000000real <= a * b <= 30real,
{
}

proof fn lemma_tail<A: Arithmetic>(ar: &A, a: Formula, r: Double)
    requires
        sound(ar),
        is_double(ar, tail(a), r),
        forall|x: Double| #[trigger]
            is_double(ar, a, x) ==> x.finite() && 1real / 30000000000000000000real
                <= double_value(x) <= 6real,
    ensures
        is_rate(r),
{
    lemma_small_numbers();
    lemma_huge();
    let one = Double { bits: ONE };
    let two = Double { bits: TWO };
    assert(one.finite() && two.finite());
    let (x, b) = lemma_binary(
        ar,
        Binary::Times,
        a,
        plus(constant(ONE), over(a, constant(TWO))),
        r,
    );
    let (o, h) = lemma_binary(ar, Binary::Plus, constant(ONE), over(a, constant(TWO)), b);
    let (y, t) = lemma_binary(ar, Binary::Over, a, constant(TWO), h);
    assert(h.finite());
    assert(0real <= double_value(h) <= 4real);
    assert(b.finite());
    assert(1real <= double_value(b) <= 5real) by {
        assert(one.finite());
    }
    lemma_tail_bounds(double_value(x), double_value(b));
}

proof fn lemma_part(x: real, k: real)
    by (nonlinear_arith)
    requires
        0real <= x,
        0real <= k <= 1real,
    ensures
        0real <= x * k <= x,
{
}

proof fn lemma_half_part(x: real, k: real)
    by (nonlinear_arith)
    requires
        0real <= x,
        0real <= k <= 1real / 2real,
    ensures
        0real <= x * k <= x / 2real,
{
}

/// The places in numbers, for a mean of `a`.
proof fn lemma_places(n: u64, e: Envelope, a: real)
    requires
        ample(n, e, a),
        n < i64::MAX,
    ensures
        56real / 100real * a - 6real <= double_value(e.xl) <= double_value(e.fm) - 2real,
        double_value(e.fm) + 1real <= double_value(e.xr) <= 144real / 100real * a + 6real,
        double_value(e.fm) <= 5000000000000000000real,
{
}

proof fn lemma_rates<A: Arithmetic>(ar: &A, n: u64, p: Double, e: Envelope, a: real)
    requires
        sound(ar),
        is_envelope(ar, n, p, e),
        ample(n, e, a),
        n < i64::MAX,
    ensures
        is_rate(e.laml),
        is_rate(e.lamr),
{
    lemma_places(n, e, a);
    lemma_huge();
    assert forall|x: Double| #[trigger] is_double(ar, left_rate(e), x) implies x.finite() && 1real
        / 30000000000000000000real <= double_value(x) <= 6real by {
        let (d, g) = lemma_binary(
            ar,
            Binary::Over,
            minus(double(e.fm), double(e.xl)),
            minus(double(e.fm), times(double(e.xl), double(e.r))),
            x,
        );
        let (fm0, xl0) = lemma_binary(ar, Binary::Minus, double(e.fm), double(e.xl), d);
        let (fm1, t) = lemma_binary(
            ar,
            Binary::Minus,
            double(e.fm),
            times(double(e.xl), double(e.r)),
            g,
        );
        let (xl1, r1) = lemma_binary(ar, Binary::Times, double(e.xl), double(e.r), t);
        lemma_half_part(double_value(e.xl), double_value(e.r));
        assert(t.finite());
        assert(d.finite() && g.finite());
        lemma_quotient(double_value(d), double_value(g));
    }
    lemma_tail(ar, left_rate(e), e.laml);
    assert forall|x: Double| #[trigger] is_double(ar, right_rate(e), x) implies x.finite() && 1real
        / 30000000000000000000real <= double_value(x) <= 6real by {
        let (d, g) = lemma_binary(
            ar,
            Binary::Over,
            minus(double(e.xr), double(e.fm)),
            times(double(e.xr), double(e.q)),
            x,
        );
        let (xr0, fm0) = lemma_binary(ar, Binary::Minus, double(e.xr), double(e.fm), d);
        let (xr1, q1) = lemma_binary(ar, Binary::Times, double(e.xr), double(e.q), g);
        lemma_between_half_and_one(double_value(e.xr), double_value(e.q));
        assert(d.finite() && g.finite());
        lemma_quotient(double_value(d), double_value(g));
    }
    lemma_tail(ar, right_rate(e), e.lamr);
}

// ── The parts of the envelope ────────────────────────────────────────────

/// A number of an envelope: at least 0, and of moderate size.
pub open spec fn is_extent(x: Double) -> bool {
    x.finite() && 0real <= double_value(x) <= 10000000000000000000000000real
}

proof fn lemma_slope<A: Arithmetic>(ar: &A, n: u64, p: Double, e: Envelope, a: real)
    requires
        sound(ar),
        is_envelope(ar, n, p, e),
        ample(n, e, a),
        n < i64::MAX,
    ensures
        e.c.finite(),
        12real / 100real <= double_value(e.c) <= 16real / 10real,
{
    lemma_constants();
    lemma_huge();
    lemma_places(n, e, a);
    let k2 = Double { bits: 0x3fc1_26e9_78d4_fdf4 };
    let k3 = Double { bits: 0x4034_8000_0000_0000 };
    let k4 = Double { bits: 0x402e_9999_9999_999a };
    assert(k2.finite() && k3.finite() && k4.finite());
    let m = signed(e.m as int);
    let below = plus(constant(0x402e_9999_9999_999a), m);
    let (k2x, d) = lemma_binary(
        ar,
        Binary::Plus,
        constant(0x3fc1_26e9_78d4_fdf4),
        over(constant(0x4034_8000_0000_0000), below),
        e.c,
    );
    let (k3x, g) = lemma_binary(ar, Binary::Over, constant(0x4034_8000_0000_0000), below, d);
    let (k4x, mf) = lemma_binary(ar, Binary::Plus, constant(0x402e_9999_9999_999a), m, g);
    lemma_whole(ar, e.m as u64, mf);
    assert(g.finite() && double_value(g) >= 15real);
    lemma_under(205real / 10real, double_value(g));
}

proof fn lemma_under(d: real, e: real)
    by (nonlinear_arith)
    requires
        0real <= d <= 21real,
        15real <= e,
    ensures
        0real <= d / e <= 14real / 10real,
{
    assert((d / e) * e == d);
}

proof fn lemma_slab_extent(p1: real, b: real, c: real)
    by (nonlinear_arith)
    requires
        0real <= p1,
        12real / 100real <= c,
        1real <= b <= 1real + 2001real / 1000real * c,
    ensures
        p1 <= p1 * b <= p1 + 2001real / 1000real * (c * p1),
{
}

proof fn lemma_share_of_rate(c: real, l: real)
    by (nonlinear_arith)
    requires
        0real <= c <= 2real,
        1real / 10000000000000000000000real <= l,
    ensures
        0real <= c / l <= 20000000000000000000000real,
{
    assert((c / l) * l == c);
}

proof fn lemma_product_small(c: real, p1: real)
    by (nonlinear_arith)
    requires
        12real / 100real <= c <= 16real / 10real,
        0real <= p1,
    ensures
        12real / 100real * p1 <= c * p1 <= 16real / 10real * p1,
{
}

proof fn lemma_slab_rounded(p1: real, cp: real, pb: real, p2: real)
    requires
        27real / 10real <= p1,
        12real / 100real * p1 <= cp,
        p1 <= pb <= p1 + 2001real / 1000real * cp,
        near(p2, pb),
    ensures
        p2 <= p1 + 2002real / 1000real * cp,
{
}

proof fn lemma_step_rounded(d: real, cp: real, w: real)
    requires
        0real <= d <= 2002real / 1000real * cp,
        1real / 10real <= cp,
        near(w, d),
    ensures
        w <= 2003real / 1000real * cp,
{
}

proof fn lemma_extents<A: Arithmetic>(ar: &A, n: u64, p: Double, e: Envelope, a: real)
    requires
        sound(ar),
        is_envelope(ar, n, p, e),
        ample(n, e, a),
        n < i64::MAX,
    ensures
        e.p2.finite(),
        double_value(e.p2) <= double_value(e.p1) + 2002real / 1000real * (double_value(e.c)
            * double_value(e.p1)),
        is_extent(e.p4),
{
    lemma_slope(ar, n, p, e, a);
    lemma_rates(ar, n, p, e, a);
    lemma_places(n, e, a);
    lemma_small_numbers();
    lemma_huge();
    let one = Double { bits: ONE };
    let two = Double { bits: TWO };
    assert(one.finite() && two.finite());
    let (p1x, b) = lemma_binary(
        ar,
        Binary::Times,
        double(e.p1),
        plus(constant(ONE), times(constant(TWO), double(e.c))),
        e.p2,
    );
    let (ox, t) = lemma_binary(
        ar,
        Binary::Plus,
        constant(ONE),
        times(constant(TWO), double(e.c)),
        b,
    );
    let (tx, cx) = lemma_binary(ar, Binary::Times, constant(TWO), double(e.c), t);
    assert(t.finite() && b.finite());
    lemma_slab_extent(double_value(e.p1), double_value(b), double_value(e.c));
    lemma_product_small(double_value(e.c), double_value(e.p1));
    let cp = double_value(e.c) * double_value(e.p1);
    let pb = double_value(e.p1) * double_value(b);
    assert(12real / 100real * double_value(e.p1) <= cp);
    assert(pb <= double_value(e.p1) + 2001real / 1000real * cp);
    assert(near(double_value(e.p2), pb));
    lemma_slab_rounded(double_value(e.p1), cp, pb, double_value(e.p2));
    assert(0real <= double_value(e.p2) <= 100000000000000000000real);
    let (p2x, f) = lemma_binary(
        ar,
        Binary::Plus,
        double(e.p2),
        over(double(e.c), double(e.laml)),
        e.p3,
    );
    let (c0, l0) = lemma_binary(ar, Binary::Over, double(e.c), double(e.laml), f);
    lemma_share_of_rate(double_value(e.c), double_value(e.laml));
    let none = Double { bits: 0 };
    assert(none.finite());
    assert(is_extent(f));
    assert(is_extent(e.p3));
    let (p3x, h) = lemma_binary(
        ar,
        Binary::Plus,
        double(e.p3),
        over(double(e.c), double(e.lamr)),
        e.p4,
    );
    let (c1, l1) = lemma_binary(ar, Binary::Over, double(e.c), double(e.lamr), h);
    lemma_share_of_rate(double_value(e.c), double_value(e.lamr));
    assert(is_extent(h));
}

// ── Uniform numbers ──────────────────────────────────────────────────────

/// Between 0 and 1.
pub open spec fn is_share(x: Double) -> bool {
    x.finite() && 0real <= double_value(x) <= 1real
}

/// Uniform numbers lie between 0 and 1.
pub proof fn lemma_uniform_share<A: Arithmetic>(ar: &A, seed: u32, m: nat, r: Double)
    requires
        sound(ar),
        is_double(ar, uniform(seed, m), r),
    ensures
        is_share(r),
{
    lemma_huge();
    lemma_small_numbers();
    lemma2_to64_rest();
    lemma2_to64();
    let high = Double { bits: 0x4190_0000_0000_0000 };
    let all = Double { bits: 0x4340_0000_0000_0000 };
    let none = Double { bits: 0 };
    let one = Double { bits: ONE };
    assert(high.finite() && all.finite() && none.finite() && one.finite());
    assert(double_value(high) == (0x10_0000_0000_0000int as real) / (0x400_0000int as real));
    assert(double_value(all) == 0x20_0000_0000_0000int as real);
    let first = (mt_word(seed, m) / 32) as u64;
    let second = (mt_word(seed, m + 1) / 64) as u64;
    let (s, d) = lemma_binary(
        ar,
        Binary::Over,
        plus(
            times(Formula::Whole(first), constant(0x4190_0000_0000_0000)),
            Formula::Whole(second),
        ),
        constant(0x4340_0000_0000_0000),
        r,
    );
    let (t, b) = lemma_binary(
        ar,
        Binary::Plus,
        times(Formula::Whole(first), constant(0x4190_0000_0000_0000)),
        Formula::Whole(second),
        s,
    );
    let (f, h) = lemma_binary(
        ar,
        Binary::Times,
        Formula::Whole(first),
        constant(0x4190_0000_0000_0000),
        t,
    );
    lemma_whole(ar, first, f);
    lemma_whole(ar, second, b);
    // 2^53 - 2^26
    let most = Double { bits: 0x433f_ffff_fc00_0000 };
    assert(most.finite());
    assert(pow2(0) == 1);
    assert(scaled(0x1f_ffff_fc00_0000, 0) == 0x1f_ffff_fc00_0000int as real);
    assert(double_value(most) == 0x1f_ffff_fc00_0000int as real);
    assert(0real <= double_value(t) <= double_value(most));
    assert(0real <= double_value(s) <= double_value(all));
    lemma_share_of_all(double_value(s), double_value(all));
}

proof fn lemma_share_of_all(s: real, all: real)
    by (nonlinear_arith)
    requires
        0real <= s <= all,
        0real < all,
    ensures
        0real <= s / all <= 1real,
{
    assert((s / all) * all == s);
}

// ── Candidates ───────────────────────────────────────────────────────────

proof fn lemma_slab_share(w: real, c: real, p1: real)
    by (nonlinear_arith)
    requires
        12real / 100real <= c,
        0real <= p1,
        0real <= w <= 2003real / 1000real * (c * p1) + c,
    ensures
        0real <= w / c <= 2003real / 1000real * p1 + 1real,
{
    assert((w / c) * c == w);
    assert((2003real / 1000real * p1 + 1real) * c == 2003real / 1000real * (c * p1) + c);
}

/// A candidate that stands lies between 0 and `n`.
proof fn lemma_candidate<A: Arithmetic>(
    ar: &A,
    n: u64,
    p: Double,
    e: Envelope,
    a: real,
    u: Double,
    v: Double,
    k: Candidate,
)
    requires
        sound(ar),
        is_envelope(ar, n, p, e),
        ample(n, e, a),
        n < i64::MAX,
        is_candidate(ar, e, n, u, v, Some(k)),
        u.finite(),
        double_value(u) >= 0real,
        is_share(v),
    ensures
        0 <= k.y <= n,
{
    lemma_huge();
    lemma_places(n, e, a);
    lemma_extents(ar, n, p, e, a);
    lemma_slope(ar, n, p, e, a);
    lemma_rates(ar, n, p, e, a);
    lemma_small_numbers();
    let none = Double { bits: 0 };
    assert(none.finite());
    lemma_order(u, e.p1);
    lemma_order(u, e.p2);
    if u.at_most(e.p1) {
        lemma_in_triangle(ar, n, e, a, u, v, k);
    } else if u.at_most(e.p2) {
        lemma_in_slab(ar, n, e, a, u, v, k);
    } else if u.at_most(e.p3) {
        let at = lemma_floor(
            ar,
            plus(double(e.xl), over(unary(Unary::Ln, double(v)), double(e.laml))),
            k.y,
        );
        let (x, d) = lemma_binary(
            ar,
            Binary::Plus,
            double(e.xl),
            over(unary(Unary::Ln, double(v)), double(e.laml)),
            at,
        );
        let (l, g) = lemma_binary(
            ar,
            Binary::Over,
            unary(Unary::Ln, double(v)),
            double(e.laml),
            d,
        );
        let w = lemma_unary(ar, Unary::Ln, double(v), l);
        lemma_order(none, e.laml);
        assert(d.at_most(none));
        assert(at.at_most(e.xl));
        if at.finite() {
            lemma_order(at, e.xl);
        } else {
            assert(e.xl.rank() < 0x7ff0_0000_0000_0000);
        }
    } else {
        let at = lemma_floor(
            ar,
            minus(double(e.xr), over(unary(Unary::Ln, double(v)), double(e.lamr))),
            k.y,
        );
        let (x, d) = lemma_binary(
            ar,
            Binary::Minus,
            double(e.xr),
            over(unary(Unary::Ln, double(v)), double(e.lamr)),
            at,
        );
        let (l, g) = lemma_binary(
            ar,
            Binary::Over,
            unary(Unary::Ln, double(v)),
            double(e.lamr),
            d,
        );
        let w = lemma_unary(ar, Unary::Ln, double(v), l);
        lemma_order(none, e.lamr);
        assert(d.at_most(none));
        assert(e.xr.at_most(at));
        if at.finite() {
            lemma_order(e.xr, at);
        } else {
            assert(e.xr.rank() > -0x7ff0_0000_0000_0000);
        }
    }
}

proof fn lemma_in_triangle<A: Arithmetic>(
    ar: &A,
    n: u64,
    e: Envelope,
    a: real,
    u: Double,
    v: Double,
    k: Candidate,
)
    requires
        sound(ar),
        ample(n, e, a),
        n < i64::MAX,
        is_candidate(ar, e, n, u, v, Some(k)),
        u.at_most(e.p1),
        u.finite(),
        0real <= double_value(u) <= double_value(e.p1),
        is_share(v),
    ensures
        0 <= k.y <= n,
{
    lemma_huge();
    lemma_places(n, e, a);
    let left = minus(double(e.xm), times(double(e.p1), double(v)));
    let at = lemma_floor(ar, plus(left, double(u)), k.y);
    let (l, ux) = lemma_binary(ar, Binary::Plus, left, double(u), at);
    let (xm, t) = lemma_binary(ar, Binary::Minus, double(e.xm), times(double(e.p1), double(v)), l);
    let (p1, vx) = lemma_binary(ar, Binary::Times, double(e.p1), double(v), t);
    lemma_part(double_value(e.p1), double_value(v));
    assert(t.finite() && l.finite() && at.finite());
    assert(0real <= double_value(at) <= n as real);
}

proof fn lemma_in_slab<A: Arithmetic>(
    ar: &A,
    n: u64,
    e: Envelope,
    a: real,
    u: Double,
    v: Double,
    k: Candidate,
)
    requires
        sound(ar),
        ample(n, e, a),
        n < i64::MAX,
        is_candidate(ar, e, n, u, v, Some(k)),
        !u.at_most(e.p1),
        u.at_most(e.p2),
        u.finite(),
        double_value(e.p1) <= double_value(u) <= double_value(e.p2),
        e.c.finite(),
        12real / 100real <= double_value(e.c) <= 16real / 10real,
        double_value(e.p2) <= double_value(e.p1) + 2002real / 1000real * (double_value(e.c)
            * double_value(e.p1)),
    ensures
        0 <= k.y <= n,
{
    lemma_huge();
    lemma_places(n, e, a);
    lemma_small_numbers();
    let none = Double { bits: 0 };
    assert(none.finite());
    let x = choose|x: Double|
        #[trigger] is_double(ar, slab_place(e, u), x) && rounds_to(
            ar,
            Rounding::Down,
            double(x),
            k.y,
        );
    let x1 = lemma_floor(ar, double(x), k.y);
    let (xl, d) = lemma_binary(
        ar,
        Binary::Plus,
        double(e.xl),
        over(minus(double(u), double(e.p1)), double(e.c)),
        x,
    );
    let (w, cx) = lemma_binary(
        ar,
        Binary::Over,
        minus(double(u), double(e.p1)),
        double(e.c),
        d,
    );
    let (ux, p1x) = lemma_binary(ar, Binary::Minus, double(u), double(e.p1), w);
    lemma_product_small(double_value(e.c), double_value(e.p1));
    assert(w.finite());
    assert(double_value(w) >= 0real);
    let cp = double_value(e.c) * double_value(e.p1);
    assert(double_value(u) - double_value(e.p1) <= 2002real / 1000real * cp);
    assert(near(double_value(w), double_value(u) - double_value(e.p1)));
    lemma_step_rounded(double_value(u) - double_value(e.p1), cp, double_value(w));
    lemma_slab_share(double_value(w), double_value(e.c), double_value(e.p1));
    assert(d.finite() && x.finite());
    assert(0real <= double_value(x) <= n as real);
}

// ── Counts ───────────────────────────────────────────────────────────────

/// A probability of at most one half.
pub open spec fn is_rare(p: Double) -> bool {
    p.finite() && 0real <= double_value(p) && p.at_most(Double { bits: HALF })
}

/// A count of the rejection is at most the number of trials.
pub proof fn lemma_rejection_range<A: Arithmetic>(
    ar: &A,
    n: u64,
    p: Double,
    e: Envelope,
    mean: Double,
    seed: u32,
    m: nat,
    y: i64,
)
    requires
        sound(ar),
        n < i64::MAX,
        is_rare(p),
        is_double(ar, times(double(p), Formula::Whole(n)), mean),
        !mean.at_most(Double { bits: 0x403e_0000_0000_0000 }),
        is_envelope(ar, n, p, e),
        is_binomial_try(ar, n, e, seed, m, Some(y)),
    ensures
        0 <= y <= n,
{
    let a = lemma_envelope(ar, n, p, e, mean);
    lemma_extents(ar, n, p, e, a);
    lemma_huge();
    lemma_small_numbers();
    let (u, v, c, ok) = choose|u: Double, v: Double, c: Option<Candidate>, ok: bool|
        {
            &&& is_double(ar, times(uniform(seed, m), double(e.p4)), u)
            &&& is_double(ar, uniform(seed, m + 2), v)
            &&& #[trigger] is_candidate(ar, e, n, u, v, c)
            &&& #[trigger] is_outcome(ar, n, e, c, ok, Some(y))
        };
    let (s, p4) = lemma_binary(ar, Binary::Times, uniform(seed, m), double(e.p4), u);
    lemma_uniform_share(ar, seed, m, s);
    lemma_uniform_share(ar, seed, m + 2, v);
    lemma_commutes(double_value(s), double_value(e.p4));
    lemma_part(double_value(e.p4), double_value(s));
    let none = Double { bits: 0 };
    assert(none.finite());
    assert(u.finite());
    assert(double_value(u) >= 0real);
    lemma_candidate(ar, n, p, e, a, u, v, c->Some_0);
}

/// A count of the rarer outcome is at most the number of trials.
pub proof fn lemma_count_range<A: Arithmetic>(
    ar: &A,
    n: u64,
    p: Double,
    seed: u32,
    from: nat,
    to: nat,
    x: u64,
)
    requires
        sound(ar),
        n < i64::MAX,
        is_rare(p),
        is_counted(ar, n, p, seed, from, to, x),
    ensures
        x <= n,
{
    let mean = choose|mean: Double| #[trigger]
        is_double(ar, times(double(p), Formula::Whole(n)), mean) && if mean.at_most(
            Double { bits: 0x403e_0000_0000_0000 },
        ) {
            exists|t: Inversion| #[trigger]
                is_inversion(ar, n, p, t) && is_inverted_count(ar, t, n, p, seed, from, to, x)
        } else {
            exists|e: Envelope, y: i64|
                {
                    &&& #[trigger] is_envelope(ar, n, p, e)
                    &&& #[trigger] is_rejection_count(ar, n, e, seed, from, to, y)
                    &&& x == counted_successes(n, p, y)
                }
        };
    if !mean.at_most(Double { bits: 0x403e_0000_0000_0000 }) {
        let (e, y) = choose|e: Envelope, y: i64|
            {
                &&& #[trigger] is_envelope(ar, n, p, e)
                &&& #[trigger] is_rejection_count(ar, n, e, seed, from, to, y)
                &&& x == counted_successes(n, p, y)
            };
        lemma_rejection_range(ar, n, p, e, mean, seed, (to - 4) as nat, y);
    }
}

/// Where the arithmetic rounds as it should, a binomial sample is at most the
/// number of trials.
pub proof fn lemma_binomial_range<A: Arithmetic>(
    ar: &A,
    n: u64,
    p: Double,
    seed: u32,
    from: nat,
    to: nat,
    x: u64,
)
    requires
        sound(ar),
        n < i64::MAX,
        p.finite(),
        0real <= double_value(p) <= 1real,
        is_binomial(ar, n, p, seed, from, to, x),
    ensures
        x <= n,
{
    if p.at_most(Double { bits: HALF }) {
        lemma_count_range(ar, n, p, seed, from, to, x);
    } else {
        let (q, y) = choose|q: Double, y: u64| #[trigger]
            is_double(ar, minus(constant(ONE), double(p)), q) && #[trigger] is_counted(
                ar,
                n,
                q,
                seed,
                from,
                to,
                y,
            ) && x == wrapped(n - y);
        lemma_rest_is_rare(ar, p, q);
        lemma_count_range(ar, n, q, seed, from, to, y);
    }
}

/// The rest of a probability above one half is rare.
proof fn lemma_rest_is_rare<A: Arithmetic>(ar: &A, p: Double, q: Double)
    requires
        sound(ar),
        p.finite(),
        !p.at_most(Double { bits: HALF }),
        double_value(p) <= 1real,
        is_double(ar, minus(constant(ONE), double(p)), q),
    ensures
        is_rare(q),
{
    lemma_constants();
    lemma_small_numbers();
    lemma_huge();
    let half = Double { bits: HALF };
    let none = Double { bits: 0 };
    let one = Double { bits: ONE };
    assert(half.finite() && none.finite() && one.finite());
    lemma_order(p, half);
    let (o, p0) = lemma_binary(ar, Binary::Minus, constant(ONE), double(p), q);
    lemma_order(q, half);
}

/// Successes with a probability above one half are the trials without the
/// successes that the rest to 1 makes of the same words. Both are at most the
/// number of trials, from one state of the stream they add up to it, and they
/// end in one state. `q` is the one result of `1 - p`, and the arithmetic
/// rounds as it should.
pub proof fn lemma_binomial_complement<A: Arithmetic>(
    ar: &A,
    n: u64,
    p: Double,
    q: Double,
    seed: u32,
    from: nat,
    to: nat,
)
    requires
        sound(ar),
        n < i64::MAX,
        p.finite(),
        (Double { bits: HALF }).below(p),
        double_value(p) <= 1real,
        forall|v: Double|
            #[trigger] is_double(ar, minus(constant(ONE), double(p)), v) <==> v == q,
    ensures
        forall|x: u64| #[trigger]
            is_binomial(ar, n, p, seed, from, to, x) ==> x <= n && is_binomial(
                ar,
                n,
                q,
                seed,
                from,
                to,
                (n - x) as u64,
            ),
        forall|y: u64| #[trigger]
            is_binomial(ar, n, q, seed, from, to, y) ==> y <= n && is_binomial(
                ar,
                n,
                p,
                seed,
                from,
                to,
                (n - y) as u64,
            ),
{
    assert forall|x: u64| #[trigger] is_binomial(ar, n, p, seed, from, to, x) implies x <= n
        && is_binomial(ar, n, q, seed, from, to, (n - x) as u64) by {
        lemma_from_likely(ar, n, p, q, seed, from, to, x);
    }
    assert forall|y: u64| #[trigger] is_binomial(ar, n, q, seed, from, to, y) implies y <= n
        && is_binomial(ar, n, p, seed, from, to, (n - y) as u64) by {
        lemma_from_rare(ar, n, p, q, seed, from, to, y);
    }
}

proof fn lemma_from_likely<A: Arithmetic>(
    ar: &A,
    n: u64,
    p: Double,
    q: Double,
    seed: u32,
    from: nat,
    to: nat,
    x: u64,
)
    requires
        sound(ar),
        n < i64::MAX,
        p.finite(),
        (Double { bits: HALF }).below(p),
        double_value(p) <= 1real,
        forall|v: Double|
            #[trigger] is_double(ar, minus(constant(ONE), double(p)), v) <==> v == q,
        is_binomial(ar, n, p, seed, from, to, x),
    ensures
        x <= n,
        is_binomial(ar, n, q, seed, from, to, (n - x) as u64),
{
    assert(is_double(ar, minus(constant(ONE), double(p)), q));
    lemma_rest_is_rare(ar, p, q);
    lemma_binomial_mirror(ar, n, p, q, seed, from, to, x, 0);
    let y = choose|y: u64| #[trigger]
        is_binomial(ar, n, q, seed, from, to, y) && x == wrapped(n - y);
    lemma_count_range(ar, n, q, seed, from, to, y);
    assert(y == (n - x) as u64);
}

proof fn lemma_from_rare<A: Arithmetic>(
    ar: &A,
    n: u64,
    p: Double,
    q: Double,
    seed: u32,
    from: nat,
    to: nat,
    y: u64,
)
    requires
        sound(ar),
        n < i64::MAX,
        p.finite(),
        (Double { bits: HALF }).below(p),
        double_value(p) <= 1real,
        forall|v: Double|
            #[trigger] is_double(ar, minus(constant(ONE), double(p)), v) <==> v == q,
        is_binomial(ar, n, q, seed, from, to, y),
    ensures
        y <= n,
        is_binomial(ar, n, p, seed, from, to, (n - y) as u64),
{
    assert(is_double(ar, minus(constant(ONE), double(p)), q));
    lemma_rest_is_rare(ar, p, q);
    lemma_count_range(ar, n, q, seed, from, to, y);
    lemma_binomial_mirror(ar, n, p, q, seed, from, to, y, 0);
}

} // verus!
