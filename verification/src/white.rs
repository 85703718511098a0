//! White through the window, with rounding: the exposure by the illuminant
//! that a window is normalised with stays as it is.

use vstd::arithmetic::div_mod::lemma_fundamental_div_mod;
use vstd::arithmetic::mul::lemma_mul_is_commutative;
use vstd::arithmetic::power2::{lemma2_to64, lemma2_to64_rest, lemma_pow2_adds};
use vstd::prelude::*;

use crate::adaptation;
use crate::arith::{constant, double, evaluates, is_double, minus, over, plus, single, sum_from};
use crate::arith::{times, unary, unary_gives, widen, Arithmetic, Binary, Formula, Number, Unary};
use crate::bits::{Double, Single};
use crate::density_curves::ONE;
use crate::exact::{double_value, lemma_factor_out, lemma_small_numbers, single_value};
use crate::exact::size_of_real;
use crate::rounding::{huge, lemma_binary, lemma_huge, lemma_order, lemma_tracks_widened, sound};
use crate::rounding::{sound_single, whole_sound};
use crate::spectral_service::{are_operands, are_window_terms, counted_wavelengths, edge_distance};
use crate::spectral_service::{exposure_sum, is_normalized_window, is_sensitivity_matrix};
use crate::spectral_service::{is_spectra_matrix, is_tc_lut, is_window_or_ones, leaves};
use crate::spectral_service::{lemma_divided_term, multiplies, nanometres, pairwise, ProductShape};
use crate::spectral_service::{SpectraLut, TcLut, SMALLEST_SUM};

verus! {

// ── Sums of real numbers ─────────────────────────────────────────────────

/// The sum of `f` from `from` up to and without `to`.
pub open spec fn total(f: spec_fn(int) -> real, from: int, to: int) -> real
    decreases to - from,
{
    if to <= from {
        0real
    } else {
        total(f, from, to - 1) + f(to - 1)
    }
}

proof fn lemma_total_split(f: spec_fn(int) -> real, from: int, mid: int, to: int)
    requires
        from <= mid <= to,
    ensures
        total(f, from, to) == total(f, from, mid) + total(f, mid, to),
    decreases to - mid,
{
    if mid < to {
        lemma_total_split(f, from, mid, to - 1);
    }
}

proof fn lemma_total_range(f: spec_fn(int) -> real, from: int, to: int, most: real)
    requires
        from <= to,
        forall|k: int| from <= k < to ==> 0real <= #[trigger] f(k) <= most,
    ensures
        0real <= total(f, from, to) <= most * ((to - from) as real),
    decreases to - from,
{
    if from < to {
        lemma_total_range(f, from, to - 1, most);
        lemma_factor_out(most, (to - 1 - from) as real, 1real);
        assert(f(to - 1) <= most);
    } else {
        lemma_factor_out(most, 0real, 0real);
    }
}

/// Sums of numbers that are close lie close.
proof fn lemma_total_close(
    f: spec_fn(int) -> real,
    h: spec_fn(int) -> real,
    n: int,
    e: real,
    off: real,
)
    requires
        0 <= n,
        forall|k: int|
            0 <= k < n ==> size_of_real(#[trigger] f(k) - h(k)) <= e * h(k) + off,
    ensures
        size_of_real(total(f, 0, n) - total(h, 0, n)) <= e * total(h, 0, n) + off * (n as real),
    decreases n,
{
    if n > 0 {
        lemma_total_close(f, h, n - 1, e, off);
        lemma_factor_out(e, total(h, 0, n - 1), h(n - 1));
        lemma_factor_out(off, (n - 1) as real, 1real);
        assert(size_of_real(f(n - 1) - h(n - 1)) <= e * h(n - 1) + off);
    } else {
        lemma_factor_out(e, 0real, 0real);
        lemma_factor_out(off, 0real, 0real);
    }
}

proof fn lemma_total_scaled(f: spec_fn(int) -> real, h: spec_fn(int) -> real, n: int, k: real)
    requires
        0 <= n,
        forall|i: int| 0 <= i < n ==> #[trigger] f(i) == k * h(i),
    ensures
        total(f, 0, n) == k * total(h, 0, n),
    decreases n,
{
    if n > 0 {
        lemma_total_scaled(f, h, n - 1, k);
        lemma_factor_out(k, total(h, 0, n - 1), h(n - 1));
        assert(f(n - 1) == k * h(n - 1));
    } else {
        lemma_factor_out(k, 0real, 0real);
    }
}

// ── Rounded sums ─────────────────────────────────────────────────────────

/// The least share that rounding may add: 1e-15.
pub open spec fn speck() -> real {
    1real / 1000000000000000real
}

/// What rounding may add next to zero: 1e-30.
pub open spec fn dust() -> real {
    1real / 1000000000000000000000000000000real
}

/// The numbers of a sequence.
pub open spec fn values(xs: Seq<Double>) -> spec_fn(int) -> real {
    |k: int| double_value(xs[k])
}

/// `v` is a sum of `m` numbers that add up to `x`, each step rounded.
pub open spec fn summed(v: real, x: real, m: int) -> bool {
    size_of_real(v - x) <= (m as real) * (x * (4real * speck())) + ((2 * m - 1) as real) * (4real
        * dust())
}

proof fn lemma_summed_halves(x: real, y: real, m: real, n: real, e: real)
    by (nonlinear_arith)
    requires
        0real <= x,
        0real <= y,
        1real <= m,
        1real <= n,
        0real <= e,
    ensures
        m * (x * e) + n * (y * e) + (x + y) * e <= (m + n) * ((x + y) * e),
        (2real * m - 1real) * e + (2real * n - 1real) * e + e == (2real * (m + n) - 1real) * e,
{
    assert(0real <= (n - 1real) * (x * e)) by {
        assert(0real <= x * e);
    }
    assert(0real <= (m - 1real) * (y * e)) by {
        assert(0real <= y * e);
    }
}

proof fn lemma_count_small(m: real, x: real, e: real)
    by (nonlinear_arith)
    requires
        0real <= m <= 200real,
        0real <= x,
        0real <= e,
    ensures
        0real <= m * (x * e) <= 200real * (x * e),
        0real <= m * e <= 200real * e,
{
    assert(0real <= x * e);
}

proof fn lemma_share(x: real, k: real)
    by (nonlinear_arith)
    ensures
        x * (k * (1real / 1000000000000000real)) == (k * x) / 1000000000000000real,
{
}

/// One addition of two sums that are not negative.
proof fn lemma_summed_plus<A: Arithmetic>(
    ar: &A,
    a: Formula,
    b: Formula,
    x: real,
    y: real,
    m: int,
    n: int,
    r: Double,
)
    requires
        sound(ar),
        0real <= x <= 1000000000000real,
        0real <= y <= 1000000000000real,
        1 <= m,
        1 <= n,
        m + n <= 100,
        forall|p: Double| #[trigger]
            is_double(ar, a, p) ==> p.finite() && 0real <= double_value(p) && summed(
                double_value(p),
                x,
                m,
            ),
        forall|p: Double| #[trigger]
            is_double(ar, b, p) ==> p.finite() && 0real <= double_value(p) && summed(
                double_value(p),
                y,
                n,
            ),
        is_double(ar, plus(a, b), r),
    ensures
        r.finite(),
        0real <= double_value(r),
        summed(double_value(r), x + y, m + n),
{
    lemma_huge();
    lemma_small_numbers();
    let (p, q) = lemma_binary(ar, Binary::Plus, a, b, r);
    let zero = Double { bits: 0 };
    assert(zero.finite());
    let (e, d) = (4real * speck(), 4real * dust());
    lemma_summed_halves(x, y, m as real, n as real, e);
    lemma_summed_halves(0real, 0real, m as real, n as real, d);
    lemma_count_small(m as real, x, e);
    lemma_count_small(n as real, y, e);
    lemma_count_small((2 * m - 1) as real, 0real, d);
    lemma_count_small((2 * n - 1) as real, 0real, d);
    let (u, v) = (double_value(p), double_value(q));
    assert((2 * m - 1) as real == 2real * (m as real) - 1real);
    assert((2 * n - 1) as real == 2real * (n as real) - 1real);
    assert((2 * (m + n) - 1) as real == 2real * (m as real + n as real) - 1real);
    lemma_share(x, 4real);
    lemma_share(y, 4real);
    lemma_share(x + y, 4real);
    lemma_share(x + y, 2real);
    lemma_share(u + v, 1real);
    assert(size_of_real(u - x) <= x / 1000000000000real + 1000real * dust());
    assert(size_of_real(v - y) <= y / 1000000000000real + 1000real * dust());
    assert(size_of_real(u + v) <= 3000000000000real);
    assert(size_of_real(u + v) <= huge());
    assert(size_of_real(double_value(r) - (u + v)) <= (u + v) * speck() + dust());
    assert((u + v) * speck() <= (x + y) * (2real * speck()) + dust());
    assert((x + y) * (2real * speck()) + 2real * dust() <= (x + y) * e + d);
}

/// Every number of the sequence is from 0 up to `most`.
pub open spec fn all_within(xs: Seq<Double>, most: real) -> bool {
    forall|k: int|
        0 <= k < xs.len() ==> (#[trigger] xs[k]).finite() && 0real <= double_value(xs[k]) <= most
}

/// A sum by halves of numbers that are not negative.
proof fn lemma_pairwise_summed<A: Arithmetic>(
    ar: &A,
    xs: Seq<Double>,
    from: int,
    to: int,
    r: Double,
)
    requires
        sound(ar),
        0 <= from < to <= xs.len() <= 100,
        all_within(xs, 1000000000real),
        is_double(ar, pairwise(leaves(xs.subrange(from, to))), r),
    ensures
        r.finite(),
        0real <= double_value(r),
        summed(double_value(r), total(values(xs), from, to), to - from),
        0real <= total(values(xs), from, to) <= 1000000000000real,
    decreases to - from,
{
    let part = leaves(xs.subrange(from, to));
    let f = values(xs);
    let n = to - from;
    lemma_total_range(f, from, to, 1000000000real);
    lemma_factor_out(1000000000real, n as real, 0real);
    reveal_with_fuel(total, 3);
    if n == 1 {
        assert(part[0] == double(xs[from]));
        assert(r == xs[from]);
        assert(total(f, from, to) == f(from));
        lemma_count_small(1real, f(from), 4real * speck());
        lemma_count_small(1real, 0real, 4real * dust());
    } else {
        let mid = from + n / 2;
        let half = part.len() as int / 2;
        let (a, b) = (
            pairwise(leaves(xs.subrange(from, mid))),
            pairwise(leaves(xs.subrange(mid, to))),
        );
        assert(part.subrange(0, half) =~= leaves(xs.subrange(from, mid)));
        assert(part.subrange(half, part.len() as int) =~= leaves(xs.subrange(mid, to)));
        if n == 2 {
            assert(leaves(xs.subrange(from, mid)) =~= seq![part[0]]);
            assert(leaves(xs.subrange(mid, to)) =~= seq![part[1]]);
        }
        assert(pairwise(part) == plus(a, b));
        let (x, y) = (total(f, from, mid), total(f, mid, to));
        lemma_total_split(f, from, mid, to);
        lemma_total_range(f, from, mid, 1000000000real);
        lemma_total_range(f, mid, to, 1000000000real);
        assert forall|p: Double| #[trigger] is_double(ar, a, p) implies p.finite() && 0real
            <= double_value(p) && summed(double_value(p), x, mid - from) by {
            lemma_pairwise_summed(ar, xs, from, mid, p);
        }
        assert forall|p: Double| #[trigger] is_double(ar, b, p) implies p.finite() && 0real
            <= double_value(p) && summed(double_value(p), y, to - mid) by {
            lemma_pairwise_summed(ar, xs, mid, to, p);
        }
        lemma_summed_plus(ar, a, b, x, y, mid - from, to - mid, r);
    }
}

/// A product of two numbers that are not negative.
proof fn lemma_term<A: Arithmetic>(ar: &A, a: Formula, b: Formula, x: real, y: real, r: Double)
    requires
        sound(ar),
        0real <= x <= 100000000000000000000real,
        0real <= y <= 100000000000000000000real,
        forall|p: Double| #[trigger] is_double(ar, a, p) ==> p.finite() && double_value(p) == x,
        forall|p: Double| #[trigger] is_double(ar, b, p) ==> p.finite() && double_value(p) == y,
        is_double(ar, times(a, b), r),
    ensures
        r.finite(),
        0real <= double_value(r),
        size_of_real(double_value(r) - x * y) <= (x * y) / 1000000000000000real + dust(),
{
    lemma_huge();
    lemma_small_numbers();
    lemma_product_range(x, y, 100000000000000000000real, 100000000000000000000real);
    let (p, q) = lemma_binary(ar, Binary::Times, a, b, r);
    assert((Double { bits: 0 }).finite());
}

proof fn lemma_product_range(x: real, y: real, m: real, n: real)
    by (nonlinear_arith)
    requires
        0real <= x <= m,
        0real <= y <= n,
    ensures
        0real <= x * y <= m * n,
{
}

/// Terms that are added up from the left.
proof fn lemma_sum_summed<A: Arithmetic>(
    ar: &A,
    terms: spec_fn(int) -> Formula,
    f: spec_fn(int) -> real,
    n: int,
    r: Double,
)
    requires
        sound(ar),
        1 <= n <= 90,
        forall|k: int| 0 <= k < n ==> 0real <= #[trigger] f(k) <= 1000000000real,
        forall|k: int, p: Double|
            0 <= k < n && #[trigger] is_double(ar, terms(k), p) ==> p.finite() && 0real
                <= double_value(p) && size_of_real(double_value(p) - f(k)) <= f(k)
                / 1000000000000000real + dust(),
        is_double(ar, sum_from(constant(0), terms, n), r),
    ensures
        r.finite(),
        0real <= double_value(r),
        summed(double_value(r), total(f, 0, n), n + 1),
        0real <= total(f, 0, n) <= 1000000000000real,
    decreases n,
{
    lemma_total_range(f, 0, n, 1000000000real);
    lemma_factor_out(1000000000real, n as real, 0real);
    let a = sum_from(constant(0), terms, n - 1);
    let b = terms(n - 1);
    let (x, y) = (total(f, 0, n - 1), f(n - 1));
    lemma_total_range(f, 0, n - 1, 1000000000real);
    assert forall|p: Double| #[trigger] is_double(ar, a, p) implies p.finite() && 0real
        <= double_value(p) && summed(double_value(p), x, n) by {
        if n > 1 {
            lemma_sum_summed(ar, terms, f, n - 1, p);
        } else {
            lemma_small_numbers();
            lemma_count_small(1real, 0real, 4real * speck());
            lemma_count_small(1real, 0real, 4real * dust());
            reveal_with_fuel(total, 2);
            reveal_with_fuel(sum_from, 2);
            assert(p == (Double { bits: 0 }));
        }
    }
    assert forall|p: Double| #[trigger] is_double(ar, b, p) implies p.finite() && 0real
        <= double_value(p) && summed(double_value(p), y, 1) by {
        lemma_share(y, 4real);
        assert(1real * (y * (4real * speck())) == y * (4real * speck()));
        assert(1real * (4real * dust()) == 4real * dust());
    }
    lemma_summed_plus(ar, a, b, x, y, n, 1, r);
}

// ── The window and its share of the light ────────────────────────────────

/// Sensitivities up to 10000 and an illuminant up to 1000.
pub open spec fn is_light(sensitivity: Seq<[Double; 3]>, illuminant: Seq<Double>, n: nat) -> bool {
    &&& sensitivity.len() >= n
    &&& illuminant.len() >= n
    &&& forall|k: int, c: int|
        0 <= k < n && 0 <= c < 3 ==> (#[trigger] sensitivity[k]@[c]).finite() && 0real
            <= double_value(sensitivity[k]@[c]) <= 10000real
    &&& forall|k: int|
        0 <= k < n ==> (#[trigger] illuminant[k]).finite() && 0real <= double_value(illuminant[k])
            <= 1000real
}

/// The light that a channel gets at a wavelength.
pub open spec fn light(sensitivity: Seq<[Double; 3]>, illuminant: Seq<Double>, c: int) -> spec_fn(
    int,
) -> real {
    |k: int| double_value(sensitivity[k]@[c]) * double_value(illuminant[k])
}

/// The part of it that a window lets through.
pub open spec fn passed(
    sensitivity: Seq<[Double; 3]>,
    illuminant: Seq<Double>,
    window: Seq<Double>,
    c: int,
) -> spec_fn(int) -> real {
    |k: int|
        (double_value(sensitivity[k]@[c]) * double_value(illuminant[k])) * double_value(window[k])
}

proof fn lemma_windowed_term(a: real, x: real, w: real, t: real)
    by (nonlinear_arith)
    requires
        0real <= x,
        0real <= w <= 2real,
        size_of_real(a - x) <= x / 1000000000000000real + dust(),
        size_of_real(t - a * w) <= (a * w) / 1000000000000000real + dust(),
        dust() > 0real,
    ensures
        size_of_real(t - x * w) <= (3real / 1000000000000000real) * (x * w) + 4real * dust(),
{
    let d = a - x;
    assert(a * w == x * w + d * w);
    assert(d * w <= (x / 1000000000000000real + dust()) * w);
    assert(-(d * w) <= (x / 1000000000000000real + dust()) * w);
    assert((x / 1000000000000000real) * w == (x * w) / 1000000000000000real);
    assert(dust() * w <= 2real * dust());
    assert(0real <= x * w);
}

/// The terms of the two sums.
proof fn lemma_terms<A: Arithmetic>(
    ar: &A,
    sensitivity: Seq<[Double; 3]>,
    illuminant: Seq<Double>,
    window: Seq<Double>,
    c: int,
    n: nat,
    through: Seq<Double>,
    all: Seq<Double>,
    k: int,
)
    requires
        sound(ar),
        is_light(sensitivity, illuminant, n),
        all_within(window, 2real),
        window.len() >= n,
        0 <= c < 3,
        are_window_terms(ar, sensitivity, illuminant, window, c, n, through, all),
        0 <= k < n,
    ensures
        all[k].finite(),
        through[k].finite(),
        0real <= double_value(all[k]) <= 1000000000real,
        0real <= double_value(through[k]) <= 1000000000real,
        0real <= light(sensitivity, illuminant, c)(k) <= 10000000real,
        0real <= passed(sensitivity, illuminant, window, c)(k) <= 20000000real,
        size_of_real(double_value(all[k]) - light(sensitivity, illuminant, c)(k)) <= (1real
            / 1000000000000000real) * light(sensitivity, illuminant, c)(k) + dust(),
        size_of_real(
            double_value(through[k]) - passed(sensitivity, illuminant, window, c)(k),
        ) <= (3real / 1000000000000000real) * passed(sensitivity, illuminant, window, c)(k) + 4real
            * dust(),
{
    let (s, i, w) = (
        double_value(sensitivity[k]@[c]),
        double_value(illuminant[k]),
        double_value(window[k]),
    );
    let term = times(double(sensitivity[k]@[c]), double(illuminant[k]));
    lemma_product_range(s, i, 10000real, 1000real);
    lemma_product_range(s * i, w, 10000000real, 2real);
    lemma_term(ar, double(sensitivity[k]@[c]), double(illuminant[k]), s, i, all[k]);
    let (a, v) = lemma_binary(ar, Binary::Times, term, double(window[k]), through[k]);
    lemma_term(ar, double(sensitivity[k]@[c]), double(illuminant[k]), s, i, a);
    assert(v == window[k]);
    lemma_small_numbers();
    lemma_huge();
    assert((Double { bits: 0 }).finite());
    lemma_product_range(double_value(a), w, 10000001real, 2real);
    lemma_windowed_term(double_value(a), s * i, w, double_value(through[k]));
}

proof fn lemma_counted(m: real, n: real, x: real, e: real, d: real, k: int)
    by (nonlinear_arith)
    requires
        m == k as real,
        n == (2 * k - 1) as real,
        e == 4real / 1000000000000000real,
        d == 4real * dust(),
    ensures
        m * (x * e) == (4real * ((k as real) * x)) / 1000000000000000real,
        n * d == (8real * (k as real) - 4real) * dust(),
{
}

/// A sum by halves of numbers that stand for `h`.
proof fn lemma_sum_near<A: Arithmetic>(
    ar: &A,
    xs: Seq<Double>,
    h: spec_fn(int) -> real,
    r: Double,
)
    requires
        sound(ar),
        xs.len() == 81,
        all_within(xs, 1000000000real),
        forall|k: int| 0 <= k < 81 ==> 0real <= #[trigger] h(k) <= 20000000real,
        forall|k: int|
            0 <= k < 81 ==> size_of_real(double_value(#[trigger] xs[k]) - h(k)) <= (3real
                / 1000000000000000real) * h(k) + 4real * dust(),
        is_double(ar, pairwise(leaves(xs)), r),
    ensures
        r.finite(),
        0real <= total(h, 0, 81) <= 1700000000real,
        size_of_real(double_value(r) - total(h, 0, 81)) <= total(h, 0, 81) / 1000000000000real
            + 1real / 100000000000000000000000000real,
{
    assert(xs.subrange(0, 81) =~= xs);
    lemma_pairwise_summed(ar, xs, 0, 81, r);
    let f = values(xs);
    lemma_total_range(h, 0, 81, 20000000real);
    lemma_factor_out(20000000real, 81real, 0real);
    assert forall|k: int| 0 <= k < 81 implies size_of_real(#[trigger] f(k) - h(k)) <= (3real
        / 1000000000000000real) * h(k) + 4real * dust() by {
        assert(f(k) == double_value(xs[k]));
    }
    lemma_total_close(f, h, 81, 3real / 1000000000000000real, 4real * dust());
    let (x, y) = (total(f, 0, 81), total(h, 0, 81));
    lemma_share(x, 4real);
    assert(size_of_real(x - y) <= (3real * y) / 1000000000000000real + 324real * dust());
    lemma_counted(81real, 161real, x, 4real * speck(), 4real * dust(), 81);
    assert(size_of_real(double_value(r) - x) <= (324real * x) / 1000000000000000real + 644real
        * dust());
}

// ── The window divided by its share ──────────────────────────────────────

proof fn lemma_quotient(p: real, w: real)
    by (nonlinear_arith)
    requires
        1real / 10000000000real <= p <= 10000000000real,
        1real / 10000000000real <= w <= 10000000000real,
    ensures
        (p / w) * w == p,
        1real / 100000000000000000000real <= p / w <= 100000000000000000000real,
{
    let q = p / w;
    assert(q * w == p);
}

proof fn lemma_quotients_near(w: real, q: real, m: real)
    by (nonlinear_arith)
    requires
        0real <= w <= 2real,
        1real / 100000000000000000000real <= m,
        size_of_real(q - m) <= m / 5000000000real,
    ensures
        q > 0real,
        0real <= w / m <= 200000000000000000000real,
        size_of_real(w / q - w / m) <= (w / m) / 4000000000real,
{
    let (u, v) = (w / q, w / m);
    assert(u * q == w);
    assert(v * m == w);
    assert(0real <= v);
    assert((u - v) * q == v * (m - q));
    assert(v * (m - q) <= v * (m / 5000000000real));
    assert(-(v * (m - q)) <= v * (m / 5000000000real));
    assert(v * (m / 5000000000real) <= (v / 4000000000real) * q);
}

/// A number of the window divided by the share.
proof fn lemma_divided<A: Arithmetic>(ar: &A, w: Double, part: Double, whole: Double, u: Double)
    requires
        sound(ar),
        w.finite() && part.finite() && whole.finite(),
        0real <= double_value(w) <= 2real,
        1real / 10000000000real <= double_value(part) <= 10000000000real,
        1real / 10000000000real <= double_value(whole) <= 10000000000real,
        is_double(ar, over(double(w), over(double(part), double(whole))), u),
    ensures
        u.finite(),
        0real <= double_value(u),
        ({
            let v = double_value(w) / (double_value(part) / double_value(whole));
            &&& 0real <= v <= 200000000000000000000real
            &&& size_of_real(double_value(u) - v) <= v / 3000000000real + dust()
        }),
{
    lemma_huge();
    lemma_small_numbers();
    assert((Double { bits: 0 }).finite());
    let share = over(double(part), double(whole));
    let (x, q) = lemma_binary(ar, Binary::Over, double(w), share, u);
    let (a, b) = lemma_binary(ar, Binary::Over, double(part), double(whole), q);
    assert(x == w && a == part && b == whole);
    let m = double_value(part) / double_value(whole);
    lemma_quotient(double_value(part), double_value(whole));
    assert(size_of_real(double_value(q) - m) <= m / 5000000000real);
    lemma_quotients_near(double_value(w), double_value(q), m);
}

proof fn lemma_seen(i: real, s: real, v: real, u: real, r: real)
    by (nonlinear_arith)
    requires
        0real <= i <= 1000real,
        0real <= s <= 10000real,
        0real <= v,
        size_of_real(u - v) <= v / 3000000000real + dust(),
        0real <= u,
        size_of_real(r - s * u) <= (s * u) / 1000000000000000real + dust(),
        dust() == 1real / 1000000000000000000000000000000real,
    ensures
        size_of_real(i * r - i * (s * v)) <= (1real / 2000000000real) * (i * (s * v)) + 1real
            / 10000000000000000000000real,
{
    let d = u - v;
    assert(s * u == s * v + s * d);
    assert(s * d <= s * (v / 3000000000real + dust()));
    assert(-(s * d) <= s * (v / 3000000000real + dust()));
    assert(s * (v / 3000000000real) == (s * v) / 3000000000real);
    assert(s * dust() <= 10000real * dust());
    let y = s * v;
    assert(0real <= y);
    let f = r - y;
    assert(size_of_real(f) <= y / 2000000000real + 20000real * dust());
    assert(i * r == i * y + i * f);
    assert(i * f <= i * (y / 2000000000real + 20000real * dust()));
    assert(-(i * f) <= i * (y / 2000000000real + 20000real * dust()));
    assert(i * (y / 2000000000real) == (i * y) / 2000000000real);
    assert(i * (20000real * dust()) <= 20000000real * dust());
}

proof fn lemma_smallest_sum()
    ensures
        (Double { bits: SMALLEST_SUM }).finite(),
        size_of_real(double_value(Double { bits: SMALLEST_SUM }) - 1real / 10000000000real)
            <= 1real / 100000000000000000000real,
{
    lemma2_to64();
    lemma2_to64_rest();
    lemma_pow2_adds(43, 43);
    assert(double_value(Double { bits: SMALLEST_SUM }) == (0x1b_7cdf_d9d7_bdbbint as real) / (
    0x40_0000_0000_0000_0000_0000int as real));
}

// ── The normalised window ────────────────────────────────────────────────

/// The error function of `ar` stays within -1 and 1.
pub open spec fn erf_sound<A: Arithmetic>(ar: &A) -> bool {
    forall|a: Double, r: Double| #[trigger]
        call_ensures(A::unary_double, (ar, Unary::Erf, a), r) && a.finite() ==> r.finite() && -1real
            <= double_value(r) <= 1real
}

/// An edge within a millimetre of wavelength, of a width above zero.
pub open spec fn is_edge(centre: Double, sigma: Double) -> bool {
    &&& centre.finite()
    &&& sigma.finite()
    &&& -1000000real <= double_value(centre) <= 1000000real
    &&& dust() <= double_value(sigma) <= 1000000real
}

/// The two edges of a window; with fewer than four parameters there is none.
pub open spec fn is_band(params: Seq<Double>) -> bool {
    params.len() >= 4 ==> is_edge(params[0], params[1]) && is_edge(params[2], params[3])
}

proof fn lemma_band_constants()
    ensures
        double_value(Double { bits: 0x4077_c000_0000_0000 }) == 380real,
        double_value(Double { bits: 0x4014_0000_0000_0000 }) == 5real,
        1real <= double_value(Double { bits: 0x3ff6_a09e_667f_3bcd }) <= 2real,
        double_value(Double { bits: 0x3fe0_0000_0000_0000 }) == 1real / 2real,
{
    lemma2_to64();
    lemma2_to64_rest();
    assert(double_value(Double { bits: 0x4077_c000_0000_0000 }) == (0x17_c000_0000_0000int as real)
        / (0x1000_0000_0000int as real));
    assert(double_value(Double { bits: 0x4014_0000_0000_0000 }) == (0x14_0000_0000_0000int as real)
        / (0x4_0000_0000_0000int as real));
    assert(double_value(Double { bits: 0x3ff6_a09e_667f_3bcd }) == (0x16_a09e_667f_3bcdint as real)
        / (0x10_0000_0000_0000int as real));
    assert(double_value(Double { bits: 0x3fe0_0000_0000_0000 }) == (0x10_0000_0000_0000int as real)
        / (0x20_0000_0000_0000int as real));
}

proof fn lemma_stretch(d: real, s: real)
    by (nonlinear_arith)
    requires
        -2000000real <= d <= 2000000real,
        dust() <= s,
        dust() == 1real / 1000000000000000000000000000000real,
    ensures
        size_of_real(d / s) <= 2000000000000000000000000000000000000real,
{
    let q = d / s;
    assert(q * s == d);
}

proof fn lemma_widened(s: real, k: real)
    by (nonlinear_arith)
    requires
        0real < s <= 1000000real,
        1real <= k <= 2real,
    ensures
        s <= s * k <= 2000000real,
{
}

/// How far a wavelength lies from an edge is a number.
proof fn lemma_edge_distance<A: Arithmetic>(
    ar: &A,
    i: int,
    centre: Double,
    sigma: Double,
    r: Double,
)
    requires
        sound(ar),
        0 <= i < 81,
        is_edge(centre, sigma),
        is_double(ar, edge_distance(i, centre, sigma), r),
    ensures
        r.finite(),
{
    lemma_huge();
    lemma_band_constants();
    let start = constant(0x4077_c000_0000_0000);
    let step = constant(0x4014_0000_0000_0000);
    let at = Formula::Whole(i as u64);
    let wide = times(double(sigma), constant(0x3ff6_a09e_667f_3bcd));
    let (d, s) = lemma_binary(ar, Binary::Over, minus(nanometres(i), double(centre)), wide, r);
    let (w, c) = lemma_binary(ar, Binary::Minus, nanometres(i), double(centre), d);
    let (a, t) = lemma_binary(ar, Binary::Plus, start, times(at, step), w);
    let (n, five) = lemma_binary(ar, Binary::Times, at, step, t);
    let (g, root) = lemma_binary(
        ar,
        Binary::Times,
        double(sigma),
        constant(0x3ff6_a09e_667f_3bcd),
        s,
    );
    assert(whole_sound(i as u64, n));
    assert(double_value(n) == i as real);
    assert(0real <= double_value(n) * double_value(five) <= 400real);
    assert(0real <= double_value(w) <= 1000real);
    lemma_widened(double_value(sigma), double_value(root));
    assert(sigma.finite());
    assert(double_value(sigma) <= double_value(s));
    lemma_stretch(double_value(d), double_value(s));
}

/// Half of a number from 0 to 2.
proof fn lemma_half<A: Arithmetic>(ar: &A, f: Formula, r: Double)
    requires
        sound(ar),
        forall|p: Double| #[trigger]
            is_double(ar, f, p) ==> p.finite() && 0real <= double_value(p) <= 2real,
        is_double(ar, times(constant(0x3fe0_0000_0000_0000), f), r),
    ensures
        r.finite(),
        0real <= double_value(r) <= 1real,
{
    lemma_huge();
    lemma_band_constants();
    lemma_small_numbers();
    assert((Double { bits: 0 }).finite() && (Double { bits: ONE }).finite());
    let (h, p) = lemma_binary(ar, Binary::Times, constant(0x3fe0_0000_0000_0000), f, r);
}

/// The numbers of a window are from 0 to 1.
proof fn lemma_window_range<A: Arithmetic>(ar: &A, params: Seq<Double>, window: Seq<Double>)
    requires
        sound(ar),
        erf_sound(ar),
        is_band(params),
        is_window_or_ones(ar, params, window),
    ensures
        window.len() == 81,
        all_within(window, 2real),
{
    lemma_huge();
    lemma_small_numbers();
    let (none, one, two) = (
        Double { bits: 0 },
        Double { bits: ONE },
        Double { bits: 0x4000_0000_0000_0000 },
    );
    assert(none.finite() && one.finite() && two.finite());
    assert forall|k: int| 0 <= k < 81 implies (#[trigger] window[k]).finite() && 0real
        <= double_value(window[k]) <= 2real by {
        if params.len() >= 4 {
            let half = constant(0x3fe0_0000_0000_0000);
            let rising = unary(Unary::Erf, edge_distance(k, params[0], params[1]));
            let falling = unary(Unary::Erf, edge_distance(k, params[2], params[3]));
            let (up, down) = (plus(constant(ONE), rising), minus(constant(ONE), falling));
            let (rise, fall) = lemma_binary(
                ar,
                Binary::Times,
                times(half, up),
                times(half, down),
                window[k],
            );
            assert forall|p: Double| #[trigger] is_double(ar, up, p) implies p.finite() && 0real
                <= double_value(p) <= 2real by {
                let (o, e) = lemma_binary(ar, Binary::Plus, constant(ONE), rising, p);
                lemma_erf(ar, k, params[0], params[1], e);
            }
            assert forall|p: Double| #[trigger] is_double(ar, down, p) implies p.finite() && 0real
                <= double_value(p) <= 2real by {
                let (o, e) = lemma_binary(ar, Binary::Minus, constant(ONE), falling, p);
                lemma_erf(ar, k, params[2], params[3], e);
            }
            lemma_half(ar, up, rise);
            lemma_half(ar, down, fall);
            lemma_product_range(double_value(rise), double_value(fall), 1real, 1real);
        }
    }
}

proof fn lemma_erf<A: Arithmetic>(ar: &A, k: int, centre: Double, sigma: Double, e: Double)
    requires
        sound(ar),
        erf_sound(ar),
        0 <= k < 81,
        is_edge(centre, sigma),
        is_double(ar, unary(Unary::Erf, edge_distance(k, centre, sigma)), e),
    ensures
        e.finite(),
        -1real <= double_value(e) <= 1real,
{
    let d = choose|d: Number|
        evaluates(ar, edge_distance(k, centre, sigma), d) && #[trigger] unary_gives(
            ar,
            Unary::Erf,
            d,
            Number::Double(e),
        );
    lemma_edge_distance(ar, k, centre, sigma, d->Double_0);
}

/// A window lets light of every channel through: more than 1e-10, with
/// something over for the rounding.
pub open spec fn lets_light_through(
    sensitivity: Seq<[Double; 3]>,
    illuminant: Seq<Double>,
    window: Seq<Double>,
) -> bool {
    forall|c: int|
        0 <= c < 3 ==> total(#[trigger] light(sensitivity, illuminant, c), 0, 81) >= 1000001real
            / 10000000000000000real && total(
            passed(sensitivity, illuminant, window, c),
            0,
            81,
        ) >= 1000001real / 10000000000000000real
}

proof fn lemma_share_undone(p: real, w: real, t: real, a: real)
    by (nonlinear_arith)
    requires
        1real / 10000000000real <= p <= 10000000000real,
        1real / 10000000000real <= w <= 10000000000real,
        0real < t,
        0real < a,
        size_of_real(p - t) <= t / 500000000000real,
        size_of_real(w - a) <= a / 500000000000real,
    ensures
        p / w > 0real,
        size_of_real((1real / (p / w)) * t - a) <= a / 100000000000real,
{
    let m = p / w;
    assert(m * w == p);
    assert(m > 0real);
    let z = (1real / m) * t;
    assert((1real / m) * m == 1real);
    assert(z * m == t);
    assert((z - w) * m == t - p);
    assert((z / 500000000000real) * m == t / 500000000000real);
    assert(z - w <= z / 500000000000real);
    assert(w - z <= z / 500000000000real);
}

/// The numbers of a window divided by its share, and what this share does to
/// the light of the whole window.
proof fn lemma_normalized<A: Arithmetic>(
    ar: &A,
    sensitivity: Seq<[Double; 3]>,
    illuminant: Seq<Double>,
    window: Seq<Double>,
    c: int,
    r: Seq<Double>,
) -> (share: real)
    requires
        sound(ar),
        is_light(sensitivity, illuminant, 81),
        window.len() == 81,
        all_within(window, 2real),
        lets_light_through(sensitivity, illuminant, window),
        0 <= c < 3,
        is_normalized_window(ar, sensitivity, illuminant, window, c, 81, r),
    ensures
        share > 0real,
        size_of_real(
            (1real / share) * total(passed(sensitivity, illuminant, window, c), 0, 81) - total(
                light(sensitivity, illuminant, c),
                0,
                81,
            ),
        ) <= total(light(sensitivity, illuminant, c), 0, 81) / 100000000000real,
        forall|k: int|
            0 <= k < 81 ==> {
                let v = double_value(window[k]) / share;
                &&& (#[trigger] r[k]).finite()
                &&& 0real <= double_value(r[k])
                &&& 0real <= v <= 200000000000000000000real
                &&& size_of_real(double_value(r[k]) - v) <= v / 3000000000real + dust()
            },
{
    let (through, all, part, whole) = choose|
        through: Seq<Double>,
        all: Seq<Double>,
        part: Double,
        whole: Double,
    |
        {
            &&& #[trigger] are_window_terms(
                ar,
                sensitivity,
                illuminant,
                window,
                c,
                81,
                through,
                all,
            )
            &&& #[trigger] is_double(ar, pairwise(leaves(through)), part)
            &&& #[trigger] is_double(ar, pairwise(leaves(all)), whole)
            &&& r.len() == window.len()
            &&& if (Double { bits: SMALLEST_SUM }).below(part) && (Double {
                bits: SMALLEST_SUM,
            }).below(whole) {
                forall|wl: int|
                    0 <= wl < r.len() ==> if wl < 81 {
                        is_double(
                            ar,
                            over(double(window[wl]), over(double(part), double(whole))),
                            #[trigger] r[wl],
                        )
                    } else {
                        r[wl] == window[wl]
                    }
            } else {
                r == window
            }
        };
    let f = light(sensitivity, illuminant, c);
    let h = passed(sensitivity, illuminant, window, c);
    assert forall|k: int| 0 <= k < 81 implies (#[trigger] all[k]).finite() && 0real
        <= double_value(all[k]) <= 1000000000real && size_of_real(double_value(all[k]) - f(k))
        <= (3real / 1000000000000000real) * f(k) + 4real * dust() by {
        lemma_terms(ar, sensitivity, illuminant, window, c, 81, through, all, k);
    }
    assert forall|k: int| 0 <= k < 81 implies (#[trigger] through[k]).finite() && 0real
        <= double_value(through[k]) <= 1000000000real && size_of_real(
        double_value(through[k]) - h(k),
    ) <= (3real / 1000000000000000real) * h(k) + 4real * dust() by {
        lemma_terms(ar, sensitivity, illuminant, window, c, 81, through, all, k);
    }
    assert forall|k: int| 0 <= k < 81 implies 0real <= #[trigger] f(k) <= 20000000real by {
        lemma_terms(ar, sensitivity, illuminant, window, c, 81, through, all, k);
    }
    assert forall|k: int| 0 <= k < 81 implies 0real <= #[trigger] h(k) <= 20000000real by {
        lemma_terms(ar, sensitivity, illuminant, window, c, 81, through, all, k);
    }
    assert(all_within(all, 1000000000real));
    assert(all_within(through, 1000000000real));
    lemma_sum_near(ar, all, f, whole);
    lemma_sum_near(ar, through, h, part);
    lemma_smallest_sum();
    lemma_order(Double { bits: SMALLEST_SUM }, part);
    lemma_order(Double { bits: SMALLEST_SUM }, whole);
    let (p, w) = (double_value(part), double_value(whole));
    lemma_share_undone(p, w, total(h, 0, 81), total(f, 0, 81));
    assert forall|k: int| 0 <= k < 81 implies ({
        let v = double_value(window[k]) / (p / w);
        &&& (#[trigger] r[k]).finite()
        &&& 0real <= double_value(r[k])
        &&& 0real <= v <= 200000000000000000000real
        &&& size_of_real(double_value(r[k]) - v) <= v / 3000000000real + dust()
    }) by {
        lemma_divided(ar, window[k], part, whole, r[k]);
    }
    p / w
}

// ── The law ──────────────────────────────────────────────────────────────

/// The products that an entry of a matrix product adds up.
pub open spec fn entry_terms(
    left: Seq<Double>,
    right: Seq<Double>,
    inner: int,
    row: int,
    c: int,
) -> spec_fn(int) -> real {
    |k: int| double_value(left[row * inner + k]) * double_value(right[3 * k + c])
}

/// A number that is not negative, up to 1e30.
pub open spec fn moderate(x: Double) -> bool {
    x.finite() && 0real <= double_value(x) <= 1000000000000000000000000000000real
}

/// `product` adds up each entry of the product of two matrices within 1e-12
/// of what it is, where the row and the column hold no negative numbers. An
/// entry of a row of up to 1000 numbers is off by less in any order of
/// summation.
pub open spec fn accurate<P: Fn(&Vec<Double>, &Vec<Double>, ProductShape) -> Vec<Double>>(
    product: P,
) -> bool {
    forall|left: Vec<Double>, right: Vec<Double>, rows: usize, inner: usize, r: Vec<Double>,
        row: int, c: int| #[trigger]
        multiplies(product, rows, inner, left, right, r) && inner <= 1000 && 0 <= row < rows && 0
            <= c < 3 && (forall|k: int|
            0 <= k < inner ==> moderate(#[trigger] left@[row * inner + k])) && (forall|k: int|
            0 <= k < inner ==> moderate(#[trigger] right@[3 * k + c])) ==> {
            let x = total(entry_terms(left@, right@, inner as int, row, c), 0, inner as int);
            &&& (#[trigger] r@[3 * row + c]).finite()
            &&& size_of_real(double_value(r@[3 * row + c]) - x) <= x / 1000000000000real + 1real
                / 10000000000000000000000000real
        }
}

proof fn lemma_regrouped(i: real, s: real)
    by (nonlinear_arith)
    ensures
        i * s == s * i,
{
}

/// The table without the window at a cell that holds the illuminant.
proof fn lemma_plain_exposure<A: Arithmetic>(
    ar: &A,
    spectrum: Seq<Single>,
    sensitivity: Seq<[Double; 3]>,
    illuminant: Seq<Double>,
    c: int,
    r: Double,
)
    requires
        sound(ar),
        sound_single(ar),
        is_light(sensitivity, illuminant, 81),
        0 <= c < 3,
        forall|k: int|
            0 <= k < 81 ==> (#[trigger] spectrum[k]).finite() && single_value(spectrum[k])
                == double_value(illuminant[k]),
        is_double(ar, exposure_sum(spectrum, sensitivity, c, 81), r),
    ensures
        r.finite(),
        size_of_real(double_value(r) - total(light(sensitivity, illuminant, c), 0, 81)) <= total(
            light(sensitivity, illuminant, c),
            0,
            81,
        ) / 1000000000000real + 1real / 100000000000000000000000000real,
{
    let f = light(sensitivity, illuminant, c);
    let terms = |wl: int| times(widen(single(spectrum[wl])), double(sensitivity[wl]@[c]));
    assert forall|k: int| 0 <= k < 81 implies 0real <= #[trigger] f(k) <= 1000000000real by {
        lemma_product_range(
            double_value(sensitivity[k]@[c]),
            double_value(illuminant[k]),
            10000real,
            1000real,
        );
    }
    assert forall|k: int, p: Double|
        0 <= k < 81 && #[trigger] is_double(ar, terms(k), p) implies p.finite() && 0real
        <= double_value(p) && size_of_real(double_value(p) - f(k)) <= f(k) / 1000000000000000real
        + dust() by {
        let (i, s) = (single_value(spectrum[k]), double_value(sensitivity[k]@[c]));
        lemma_tracks_widened(ar, adaptation::plain(), spectrum[k], 1000real);
        lemma_term(
            ar,
            widen(single(spectrum[k])),
            double(sensitivity[k]@[c]),
            i,
            s,
            p,
        );
        lemma_regrouped(i, s);
    }
    lemma_sum_summed(ar, terms, f, 81, r);
    let x = total(f, 0, 81);
    lemma_counted(82real, 163real, x, 4real * speck(), 4real * dust(), 82);
}

/// The entry with the window, from the two matrices.
proof fn lemma_seen_exposure<A: Arithmetic>(
    ar: &A,
    sensitivity: Seq<[Double; 3]>,
    illuminant: Seq<Double>,
    window: Seq<Double>,
    c: int,
    share: real,
    normalized: Seq<Double>,
    row: spec_fn(int) -> Double,
    column: spec_fn(int) -> Double,
    terms: spec_fn(int) -> real,
)
    requires
        sound(ar),
        is_light(sensitivity, illuminant, 81),
        window.len() == 81,
        all_within(window, 2real),
        0 <= c < 3,
        share > 0real,
        forall|k: int|
            0 <= k < 81 ==> {
                let v = double_value(window[k]) / share;
                &&& (#[trigger] normalized[k]).finite()
                &&& 0real <= double_value(normalized[k])
                &&& 0real <= v <= 200000000000000000000real
                &&& size_of_real(double_value(normalized[k]) - v) <= v / 3000000000real + dust()
            },
        forall|k: int|
            0 <= k < 81 ==> double_value(#[trigger] row(k)) == double_value(illuminant[k]),
        forall|k: int|
            0 <= k < 81 ==> is_double(
                ar,
                times(double(sensitivity[k]@[c]), double(normalized[k])),
                #[trigger] column(k),
            ),
        forall|k: int|
            0 <= k < 81 ==> #[trigger] terms(k) == double_value(row(k)) * double_value(column(k)),
    ensures
        forall|k: int| 0 <= k < 81 ==> moderate(#[trigger] column(k)),
        ({
            let z = (1real / share) * total(passed(sensitivity, illuminant, window, c), 0, 81);
            size_of_real(total(terms, 0, 81) - z) <= z / 2000000000real + 1real
                / 100000000000000000000real
        }),
{
    let h = passed(sensitivity, illuminant, window, c);
    let seen = |k: int|
        double_value(illuminant[k]) * (double_value(sensitivity[k]@[c]) * (double_value(window[k])
            / share));
    assert forall|k: int| 0 <= k < 81 implies moderate(#[trigger] column(k)) && size_of_real(
        terms(k) - seen(k),
    ) <= (1real / 2000000000real) * seen(k) + 1real / 10000000000000000000000real by {
        let (i, s) = (double_value(illuminant[k]), double_value(sensitivity[k]@[c]));
        let v = double_value(window[k]) / share;
        let u = double_value(normalized[k]);
        assert(0real <= u <= 300000000000000000000real);
        lemma_product_range(s, u, 10000real, 300000000000000000000real);
        lemma_wide_term(ar, sensitivity[k]@[c], normalized[k], column(k));
        lemma_seen(i, s, v, u, double_value(column(k)));
        assert(double_value(row(k)) == i);
    }
    assert forall|k: int| 0 <= k < 81 implies size_of_real(#[trigger] terms(k) - seen(k)) <= (1real
        / 2000000000real) * seen(k) + 1real / 10000000000000000000000real by {
        assert(moderate(column(k)));
    }
    lemma_total_close(
        terms,
        seen,
        81,
        1real / 2000000000real,
        1real / 10000000000000000000000real,
    );
    assert forall|k: int| 0 <= k < 81 implies #[trigger] seen(k) == (1real / share) * h(k) by {
        lemma_divided_term(
            double_value(illuminant[k]),
            double_value(sensitivity[k]@[c]),
            double_value(window[k]),
            share,
        );
    }
    lemma_total_scaled(seen, h, 81, 1real / share);
}

/// A sensitivity times a number of the normalised window.
proof fn lemma_wide_term<A: Arithmetic>(ar: &A, s: Double, u: Double, r: Double)
    requires
        sound(ar),
        s.finite() && u.finite(),
        0real <= double_value(s) <= 10000real,
        0real <= double_value(u) <= 300000000000000000000real,
        is_double(ar, times(double(s), double(u)), r),
    ensures
        moderate(r),
        size_of_real(double_value(r) - double_value(s) * double_value(u)) <= (double_value(s)
            * double_value(u)) / 1000000000000000real + dust(),
{
    lemma_huge();
    lemma_small_numbers();
    assert((Double { bits: 0 }).finite());
    lemma_product_range(double_value(s), double_value(u), 10000real, 300000000000000000000real);
    let (x, y) = lemma_binary(ar, Binary::Times, double(s), double(u), r);
    assert(x == s && y == u);
}

/// A grid position by its row and its column.
proof fn lemma_position(p: int, size: int)
    requires
        0 <= p,
        0 < size,
    ensures
        (p / size) * size + p % size == p,
{
    lemma_fundamental_div_mod(p, size);
    lemma_mul_is_commutative(p / size, size);
}

/// At a cell of the table of spectra that holds the illuminant, the table of
/// exposures with the window agrees with the one without it, within 1e-9 of
/// each entry: the window is divided by the share of this light that it lets
/// through. This holds where the arithmetic rounds as it should, the matrix
/// product is accurate, and every channel gets light through the window.
pub proof fn lemma_white_kept<
    A: Arithmetic,
    P: Fn(&Vec<Double>, &Vec<Double>, ProductShape) -> Vec<Double>,
>(
    ar: &A,
    spectra: SpectraLut,
    sensitivity: Seq<[Double; 3]>,
    window_params: Seq<Double>,
    illuminant: Seq<Double>,
    product: P,
    plain: TcLut,
    seen: TcLut,
    p: int,
    c: int,
)
    requires
        sound(ar),
        sound_single(ar),
        erf_sound(ar),
        accurate(product),
        spectra.valid(),
        spectra.size * spectra.size <= usize::MAX,
        spectra.n_wavelengths == 81,
        sensitivity.len() == 81,
        is_light(sensitivity, illuminant, 81),
        is_band(window_params),
        forall|window: Seq<Double>| #[trigger]
            is_window_or_ones(ar, window_params, window) ==> lets_light_through(
                sensitivity,
                illuminant,
                window,
            ),
        0 <= p < spectra.size * spectra.size,
        0 <= c < 3,
        forall|k: int|
            0 <= k < 81 ==> (#[trigger] spectra.data@[p * 81 + k]).finite() && single_value(
                spectra.data@[p * 81 + k],
            ) == double_value(illuminant[k]),
        is_tc_lut(ar, spectra, sensitivity, plain),
        exists|left: Vec<Double>, right: Vec<Double>|
            multiplies(
                product,
                (spectra.size * spectra.size) as usize,
                81,
                left,
                right,
                seen.data,
            ) && #[trigger] are_operands(
                ar,
                spectra,
                sensitivity,
                window_params,
                illuminant,
                left@,
                right@,
            ),
    ensures
        plain.data@[3 * p + c].finite(),
        seen.data@[3 * p + c].finite(),
        size_of_real(
            double_value(seen.data@[3 * p + c]) - double_value(plain.data@[3 * p + c]),
        ) <= double_value(plain.data@[3 * p + c]) / 1000000000real,
{
    let rows = (spectra.size * spectra.size) as usize;
    let (left, right) = choose|left: Vec<Double>, right: Vec<Double>|
        multiplies(product, rows, 81, left, right, seen.data) && #[trigger] are_operands(
            ar,
            spectra,
            sensitivity,
            window_params,
            illuminant,
            left@,
            right@,
        );
    let (window, windows) = choose|window: Seq<Double>, windows: Seq<Seq<Double>>|
        {
            &&& windows.len() == 3
            &&& forall|c: int|
                0 <= c < 3 ==> is_normalized_window(
                    ar,
                    sensitivity,
                    illuminant,
                    window,
                    c,
                    81,
                    #[trigger] windows[c],
                )
            &&& is_spectra_matrix(ar, spectra, 81, left@)
            &&& #[trigger] is_sensitivity_matrix(ar, sensitivity, windows, 81, right@)
            &&& #[trigger] is_window_or_ones(ar, window_params, window)
        };
    assert(counted_wavelengths(spectra, sensitivity) == 81);
    assert(lets_light_through(sensitivity, illuminant, window));
    lemma_window_range(ar, window_params, window);
    assert(is_normalized_window(ar, sensitivity, illuminant, window, c, 81, windows[c]));
    let share = lemma_normalized(ar, sensitivity, illuminant, window, c, windows[c]);
    let row = |k: int| left@[p * 81 + k];
    let column = |k: int| right@[3 * k + c];
    let terms = entry_terms(left@, right@, 81, p, c);
    assert forall|k: int| 0 <= k < 81 implies moderate(#[trigger] left@[p * 81 + k])
        && double_value(left@[p * 81 + k]) == double_value(illuminant[k]) by {
        let x = spectra.data@[p * 81 + k];
        assert(is_double(ar, widen(single(x)), left@[p * 81 + k]));
        lemma_tracks_widened(ar, adaptation::plain(), x, 1000real);
    }
    lemma_seen_exposure(
        ar,
        sensitivity,
        illuminant,
        window,
        c,
        share,
        windows[c],
        row,
        column,
        terms,
    );
    assert forall|k: int| 0 <= k < 81 implies moderate(#[trigger] right@[3 * k + c]) by {
        assert(moderate(column(k)));
    }
    assert(seen.data@[3 * p + c].finite());
    let spectrum = spectra.at(p / spectra.size as int, p % spectra.size as int);
    assert(spectra.size > 0) by (nonlinear_arith)
        requires
            0 <= p < spectra.size * spectra.size,
    ;
    lemma_position(p, spectra.size as int);
    lemma_cell_fits(p, spectra.size * spectra.size, 81);
    assert forall|k: int| 0 <= k < 81 implies (#[trigger] spectrum[k]).finite() && single_value(
        spectrum[k],
    ) == double_value(illuminant[k]) by {
        assert(spectrum[k] == spectra.data@[p * 81 + k]);
    }
    assert(is_double(
        ar,
        exposure_sum(spectrum, sensitivity, c, 81),
        plain.data@[3 * p + c],
    ));
    lemma_plain_exposure(
        ar,
        spectrum,
        sensitivity,
        illuminant,
        c,
        plain.data@[3 * p + c],
    );
    let a = total(light(sensitivity, illuminant, c), 0, 81);
    assert(a >= 1real / 10000000000real);
}

proof fn lemma_cell_fits(p: int, cells: int, n: int)
    by (nonlinear_arith)
    requires
        0 <= p < cells,
        0 <= n,
    ensures
        0 <= p * n,
        p * n + n <= cells * n,
{
}

} // verus!
