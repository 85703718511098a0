//! The sizes of the slopes of a cube, and its nodes: a prepared cube gives
//! back its samples.

use vstd::arithmetic::div_mod::{lemma_fundamental_div_mod, lemma_mod_bound};
use vstd::arithmetic::mul::lemma_mul_is_commutative;
use vstd::arithmetic::power2::lemma2_to64_rest;
use vstd::prelude::*;

use crate::arith::{constant, double, is_double, minus, plus, times, Arithmetic, Binary};
use crate::bits::Double;
use crate::exact::{double_value, lemma_small_numbers, size_of_real, whole_power_of};
use crate::pchip::{are_differences, are_slopes, axis_slopes, is_end_slope, is_inner_slope};
use crate::pchip::{is_interpolated, is_moderate, is_place, lemma_node_interpolated, prepared};
use crate::pchip::{steep, zero, Place, HALF, THREE, TWO};
use crate::pchip3d::{entries, entry_index, lemma_entry_bound, line_of, on_line, Axis};
use crate::pchip3d::PreparedPchip3d;
use crate::rounding::{huge, is_rounded, lemma_binary, lemma_order, sound};

verus! {

/// The size up to which samples are taken here: 1e100.
pub open spec fn great() -> real {
    whole_power_of(10real, 100)
}

/// A sample of a limited size.
pub open spec fn is_sample(x: Double) -> bool {
    x.finite() && size_of_real(double_value(x)) <= great()
}

proof fn lemma_powers_multiply(x: real, m: nat, n: nat)
    ensures
        whole_power_of(x, m + n) == whole_power_of(x, m) * whole_power_of(x, n),
    decreases m,
{
    if m > 0 {
        lemma_powers_multiply(x, (m - 1) as nat, n);
        let (a, b) = (whole_power_of(x, (m - 1) as nat), whole_power_of(x, n));
        assert(x * (a * b) == (x * a) * b) by (nonlinear_arith);
        assert((m + n - 1) as nat == (m - 1) as nat + n);
        assert(whole_power_of(x, m + n) == x * whole_power_of(x, (m + n - 1) as nat));
    } else {
        assert(1real * whole_power_of(x, n) == whole_power_of(x, n)) by (nonlinear_arith);
    }
}

proof fn lemma_great_size(t: real)
    by (nonlinear_arith)
    requires
        t >= 10000000000real,
    ensures
        t * t >= 10000000000real * t,
        (t * t) * t >= 10000000000real * (t * t),
        (t * t) * t >= 1000000000000000000000000000000real,
{
}

/// How the sizes compare.
proof fn lemma_great()
    ensures
        great() >= 10000000000real,
        great() * great() >= 10000000000real * great(),
        huge() >= 10000000000real * (great() * great()),
        steep() >= 10000real * (great() * great()),
{
    let t = great();
    lemma_powers_multiply(10real, 100, 200);
    lemma_powers_multiply(10real, 100, 100);
    lemma_powers_multiply(10real, 10, 90);
    lemma_at_least_one(90);
    reveal_with_fuel(whole_power_of, 11);
    let u = whole_power_of(10real, 90);
    assert(whole_power_of(10real, 10) == 10000000000real);
    assert(t == whole_power_of(10real, 10) * u);
    assert(t >= 10000000000real);
    lemma_great_size(t);
    assert(t * (t * t) == (t * t) * t) by (nonlinear_arith);
}

proof fn lemma_at_least_one(n: nat)
    ensures
        whole_power_of(10real, n) >= 1real,
    decreases n,
{
    if n > 0 {
        lemma_at_least_one((n - 1) as nat);
    }
}

// ── The slopes of a line ─────────────────────────────────────────────────

/// Differences of neighbours are at most five times as large.
proof fn lemma_difference<A: Arithmetic>(ar: &A, a: Double, b: Double, r: Double)
    requires
        sound(ar),
        is_sample(a),
        is_sample(b),
        is_double(ar, minus(double(a), double(b)), r),
    ensures
        r.finite(),
        size_of_real(double_value(r)) <= 5real * great(),
{
    lemma_great();
    let (x, y) = lemma_binary(ar, Binary::Minus, double(a), double(b), r);
    assert(x == a && y == b);
}

proof fn lemma_end_slope<A: Arithmetic>(ar: &A, d0: Double, d1: Double, r: Double)
    requires
        sound(ar),
        d0.finite() && size_of_real(double_value(d0)) <= 5real * great(),
        d1.finite() && size_of_real(double_value(d1)) <= 5real * great(),
        is_end_slope(ar, d0, d1, r),
    ensures
        is_moderate(r),
{
    lemma_great();
    lemma_small_numbers();
    let (s, along, turn, top) = choose|s: Double, along: Double, turn: Double, top: Double|
        {
            &&& #[trigger] is_double(
                ar,
                times(constant(HALF), minus(times(constant(THREE), double(d0)), double(d1))),
                s,
            )
            &&& #[trigger] is_double(ar, times(double(s), double(d0)), along)
            &&& #[trigger] is_double(ar, times(double(d0), double(d1)), turn)
            &&& #[trigger] is_double(ar, times(constant(THREE), double(d0)), top)
            &&& r == if along.at_most(zero()) {
                zero()
            } else if turn.below(zero()) && top.absolute().below(s.absolute()) {
                top
            } else {
                s
            }
        };
    lemma_thrice(ar, d0, top);
    let inner = minus(times(constant(THREE), double(d0)), double(d1));
    let (h, m) = lemma_binary(ar, Binary::Times, constant(HALF), inner, s);
    let (t, e) = lemma_binary(ar, Binary::Minus, times(constant(THREE), double(d0)), double(d1), m);
    lemma_thrice(ar, d0, t);
    assert(e == d1);
    assert(m.finite() && size_of_real(double_value(m)) <= 100real * great());
    lemma_half_value();
    assert(double_value(h) * double_value(m) == double_value(m) / 2real);
    assert(s.finite() && size_of_real(double_value(s)) <= 200real * great());
}

proof fn lemma_half_value()
    ensures
        double_value(Double { bits: HALF }) == 1real / 2real,
{
    lemma2_to64_rest();
    assert(double_value(Double { bits: HALF }) == (0x10_0000_0000_0000int as real) / (
    0x20_0000_0000_0000int as real));
}

proof fn lemma_thrice<A: Arithmetic>(ar: &A, d: Double, r: Double)
    requires
        sound(ar),
        d.finite() && size_of_real(double_value(d)) <= 5real * great(),
        is_double(ar, times(constant(THREE), double(d)), r),
    ensures
        r.finite(),
        size_of_real(double_value(r)) <= 20real * great(),
{
    lemma_great();
    lemma_small_numbers();
    let (k, x) = lemma_binary(ar, Binary::Times, constant(THREE), double(d), r);
    assert(x == d);
    assert(double_value(k) * double_value(x) == 3real * double_value(d));
}

proof fn lemma_steep_product(a: real, n: real, t: real)
    by (nonlinear_arith)
    requires
        t >= 10000000000real,
        size_of_real(a) <= 21real * t,
        size_of_real(n) <= 5real * t,
    ensures
        size_of_real(a * n) <= 105real * (t * t),
{
}

proof fn lemma_signs(x: real, y: real)
    by (nonlinear_arith)
    requires
        x != 0real,
        y != 0real,
    ensures
        x * y > 0real ==> (x > 0real && y > 0real) || (x < 0real && y < 0real),
        size_of_real(x) <= 1real ==> size_of_real(x * y) <= size_of_real(y),
{
}

proof fn lemma_ratio_small(n: real, s: real, top: real)
    by (nonlinear_arith)
    requires
        s != 0real,
        top >= 0real,
        size_of_real(n) <= size_of_real(s) || (size_of_real(s) >= 4real / 10real && size_of_real(n)
            <= top),
    ensures
        size_of_real(n / s) <= 3real * top + 1real,
{
    let q = n / s;
    assert(q * s == n);
}

proof fn lemma_inner_slope<A: Arithmetic>(ar: &A, dp: Double, dn: Double, r: Double)
    requires
        sound(ar),
        dp.finite() && size_of_real(double_value(dp)) <= 5real * great(),
        dn.finite() && size_of_real(double_value(dn)) <= 5real * great(),
        is_inner_slope(ar, dp, dn, r),
    ensures
        is_moderate(r),
{
    lemma_great();
    lemma_small_numbers();
    lemma_order(dp, zero());
    lemma_order(dn, zero());
    if r != zero() {
        let (x, y) = (double_value(dp), double_value(dn));
        let t = great();
        let turn = choose|turn: Double| #[trigger]
            is_double(ar, times(double(dp), double(dn)), turn) && !turn.at_most(zero());
        let (p, q) = lemma_binary(ar, Binary::Times, double(dp), double(dn), turn);
        assert(p == dp && q == dn);
        lemma_steep_product(x, y, t);
        assert(zero().finite());
        lemma_order(turn, zero());
        assert(x * y > 0real);
        lemma_signs(x, y);
        let top = times(times(constant(TWO), double(dp)), double(dn));
        let (n, s) = lemma_binary(ar, Binary::Over, top, plus(double(dp), double(dn)), r);
        let (u, v) = lemma_binary(ar, Binary::Plus, double(dp), double(dn), s);
        assert(u == dp && v == dn);
        assert(dp.finite() && dn.finite());
        assert(size_of_real(double_value(s)) >= size_of_real(x));
        assert(size_of_real(double_value(s)) >= size_of_real(y));
        let (a, w) = lemma_binary(ar, Binary::Times, times(constant(TWO), double(dp)), double(dn), n);
        assert(w == dn);
        let (two, z) = lemma_binary(ar, Binary::Times, constant(TWO), double(dp), a);
        assert(z == dp);
        assert(double_value(two) * double_value(z) == 2real * x);
        lemma_steep_product(double_value(a), y, t);
        let most = 220real * (t * t);
        assert(n.finite() && size_of_real(double_value(n)) <= most);
        if size_of_real(double_value(a)) <= 1real {
            assert(double_value(a) != 0real ==> size_of_real(double_value(a) * y) <= size_of_real(
                y,
            )) by {
                if double_value(a) != 0real {
                    lemma_signs(double_value(a), y);
                }
            }
            assert(double_value(a) == 0real ==> double_value(a) * y == 0real) by (nonlinear_arith);
            lemma_stays_below(dn, double_value(a) * y, n);
        } else {
            assert(size_of_real(x) >= 4real / 10real);
        }
        lemma_ratio_small(double_value(n), double_value(s), most);
    }
}

/// A rounded number is no larger than a number that the exact one is not
/// larger than.
proof fn lemma_stays_below(limit: Double, x: real, r: Double)
    requires
        limit.finite(),
        is_rounded(x, r),
        size_of_real(x) <= size_of_real(double_value(limit)),
    ensures
        size_of_real(double_value(r)) <= size_of_real(double_value(limit)),
{
    let other = limit.negation();
    lemma_negation(limit);
    assert(other.finite());
}

proof fn lemma_negation(x: Double)
    requires
        x.finite(),
    ensures
        x.negation().finite(),
        double_value(x.negation()) == -double_value(x),
{
}

/// The slopes of a line are of a limited size.
proof fn lemma_line_slopes<A: Arithmetic>(ar: &A, v: Seq<Double>, r: Seq<Double>, i: int)
    requires
        sound(ar),
        are_slopes(ar, v, r),
        forall|k: int| 0 <= k < v.len() ==> is_sample(#[trigger] v[k]),
        0 <= i < v.len(),
    ensures
        is_moderate(r[i]),
{
    lemma_great();
    lemma_small_numbers();
    let n = v.len() as int;
    if n >= 2 {
        let d = choose|d: Seq<Double>| #[trigger]
            are_differences(ar, v, d) && if v.len() == 2 {
                r[0] == d[0] && r[1] == d[0]
            } else {
                let n = v.len() as int;
                &&& is_end_slope(ar, d[0], d[1], r[0])
                &&& is_end_slope(ar, d[n - 2], d[n - 3], r[n - 1])
                &&& forall|i: int|
                    1 <= i < n - 1 ==> is_inner_slope(ar, d[i - 1], d[i], #[trigger] r[i])
            };
        assert forall|k: int| 0 <= k < d.len() implies (#[trigger] d[k]).finite() && size_of_real(
            double_value(d[k]),
        ) <= 5real * great() by {
            lemma_difference(ar, v[k + 1], v[k], d[k]);
        }
        if n > 2 {
            if i == 0 {
                lemma_end_slope(ar, d[0], d[1], r[0]);
            } else if i == n - 1 {
                lemma_end_slope(ar, d[n - 2], d[n - 3], r[n - 1]);
            } else {
                lemma_inner_slope(ar, d[i - 1], d[i], r[i]);
            }
        }
    }
}

// ── The nodes of a prepared cube ─────────────────────────────────────────

proof fn lemma_quotient_below(q: int, size: int, most: int)
    by (nonlinear_arith)
    requires
        0 <= q < most * size,
        0 < size,
    ensures
        0 <= q / size < most,
{
}

/// Where a number stands in the cube.
proof fn lemma_position(size: int, q: int) -> (at: (int, int, int, int))
    requires
        0 <= q < entries(size),
        0 < size,
    ensures
        0 <= at.0 < size,
        0 <= at.1 < size,
        0 <= at.2 < size,
        0 <= at.3 < 3,
        entry_index(size, at.0, at.1, at.2, at.3) == q,
{
    let cell = q / 3;
    lemma_quotient_below(q, 3, size * size * size);
    let row = cell / size;
    lemma_quotient_below(cell, size, size * size);
    lemma_quotient_below(row, size, size);
    lemma_fundamental_div_mod(q, 3);
    lemma_fundamental_div_mod(cell, size);
    lemma_fundamental_div_mod(row, size);
    lemma_mod_bound(cell, size);
    lemma_mod_bound(row, size);
    let (i, j, k, c) = (row / size, row % size, cell % size, q % 3);
    lemma_mul_is_commutative(i, size);
    lemma_mul_is_commutative(row, size);
    assert(i * size + j == row);
    assert(row * size + k == cell);
    (i, j, k, c)
}

/// The slopes along an axis are of a limited size.
proof fn lemma_axis_moderate<A: Arithmetic>(
    ar: &A,
    lut: Seq<Double>,
    size: nat,
    axis: Axis,
    out: Seq<Double>,
    q: int,
)
    requires
        sound(ar),
        size > 0,
        lut.len() == entries(size as int),
        forall|i: int| 0 <= i < lut.len() ==> is_sample(#[trigger] lut[i]),
        axis_slopes(ar, lut, size, axis, out),
        0 <= q < entries(size as int),
    ensures
        is_moderate(out[q]),
{
    let n = size as int;
    let (i, j, k, c) = lemma_position(n, q);
    let (t, a, b) = match axis {
        Axis::X => (i, j, k),
        Axis::Y => (j, i, k),
        Axis::Z => (k, i, j),
    };
    let v = line_of(lut, size, axis, a, b, c);
    let r = line_of(out, size, axis, a, b, c);
    assert(on_line(n, axis, t, a, b, c) == q);
    assert forall|u: int| 0 <= u < v.len() implies is_sample(#[trigger] v[u]) by {
        match axis {
            Axis::X => lemma_entry_bound(n, u, a, b, c),
            Axis::Y => lemma_entry_bound(n, a, u, b, c),
            Axis::Z => lemma_entry_bound(n, a, b, u, c),
        }
        assert(v[u] == lut[on_line(n, axis, u, a, b, c)]);
    }
    lemma_line_slopes(ar, v, r, t);
    assert(r[t] == out[q]);
}

/// Where the arithmetic rounds as it should, a prepared cube with samples of
/// sizes up to 1e100 gives back its samples: interpolating at a node gives
/// the node's own value.
pub proof fn lemma_prepared_node<A: Arithmetic>(
    ar: &A,
    p: PreparedPchip3d,
    coords: (Double, Double, Double),
    nodes: (int, int, int),
    x: Place,
    y: Place,
    z: Place,
    c: int,
    r: Double,
)
    requires
        sound(ar),
        2 <= p.size <= 0x20_0000_0000_0000,
        0 <= c < 3,
        0 <= nodes.0 < p.size,
        0 <= nodes.1 < p.size,
        0 <= nodes.2 < p.size,
        coords.0.finite() && double_value(coords.0) == nodes.0 as real,
        coords.1.finite() && double_value(coords.1) == nodes.1 as real,
        coords.2.finite() && double_value(coords.2) == nodes.2 as real,
        prepared(ar, p),
        forall|i: int| 0 <= i < p.lut@.len() ==> is_sample(#[trigger] p.lut@[i]),
        is_place(ar, coords.0, p.size as nat, x),
        is_place(ar, coords.1, p.size as nat, y),
        is_place(ar, coords.2, p.size as nat, z),
        is_interpolated(ar, p, x, y, z, c, r),
    ensures
        r.finite(),
        double_value(r) == double_value(
            p.lut@[entry_index(p.size as int, nodes.0, nodes.1, nodes.2, c)],
        ),
{
    let size = p.size as nat;
    lemma_great();
    assert forall|i: int| 0 <= i < p.lut@.len() implies is_moderate(#[trigger] p.lut@[i]) by {
        assert(is_sample(p.lut@[i]));
    }
    assert forall|i: int| 0 <= i < p.slope_x@.len() implies is_moderate(
        #[trigger] p.slope_x@[i],
    ) by {
        lemma_axis_moderate(ar, p.lut@, size, Axis::X, p.slope_x@, i);
    }
    assert forall|i: int| 0 <= i < p.slope_y@.len() implies is_moderate(
        #[trigger] p.slope_y@[i],
    ) by {
        lemma_axis_moderate(ar, p.lut@, size, Axis::Y, p.slope_y@, i);
    }
    assert forall|i: int| 0 <= i < p.slope_z@.len() implies is_moderate(
        #[trigger] p.slope_z@[i],
    ) by {
        lemma_axis_moderate(ar, p.lut@, size, Axis::Z, p.slope_z@, i);
    }
    lemma_node_interpolated(ar, p, coords, nodes, x, y, z, c, r);
}

} // verus!
