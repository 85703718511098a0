//! Arithmetic that rounds as the number formats ask for, and what follows of
//! the numbers that it gives.

use vstd::arithmetic::power2::{lemma_pow2_adds, lemma_pow2_pos, lemma_pow2_strictly_increases};
use vstd::arithmetic::power2::{lemma2_to64, pow2};
use vstd::prelude::*;

use crate::arith::{binary_gives, double, evaluates, is_double, is_single, minus, narrow};
use crate::arith::{narrow_gives, over, plus, rounds_to, single, times, unary_gives, widen};
use crate::arith::widen_gives;
use crate::arith::{Arithmetic, Binary, Formula, Number, Rounding, Unary};
use crate::bits::{Double, Single, DOUBLE_SIGN, SINGLE_SIGN};
use crate::exact::{double_value, exact, lemma_zero_values, scaled, single_value, size_of_real};
use crate::exact::{whole_power_of, Functions};

verus! {

/// The size up to which results are spoken of: 1e300.
pub open spec fn huge() -> real {
    whole_power_of(10real, 300)
}

/// `v` stands for `x` with a relative error of 1e-15, or one of 1e-30 next to
/// zero.
pub open spec fn near(v: real, x: real) -> bool {
    let e = size_of_real(x) / 1000000000000000real + 1real / 1000000000000000000000000000000real;
    -e <= v - x <= e
}

/// `r` is `x` rounded: next to it, and on the same side of every double.
pub open spec fn is_rounded(x: real, r: Double) -> bool {
    &&& r.finite()
    &&& near(double_value(r), x)
    &&& forall|z: Double| #[trigger]
        z.finite() ==> {
            &&& x <= double_value(z) ==> double_value(r) <= double_value(z)
            &&& double_value(z) <= x ==> double_value(z) <= double_value(r)
        }
}

/// The result of an operation on finite numbers.
pub open spec fn binary_sound(op: Binary, a: Double, b: Double, r: Double) -> bool {
    let x = double_value(a);
    let y = double_value(b);
    match op {
        Binary::Plus => size_of_real(x + y) <= huge() ==> is_rounded(x + y, r),
        Binary::Minus => size_of_real(x - y) <= huge() ==> is_rounded(x - y, r),
        Binary::Times => size_of_real(x * y) <= huge() ==> is_rounded(x * y, r),
        Binary::Over => y != 0real && size_of_real(x / y) <= huge() ==> is_rounded(x / y, r),
        Binary::Max => r.finite() && double_value(r) == if x < y {
            y
        } else {
            x
        },
        Binary::Min => r.finite() && double_value(r) == if y < x {
            y
        } else {
            x
        },
        Binary::Power => true,
    }
}

/// Where a number that is not above zero leads to, an infinity included: what
/// is added to a number does not raise it, what is taken off does not lower
/// it, and dividing by a number above zero keeps the sign.
pub open spec fn sign_sound(op: Binary, a: Double, b: Double, r: Double) -> bool {
    let none = Double { bits: 0 };
    match op {
        Binary::Plus => a.finite() && b.at_most(none) ==> r.at_most(a),
        Binary::Minus => a.finite() && b.at_most(none) ==> a.at_most(r),
        Binary::Over => a.at_most(none) && b.finite() && none.below(b) ==> r.at_most(none),
        _ => true,
    }
}

/// The result of an operation on one number.
pub open spec fn unary_sound(op: Unary, a: Double, r: Double) -> bool {
    let x = double_value(a);
    let v = double_value(r);
    match op {
        Unary::Negate => a.finite() ==> r.finite() && v == -x,
        Unary::Absolute => a.finite() ==> r.finite() && v == size_of_real(x),
        Unary::Floor => a.finite() ==> r.finite() && v == x.floor() as real,
        Unary::SquareRoot => a.finite() && x >= 0real ==> {
            &&& r.finite()
            &&& v >= 0real
            &&& size_of_real(v * v - x) <= x / 100000000000000real
        },
        Unary::Ln => a.finite() && 0real <= x <= 1real ==> r.at_most(Double { bits: 0 }),
        _ => true,
    }
}

/// The double for a whole number.
pub open spec fn whole_sound(n: u64, r: Double) -> bool {
    &&& r.finite()
    &&& near(double_value(r), n as real)
    &&& n <= 0x20_0000_0000_0000 ==> double_value(r) == n as real
}

/// The whole number below a double, or the end of the range.
pub open spec fn floor_sound(x: Double, n: i64) -> bool {
    let v = double_value(x);
    &&& x.finite() && -0x8000_0000_0000_0000 <= v.floor() <= 0x7fff_ffff_ffff_ffff ==> n
        == v.floor()
    &&& x.finite() && v.floor() > 0x7fff_ffff_ffff_ffff ==> n == i64::MAX
    &&& x.finite() && v.floor() < -0x8000_0000_0000_0000 ==> n == i64::MIN
    &&& !x.nan() && !x.finite() ==> n == if x.rank() < 0 {
        i64::MIN
    } else {
        i64::MAX
    }
}

/// `ar` rounds as IEEE 754 asks for, its roots and logarithms to the nearest
/// numbers or next to them.
pub open spec fn sound<A: Arithmetic>(ar: &A) -> bool {
    &&& forall|op: Binary, a: Double, b: Double, r: Double| #[trigger]
        call_ensures(A::binary_double, (ar, op, a, b), r) ==> sign_sound(op, a, b, r) && (
        a.finite() && b.finite() ==> binary_sound(op, a, b, r))
    &&& forall|op: Unary, a: Double, r: Double| #[trigger]
        call_ensures(A::unary_double, (ar, op, a), r) ==> unary_sound(op, a, r)
    &&& forall|n: u64, r: Double| #[trigger]
        call_ensures(A::whole, (ar, n), r) ==> whole_sound(n, r)
    &&& forall|x: Double, n: i64| #[trigger]
        call_ensures(A::rounded, (ar, Rounding::Down, x), n) ==> floor_sound(x, n)
}

/// `v` stands for `x` with the error of single precision.
pub open spec fn near_single(v: real, x: real) -> bool {
    let e = size_of_real(x) / 10000000real + 1real / 1000000000000000000000000000000real;
    -e <= v - x <= e
}

/// `ar` rounds sums and products in single precision as IEEE 754 asks for,
/// up to results of 1e30, and so it brings numbers to single precision; to
/// double precision it brings them as they are.
pub open spec fn sound_single<A: Arithmetic>(ar: &A) -> bool {
    let most = 1000000000000000000000000000000real;
    &&& forall|op: Binary, a: Single, b: Single, r: Single| #[trigger]
        call_ensures(A::binary_single, (ar, op, a, b), r) && a.finite() && b.finite() ==> {
            let x = single_value(a) + single_value(b);
            let y = single_value(a) * single_value(b);
            &&& op == Binary::Plus && size_of_real(x) <= most ==> r.finite() && near_single(
                single_value(r),
                x,
            )
            &&& op == Binary::Times && size_of_real(y) <= most ==> r.finite() && near_single(
                single_value(r),
                y,
            )
        }
    &&& forall|a: Double, r: Single| #[trigger]
        call_ensures(A::narrow, (ar, a), r) && a.finite() && size_of_real(double_value(a)) <= most
            ==> r.finite() && near_single(single_value(r), double_value(a))
    &&& forall|a: Single, r: Double| #[trigger]
        call_ensures(A::widen, (ar, a), r) && a.finite() ==> r.finite() && double_value(r)
            == single_value(a)
}

/// The operands that a result of an operation came of.
pub proof fn lemma_binary<A: Arithmetic>(ar: &A, op: Binary, a: Formula, b: Formula, r: Double) -> (xy:
    (Double, Double))
    requires
        sound(ar),
        is_double(ar, Formula::Binary(op, Box::new(a), Box::new(b)), r),
    ensures
        is_double(ar, a, xy.0),
        is_double(ar, b, xy.1),
        sign_sound(op, xy.0, xy.1, r),
        xy.0.finite() && xy.1.finite() ==> binary_sound(op, xy.0, xy.1, r),
{
    let (x, y) = choose|x: Number, y: Number|
        evaluates(ar, a, x) && evaluates(ar, b, y) && #[trigger] binary_gives(
            ar,
            op,
            x,
            y,
            Number::Double(r),
        );
    (x->Double_0, y->Double_0)
}

/// The operand that a result of an operation came of.
pub proof fn lemma_unary<A: Arithmetic>(ar: &A, op: Unary, a: Formula, r: Double) -> (x: Double)
    requires
        sound(ar),
        is_double(ar, Formula::Unary(op, Box::new(a)), r),
    ensures
        is_double(ar, a, x),
        unary_sound(op, x, r),
{
    let x = choose|x: Number|
        evaluates(ar, a, x) && #[trigger] unary_gives(ar, op, x, Number::Double(r));
    x->Double_0
}

/// The operands that a result in single precision came of.
pub proof fn lemma_binary_single<A: Arithmetic>(
    ar: &A,
    op: Binary,
    a: Formula,
    b: Formula,
    r: Single,
) -> (xy: (Single, Single))
    requires
        is_single(ar, Formula::Binary(op, Box::new(a), Box::new(b)), r),
    ensures
        is_single(ar, a, xy.0),
        is_single(ar, b, xy.1),
        call_ensures(A::binary_single, (ar, op, xy.0, xy.1), r),
{
    let (x, y) = choose|x: Number, y: Number|
        evaluates(ar, a, x) && evaluates(ar, b, y) && #[trigger] binary_gives(
            ar,
            op,
            x,
            y,
            Number::Single(r),
        );
    (x->Single_0, y->Single_0)
}

/// The double that was brought to single precision.
pub proof fn lemma_narrowed<A: Arithmetic>(ar: &A, a: Formula, r: Single) -> (x: Double)
    requires
        is_single(ar, narrow(a), r),
    ensures
        is_double(ar, a, x),
        call_ensures(A::narrow, (ar, x), r),
{
    let x = choose|x: Number|
        evaluates(ar, a, x) && #[trigger] narrow_gives(ar, x, Number::Single(r));
    x->Double_0
}

/// A single brought to double precision is its own exact value.
pub proof fn lemma_tracks_widened<A: Arithmetic>(ar: &A, g: Functions, x: Single, most: real)
    requires
        sound_single(ar),
        x.finite(),
        size_of_real(single_value(x)) <= most,
    ensures
        tracks(ar, g, widen(single(x)), most, 0real),
        exact(g, widen(single(x))) == single_value(x),
{
    reveal_with_fuel(exact, 2);
    assert forall|r: Double| #[trigger] is_double(ar, widen(single(x)), r) implies r.finite()
        && double_value(r) == single_value(x) by {
        let y = choose|y: Number|
            evaluates(ar, single(x), y) && #[trigger] widen_gives(ar, y, Number::Double(r));
        assert(y == Number::Single(x));
    }
}

/// The number that was brought to a whole one.
pub proof fn lemma_floor<A: Arithmetic>(ar: &A, f: Formula, n: i64) -> (x: Double)
    requires
        sound(ar),
        rounds_to(ar, Rounding::Down, f, n),
    ensures
        is_double(ar, f, x),
        floor_sound(x, n),
{
    choose|x: Double|
        evaluates(ar, f, Number::Double(x)) && #[trigger] call_ensures(
            A::rounded,
            (ar, Rounding::Down, x),
            n,
        )
}

// ── Formulas with one value, and formulas of limited size ────────────────

/// Every result of the formula stands for `v`.
pub open spec fn pinned<A: Arithmetic>(ar: &A, f: Formula, v: real) -> bool {
    forall|x: Double| #[trigger] is_double(ar, f, x) ==> x.finite() && double_value(x) == v
}

/// Every result of the formula is a number of a size up to `most`.
pub open spec fn bounded<A: Arithmetic>(ar: &A, f: Formula, most: real) -> bool {
    forall|x: Double| #[trigger]
        is_double(ar, f, x) ==> x.finite() && size_of_real(double_value(x)) <= most
}

/// `z` stands for `v`.
pub open spec fn stands_for(z: Double, v: real) -> bool {
    z.finite() && double_value(z) == v && size_of_real(v) <= huge()
}

/// A sum that a double can hold is this double.
pub proof fn lemma_pinned_plus<A: Arithmetic>(
    ar: &A,
    a: Formula,
    b: Formula,
    x: real,
    y: real,
    z: Double,
)
    requires
        sound(ar),
        pinned(ar, a, x),
        pinned(ar, b, y),
        stands_for(z, x + y),
    ensures
        pinned(ar, plus(a, b), x + y),
{
    assert forall|r: Double| #[trigger] is_double(ar, plus(a, b), r) implies r.finite()
        && double_value(r) == x + y by {
        let (p, q) = lemma_binary(ar, Binary::Plus, a, b, r);
    }
}

/// A difference that a double can hold is this double.
pub proof fn lemma_pinned_minus<A: Arithmetic>(
    ar: &A,
    a: Formula,
    b: Formula,
    x: real,
    y: real,
    z: Double,
)
    requires
        sound(ar),
        pinned(ar, a, x),
        pinned(ar, b, y),
        stands_for(z, x - y),
    ensures
        pinned(ar, minus(a, b), x - y),
{
    assert forall|r: Double| #[trigger] is_double(ar, minus(a, b), r) implies r.finite()
        && double_value(r) == x - y by {
        let (p, q) = lemma_binary(ar, Binary::Minus, a, b, r);
    }
}

/// A product that a double can hold is this double.
pub proof fn lemma_pinned_times<A: Arithmetic>(
    ar: &A,
    a: Formula,
    b: Formula,
    x: real,
    y: real,
    z: Double,
)
    requires
        sound(ar),
        pinned(ar, a, x),
        pinned(ar, b, y),
        stands_for(z, x * y),
    ensures
        pinned(ar, times(a, b), x * y),
{
    assert forall|r: Double| #[trigger] is_double(ar, times(a, b), r) implies r.finite()
        && double_value(r) == x * y by {
        let (p, q) = lemma_binary(ar, Binary::Times, a, b, r);
    }
}

/// Nothing times a number is nothing.
pub proof fn lemma_pinned_nothing<A: Arithmetic>(ar: &A, a: Formula, b: Formula, most: real)
    requires
        sound(ar),
        pinned(ar, a, 0real),
        bounded(ar, b, most),
    ensures
        pinned(ar, times(a, b), 0real),
{
    lemma_zero_values();
    lemma_huge();
    let none = Double { bits: 0 };
    assert(none.finite());
    assert forall|r: Double| #[trigger] is_double(ar, times(a, b), r) implies r.finite()
        && double_value(r) == 0real by {
        let (p, q) = lemma_binary(ar, Binary::Times, a, b, r);
        lemma_nothing_times(double_value(q));
    }
}

proof fn lemma_nothing_times(x: real)
    by (nonlinear_arith)
    ensures
        0real * x == 0real,
        1real * x == x,
{
}

/// The size of a sum.
pub proof fn lemma_bounded_plus<A: Arithmetic>(ar: &A, a: Formula, b: Formula, x: real, y: real)
    requires
        sound(ar),
        bounded(ar, a, x),
        bounded(ar, b, y),
        0real <= x,
        0real <= y,
        x + y <= huge(),
    ensures
        bounded(ar, plus(a, b), 2real * (x + y) + 1real),
{
    assert forall|r: Double| #[trigger] is_double(ar, plus(a, b), r) implies r.finite()
        && size_of_real(double_value(r)) <= 2real * (x + y) + 1real by {
        let (p, q) = lemma_binary(ar, Binary::Plus, a, b, r);
    }
}

/// The size of a difference.
pub proof fn lemma_bounded_minus<A: Arithmetic>(ar: &A, a: Formula, b: Formula, x: real, y: real)
    requires
        sound(ar),
        bounded(ar, a, x),
        bounded(ar, b, y),
        0real <= x,
        0real <= y,
        x + y <= huge(),
    ensures
        bounded(ar, minus(a, b), 2real * (x + y) + 1real),
{
    assert forall|r: Double| #[trigger] is_double(ar, minus(a, b), r) implies r.finite()
        && size_of_real(double_value(r)) <= 2real * (x + y) + 1real by {
        let (p, q) = lemma_binary(ar, Binary::Minus, a, b, r);
    }
}

/// The size of a product with 0 or 1.
pub proof fn lemma_bounded_switch<A: Arithmetic>(ar: &A, a: Formula, b: Formula, t: real, x: real)
    requires
        sound(ar),
        pinned(ar, a, t),
        t == 0real || t == 1real,
        bounded(ar, b, x),
        0real <= x <= huge(),
    ensures
        bounded(ar, times(a, b), 2real * x + 1real),
{
    assert forall|r: Double| #[trigger] is_double(ar, times(a, b), r) implies r.finite()
        && size_of_real(double_value(r)) <= 2real * x + 1real by {
        let (p, q) = lemma_binary(ar, Binary::Times, a, b, r);
        lemma_nothing_times(double_value(q));
    }
}

// ── Formulas next to their exact values ──────────────────────────────────

/// The exact value of the formula is of a size up to `most`, and every result
/// is a number within `e` of it.
pub open spec fn tracks<A: Arithmetic>(ar: &A, g: Functions, f: Formula, most: real, e: real) -> bool {
    &&& size_of_real(exact(g, f)) <= most
    &&& forall|x: Double| #[trigger]
        is_double(ar, f, x) ==> x.finite() && size_of_real(double_value(x) - exact(g, f)) <= e
}

pub proof fn lemma_tracks_plus<A: Arithmetic>(
    ar: &A,
    g: Functions,
    a: Formula,
    b: Formula,
    sizes: (real, real),
    errors: (real, real),
    e: real,
)
    requires
        sound(ar),
        tracks(ar, g, a, sizes.0, errors.0),
        tracks(ar, g, b, sizes.1, errors.1),
        sizes.0 + sizes.1 + errors.0 + errors.1 <= 1000000real,
        errors.0 + errors.1 + 1real / 1000000000000000000000000000000real + (sizes.0 + sizes.1
            + errors.0 + errors.1) / 1000000000000000real <= e,
    ensures
        tracks(ar, g, plus(a, b), sizes.0 + sizes.1, e),
{
    lemma_huge();
    assert(exact(g, plus(a, b)) == exact(g, a) + exact(g, b));
    assert forall|r: Double| #[trigger] is_double(ar, plus(a, b), r) implies r.finite()
        && size_of_real(double_value(r) - exact(g, plus(a, b))) <= e by {
        let (p, q) = lemma_binary(ar, Binary::Plus, a, b, r);
    }
}

proof fn lemma_product_error(x: real, y: real, a: real, b: real, m: (real, real), e: (real, real))
    by (nonlinear_arith)
    requires
        -m.0 <= a <= m.0,
        -m.1 <= b <= m.1,
        -e.0 <= x - a <= e.0,
        -e.1 <= y - b <= e.1,
    ensures
        -(m.0 * m.1) <= a * b <= m.0 * m.1,
        -(m.0 * e.1 + m.1 * e.0 + e.0 * e.1) <= x * y - a * b <= m.0 * e.1 + m.1 * e.0 + e.0 * e.1,
{
    assert(x * y - a * b == (x - a) * (y - b) + a * (y - b) + (x - a) * b);
    lemma_sized_product(a, b, m.0, m.1);
    lemma_sized_product(x - a, y - b, e.0, e.1);
    lemma_sized_product(a, y - b, m.0, e.1);
    lemma_sized_product(x - a, b, e.0, m.1);
}

proof fn lemma_sized_product(a: real, b: real, m: real, n: real)
    by (nonlinear_arith)
    requires
        -m <= a <= m,
        -n <= b <= n,
    ensures
        -(m * n) <= a * b <= m * n,
{
}

pub proof fn lemma_tracks_times<A: Arithmetic>(
    ar: &A,
    g: Functions,
    a: Formula,
    b: Formula,
    sizes: (real, real),
    errors: (real, real),
    e: real,
)
    requires
        sound(ar),
        tracks(ar, g, a, sizes.0, errors.0),
        tracks(ar, g, b, sizes.1, errors.1),
        ({
            let off = sizes.0 * errors.1 + sizes.1 * errors.0 + errors.0 * errors.1;
            &&& sizes.0 * sizes.1 + off <= 1000000real
            &&& off + 1real / 1000000000000000000000000000000real + (sizes.0 * sizes.1 + off)
                / 1000000000000000real <= e
        }),
    ensures
        tracks(ar, g, times(a, b), sizes.0 * sizes.1, e),
{
    lemma_huge();
    let (u, v) = (exact(g, a), exact(g, b));
    assert(exact(g, times(a, b)) == u * v);
    lemma_product_error(u, v, u, v, sizes, (0real, 0real));
    assert forall|r: Double| #[trigger] is_double(ar, times(a, b), r) implies r.finite()
        && size_of_real(double_value(r) - exact(g, times(a, b))) <= e by {
        let (p, q) = lemma_binary(ar, Binary::Times, a, b, r);
        lemma_product_error(double_value(p), double_value(q), u, v, sizes, errors);
    }
}

proof fn lemma_quotient_error(x: real, y: real, a: real, b: real, m: real, e: (real, real))
    by (nonlinear_arith)
    requires
        -m <= a <= m,
        1real / 10real <= b,
        1real / 20real <= y,
        -e.0 <= x - a <= e.0,
        -e.1 <= y - b <= e.1,
    ensures
        -(10real * m) <= a / b <= 10real * m,
        -(20real * e.0 + 200real * (m * e.1)) <= x / y - a / b <= 20real * e.0 + 200real * (m
            * e.1),
{
    let q = a / b;
    let r = x / y;
    assert(q * b == a);
    assert(r * y == x);
    assert(-(10real * m) <= q <= 10real * m);
    assert((r - q) * y == (x - a) - q * (y - b));
    lemma_sized_product(q, y - b, 10real * m, e.1);
    let off = e.0 + 10real * m * e.1;
    assert(-off <= (r - q) * y <= off);
    assert(-(20real * off) <= r - q <= 20real * off);
    assert(20real * off == 20real * e.0 + 200real * (m * e.1));
}

/// A quotient, by a number of at least 0.1.
pub proof fn lemma_tracks_over<A: Arithmetic>(
    ar: &A,
    g: Functions,
    a: Formula,
    b: Formula,
    sizes: (real, real),
    errors: (real, real),
    e: real,
)
    requires
        sound(ar),
        tracks(ar, g, a, sizes.0, errors.0),
        tracks(ar, g, b, sizes.1, errors.1),
        exact(g, b) >= 1real / 10real,
        errors.1 <= 1real / 20real,
        ({
            let off = 20real * errors.0 + 200real * (sizes.0 * errors.1);
            &&& 10real * sizes.0 + off <= 1000000real
            &&& off + 1real / 1000000000000000000000000000000real + (10real * sizes.0 + off)
                / 1000000000000000real <= e
        }),
    ensures
        tracks(ar, g, over(a, b), 10real * sizes.0, e),
{
    lemma_huge();
    let (u, v) = (exact(g, a), exact(g, b));
    assert(exact(g, over(a, b)) == u / v);
    lemma_quotient_error(u, v, u, v, sizes.0, (0real, 0real));
    assert forall|r: Double| #[trigger] is_double(ar, over(a, b), r) implies r.finite()
        && size_of_real(double_value(r) - exact(g, over(a, b))) <= e by {
        let (p, q) = lemma_binary(ar, Binary::Over, a, b, r);
        lemma_quotient_error(double_value(p), double_value(q), u, v, sizes.0, errors);
    }
}

/// A number is its own exact value.
pub proof fn lemma_tracks_leaf<A: Arithmetic>(ar: &A, g: Functions, x: Double, most: real)
    requires
        x.finite(),
        size_of_real(double_value(x)) <= most,
    ensures
        tracks(ar, g, double(x), most, 0real),
{
}

/// 1e300 is beyond 1e40.
pub proof fn lemma_huge()
    ensures
        huge() >= 10000000000000000000000000000000000000000real,
{
    lemma_ten_grows(260);
    lemma_ten_more(260);
    lemma_ten_more(270);
    lemma_ten_more(280);
    lemma_ten_more(290);
}

proof fn lemma_ten_grows(k: nat)
    ensures
        whole_power_of(10real, k) >= 1real,
    decreases k,
{
    if k > 0 {
        lemma_ten_grows((k - 1) as nat);
    }
}

/// Ten more factors.
proof fn lemma_ten_more(k: nat)
    ensures
        whole_power_of(10real, k + 10) == 10000000000real * whole_power_of(10real, k),
{
    reveal_with_fuel(whole_power_of, 11);
}

// ── The order of encodings and of numbers ────────────────────────────────

/// The number of a magnitude in units of the least one.
pub open spec fn units(magnitude: int) -> int {
    let e = magnitude / 0x10_0000_0000_0000;
    let m = magnitude % 0x10_0000_0000_0000;
    if e == 0 {
        m
    } else {
        (m + 0x10_0000_0000_0000) * pow2((e - 1) as nat)
    }
}

proof fn lemma_units_grow(a: int, b: int)
    requires
        0 <= a < b,
    ensures
        0 <= units(a) < units(b),
{
    let ea = a / 0x10_0000_0000_0000;
    let ma = a % 0x10_0000_0000_0000;
    let eb = b / 0x10_0000_0000_0000;
    let mb = b % 0x10_0000_0000_0000;
    if ea > 0 {
        lemma_pow2_pos((ea - 1) as nat);
        let p = pow2((ea - 1) as nat) as int;
        assert(0 < (ma + 0x10_0000_0000_0000) * p < 0x20_0000_0000_0000 * p) by (nonlinear_arith)
            requires
                0 <= ma < 0x10_0000_0000_0000,
                p > 0,
        ;
        if ea == eb {
            assert((ma + 0x10_0000_0000_0000) * p < (mb + 0x10_0000_0000_0000) * p)
                by (nonlinear_arith)
                requires
                    ma < mb,
                    p > 0,
            ;
        }
    }
    if ea < eb {
        lemma_pow2_pos((eb - 1) as nat);
        let q = pow2((eb - 1) as nat) as int;
        assert(0x10_0000_0000_0000 * q <= (mb + 0x10_0000_0000_0000) * q) by (nonlinear_arith)
            requires
                0 <= mb,
                q > 0,
        ;
        if ea > 0 {
            lemma_pow2_adds(1, (ea - 1) as nat);
            lemma2_to64();
            if ea < eb - 1 {
                lemma_pow2_strictly_increases(ea as nat, (eb - 1) as nat);
            }
            assert(2 * pow2((ea - 1) as nat) <= q);
        }
    }
}

proof fn lemma_in_units(magnitude: int)
    requires
        0 <= magnitude < 0x7ff0_0000_0000_0000,
    ensures
        ({
            let e = magnitude / 0x10_0000_0000_0000;
            let m = magnitude % 0x10_0000_0000_0000;
            (if e == 0 {
                scaled(m, -1074)
            } else {
                scaled(m + 0x10_0000_0000_0000, e - 1075)
            }) == units(magnitude) as real / pow2(1074) as real
        }),
{
    let e = magnitude / 0x10_0000_0000_0000;
    let m = magnitude % 0x10_0000_0000_0000;
    lemma_pow2_pos(1074);
    if e > 0 {
        let w = m + 0x10_0000_0000_0000;
        let up = pow2((e - 1) as nat) as int;
        lemma_pow2_pos((e - 1) as nat);
        if e >= 1075 {
            let k = pow2((e - 1075) as nat) as int;
            lemma_pow2_adds((e - 1075) as nat, 1074);
            lemma_raised(w, k, pow2(1074) as int);
            assert(w * up == w * (k * pow2(1074)));
        } else {
            let d = pow2((1075 - e) as nat) as int;
            lemma_pow2_pos((1075 - e) as nat);
            lemma_pow2_adds((1075 - e) as nat, (e - 1) as nat);
            lemma_expanded(w, d, up);
        }
    }
}

proof fn lemma_raised(w: int, k: int, d: int)
    by (nonlinear_arith)
    requires
        d > 0,
    ensures
        (w * k) as real == (w * (k * d)) as real / d as real,
{
}

proof fn lemma_expanded(w: int, d: int, up: int)
    by (nonlinear_arith)
    requires
        d > 0,
        up > 0,
    ensures
        w as real / d as real == (w * up) as real / (d * up) as real,
{
}

proof fn lemma_ratio_order(a: int, b: int, d: int)
    by (nonlinear_arith)
    requires
        d > 0,
    ensures
        a < b ==> (a as real) / (d as real) < (b as real) / (d as real),
        a >= 0 ==> (a as real) / (d as real) >= 0real,
        a > 0 ==> (a as real) / (d as real) > 0real,
        a == 0 ==> (a as real) / (d as real) == 0real,
{
}

proof fn lemma_magnitude_order(x: Double, y: Double)
    requires
        x.finite(),
        y.finite(),
    ensures
        x.magnitude() < y.magnitude() ==> size_of_real(double_value(x)) < size_of_real(
            double_value(y),
        ),
        x.magnitude() > 0 ==> size_of_real(double_value(x)) > 0real,
        x.magnitude() == 0 ==> double_value(x) == 0real,
        x.bits >= DOUBLE_SIGN ==> double_value(x) <= 0real,
        x.bits < DOUBLE_SIGN ==> double_value(x) >= 0real,
{
    let (a, b) = (x.magnitude(), y.magnitude());
    lemma_in_units(a);
    lemma_in_units(b);
    lemma_pow2_pos(1074);
    if a > 0 {
        lemma_units_grow(0, a);
    }
    if a < b {
        lemma_units_grow(a, b);
    }
    if b > 0 {
        lemma_units_grow(0, b);
    }
    lemma_ratio_order(units(a), units(b), pow2(1074) as int);
    lemma_ratio_order(units(b), units(b), pow2(1074) as int);
}

/// Encodings of finite numbers are ordered as the numbers are.
pub proof fn lemma_order(x: Double, y: Double)
    requires
        x.finite(),
        y.finite(),
    ensures
        x.rank() < y.rank() <==> double_value(x) < double_value(y),
        x.rank() <= y.rank() <==> double_value(x) <= double_value(y),
        x.rank() == 0 <==> double_value(x) == 0real,
{
    lemma_magnitude_order(x, y);
    lemma_magnitude_order(y, x);
    if x.magnitude() == y.magnitude() {
        assert(x.bits < DOUBLE_SIGN && y.bits < DOUBLE_SIGN ==> x.bits == y.bits);
        assert(x.bits >= DOUBLE_SIGN && y.bits >= DOUBLE_SIGN ==> x.bits == y.bits);
    }
}

/// The size of a single, in parts of a power of two.
proof fn lemma_short_in_units(magnitude: int)
    requires
        0 <= magnitude < 0x7f80_0000,
    ensures
        ({
            let e = magnitude / 0x80_0000;
            let m = magnitude % 0x80_0000;
            (if e == 0 {
                scaled(m, -149)
            } else {
                scaled(m + 0x80_0000, e - 150)
            }) == units(magnitude * 0x2000_0000) as real / pow2(178) as real
        }),
{
    let e = magnitude / 0x80_0000;
    let m = magnitude % 0x80_0000;
    let wide = magnitude * 0x2000_0000;
    assert(wide / 0x10_0000_0000_0000 == e);
    assert(wide % 0x10_0000_0000_0000 == m * 0x2000_0000);
    lemma2_to64();
    lemma_pow2_pos(178);
    lemma_pow2_pos(149);
    lemma_pow2_adds(149, 29);
    if e == 0 {
        lemma_expanded(m, pow2(149) as int, 0x2000_0000);
    } else {
        let w = m + 0x80_0000;
        let up = pow2((e - 1) as nat) as int;
        lemma_pow2_pos((e - 1) as nat);
        lemma_pow2_adds(29, (e - 1) as nat);
        let raised = pow2((29 + e - 1) as nat) as int;
        lemma_pow2_pos((29 + e - 1) as nat);
        lemma_regrouped(w, 0x2000_0000, up);
        assert(units(wide) == w * raised);
        if e >= 150 {
            let k = pow2((e - 150) as nat) as int;
            lemma_pow2_adds((e - 150) as nat, 178);
            lemma_raised(w, k, pow2(178) as int);
            assert(raised == k * pow2(178));
        } else {
            let d = pow2((150 - e) as nat) as int;
            lemma_pow2_pos((150 - e) as nat);
            lemma_pow2_adds((150 - e) as nat, (29 + e - 1) as nat);
            lemma_expanded(w, d, raised);
        }
    }
}

proof fn lemma_regrouped(w: int, k: int, up: int)
    by (nonlinear_arith)
    ensures
        (w * k) * up == w * (k * up),
{
}

proof fn lemma_short_magnitude_order(x: Single, y: Single)
    requires
        x.finite(),
        y.finite(),
    ensures
        x.magnitude() < y.magnitude() ==> size_of_real(single_value(x)) < size_of_real(
            single_value(y),
        ),
        x.magnitude() > 0 ==> size_of_real(single_value(x)) > 0real,
        x.magnitude() == 0 ==> single_value(x) == 0real,
        x.bits >= SINGLE_SIGN ==> single_value(x) <= 0real,
        x.bits < SINGLE_SIGN ==> single_value(x) >= 0real,
{
    let (a, b) = (x.magnitude(), y.magnitude());
    lemma_short_in_units(a);
    lemma_short_in_units(b);
    lemma_pow2_pos(178);
    let (p, q) = (a * 0x2000_0000, b * 0x2000_0000);
    if a > 0 {
        lemma_units_grow(0, p);
    }
    if a < b {
        lemma_units_grow(p, q);
    }
    if b > 0 {
        lemma_units_grow(0, q);
    }
    lemma_ratio_order(units(p), units(q), pow2(178) as int);
    lemma_ratio_order(units(q), units(q), pow2(178) as int);
}

/// Encodings of finite singles are ordered as the numbers are.
pub proof fn lemma_short_order(x: Single, y: Single)
    requires
        x.finite(),
        y.finite(),
    ensures
        x.rank() <= y.rank() <==> single_value(x) <= single_value(y),
{
    lemma_short_magnitude_order(x, y);
    lemma_short_magnitude_order(y, x);
    if x.magnitude() == y.magnitude() {
        assert(x.bits < SINGLE_SIGN && y.bits < SINGLE_SIGN ==> x.bits == y.bits);
        assert(x.bits >= SINGLE_SIGN && y.bits >= SINGLE_SIGN ==> x.bits == y.bits);
    }
}

} // verus!
