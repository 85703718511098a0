//! What formulas stand for apart from rounding.

use vstd::arithmetic::power2::{lemma2_to64, lemma2_to64_rest, lemma_pow2_pos, pow2};
use vstd::prelude::*;

use crate::arith::{sum_from, Binary, Formula, Number, Unary};
use crate::bits::{Double, Single, DOUBLE_SIGN, SINGLE_SIGN};
use crate::gamma::number_finite;

verus! {

/// `m` times the power of two with exponent `e`.
pub open spec fn scaled(m: int, e: int) -> real {
    if e >= 0 {
        (m * pow2(e as nat)) as real
    } else {
        m as real / pow2((-e) as nat) as real
    }
}

/// The number that a finite encoding in double precision stands for.
pub open spec fn double_value(x: Double) -> real {
    let e = x.magnitude() / 0x10_0000_0000_0000;
    let m = x.magnitude() % 0x10_0000_0000_0000;
    let size = if e == 0 {
        scaled(m, -1074)
    } else {
        scaled(m + 0x10_0000_0000_0000, e - 1075)
    };
    if x.bits >= DOUBLE_SIGN {
        -size
    } else {
        size
    }
}

/// The number that a finite encoding in single precision stands for.
pub open spec fn single_value(x: Single) -> real {
    let e = x.magnitude() / 0x80_0000;
    let m = x.magnitude() % 0x80_0000;
    let size = if e == 0 {
        scaled(m, -149)
    } else {
        scaled(m + 0x80_0000, e - 150)
    };
    if x.bits >= SINGLE_SIGN {
        -size
    } else {
        size
    }
}

pub open spec fn number_value(n: Number) -> real {
    match n {
        Number::Double(x) => double_value(x),
        Number::Single(x) => single_value(x),
    }
}

/// Functions of real numbers that a formula may hold beside the four rules:
/// roots, logarithms and the like, and powers.
pub ghost struct Functions {
    pub unary: spec_fn(Unary, real) -> real,
    pub power: spec_fn(real, real) -> real,
}

/// A number without its sign.
pub open spec fn size_of_real(x: real) -> real {
    if x < 0real {
        -x
    } else {
        x
    }
}

pub open spec fn squared(x: real) -> real {
    x * x
}

/// The square root undoes a square.
pub open spec fn has_roots(g: Functions) -> bool {
    forall|v: real| 0real <= v ==> (g.unary)(Unary::SquareRoot, #[trigger] squared(v)) == v
}

/// A whole power.
pub open spec fn whole_power_of(x: real, n: nat) -> real
    decreases n,
{
    if n == 0 {
        1real
    } else {
        x * whole_power_of(x, (n - 1) as nat)
    }
}

/// The value of a formula without rounding.
pub open spec fn exact(g: Functions, f: Formula) -> real
    decreases f,
{
    match f {
        Formula::Number(n) => number_value(n),
        Formula::Whole(n) => n as real,
        Formula::Unary(op, a) => {
            let x = exact(g, *a);
            match op {
                Unary::Negate => -x,
                Unary::Absolute => if x < 0real {
                    -x
                } else {
                    x
                },
                Unary::WholePower(n) => whole_power_of(x, n as nat),
                _ => (g.unary)(op, x),
            }
        },
        Formula::Binary(op, a, b) => {
            let x = exact(g, *a);
            let y = exact(g, *b);
            match op {
                Binary::Plus => x + y,
                Binary::Minus => x - y,
                Binary::Times => x * y,
                Binary::Over => x / y,
                Binary::Power => (g.power)(x, y),
                Binary::Max => if x < y {
                    y
                } else {
                    x
                },
                Binary::Min => if y < x {
                    y
                } else {
                    x
                },
            }
        },
        Formula::Narrow(a) => exact(g, *a),
        Formula::Widen(a) => exact(g, *a),
        Formula::NanToZero(a) => exact(g, *a),
    }
}

/// Every number that a formula holds is finite.
pub open spec fn finite_leaves(f: Formula) -> bool
    decreases f,
{
    match f {
        Formula::Number(n) => number_finite(n),
        Formula::Whole(_) => true,
        Formula::Unary(_, a) => finite_leaves(*a),
        Formula::Binary(_, a, b) => finite_leaves(*a) && finite_leaves(*b),
        Formula::Narrow(a) => finite_leaves(*a),
        Formula::Widen(a) => finite_leaves(*a),
        Formula::NanToZero(a) => finite_leaves(*a),
    }
}

proof fn lemma_ratio(m: int, d: int, v: int)
    by (nonlinear_arith)
    requires
        d > 0,
        m == v * d,
    ensures
        m as real / d as real == v as real,
{
}

/// The encodings of 0 stand for it.
pub proof fn lemma_zero_values()
    ensures
        double_value(Double { bits: 0 }) == 0real,
        single_value(Single { bits: 0 }) == 0real,
{
    lemma_pow2_pos(1074);
    lemma_pow2_pos(149);
    lemma_ratio(0, pow2(1074) as int, 0);
    lemma_ratio(0, pow2(149) as int, 0);
}

/// The encodings of 1 stand for it.
pub proof fn lemma_one_values()
    ensures
        double_value(Double { bits: 0x3ff0_0000_0000_0000 }) == 1real,
        single_value(Single { bits: 0x3f80_0000 }) == 1real,
{
    lemma2_to64();
    lemma2_to64_rest();
    lemma_ratio(0x10_0000_0000_0000, pow2(52) as int, 1);
    lemma_ratio(0x80_0000, pow2(23) as int, 1);
}

/// Without rounding, a factor of every term is a factor of the sum.
pub proof fn lemma_sum_scaled(
    g: Functions,
    start: Formula,
    f: spec_fn(int) -> Formula,
    h: spec_fn(int) -> Formula,
    k: real,
    n: int,
)
    requires
        exact(g, start) == 0real,
        forall|i: int| 0 <= i < n ==> exact(g, #[trigger] f(i)) == k * exact(g, h(i)),
    ensures
        exact(g, sum_from(start, f, n)) == k * exact(g, sum_from(start, h, n)),
    decreases n,
{
    if n <= 0 {
        lemma_factor_out(k, 0real, 0real);
    } else {
        lemma_sum_scaled(g, start, f, h, k, n - 1);
        assert(exact(g, f(n - 1)) == k * exact(g, h(n - 1)));
        lemma_factor_out(k, exact(g, sum_from(start, h, n - 1)), exact(g, h(n - 1)));
    }
}

pub proof fn lemma_factor_out(k: real, a: real, b: real)
    by (nonlinear_arith)
    ensures
        k * a + k * b == k * (a + b),
        k * 0real == 0real,
{
}

/// The encodings of 0, 1, 2, 3 and -2 stand for them.
pub proof fn lemma_small_numbers()
    ensures
        double_value(Double { bits: 0 }) == 0real,
        double_value(Double { bits: 0x3ff0_0000_0000_0000 }) == 1real,
        double_value(Double { bits: 0x4000_0000_0000_0000 }) == 2real,
        double_value(Double { bits: 0x4008_0000_0000_0000 }) == 3real,
        double_value(Double { bits: 0xc000_0000_0000_0000 }) == -2real,
{
    lemma2_to64_rest();
    lemma_pow2_pos(1074);
    lemma_ratio(0, pow2(1074) as int, 0);
    lemma_ratio(0x10_0000_0000_0000, pow2(52) as int, 1);
    lemma_ratio(0x10_0000_0000_0000, pow2(51) as int, 2);
    lemma_ratio(0x18_0000_0000_0000, pow2(51) as int, 3);
}

} // verus!
