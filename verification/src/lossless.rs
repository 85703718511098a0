//! Arithmetic that does not round, and what follows of the numbers that it
//! gives.

use vstd::prelude::*;

use crate::arith::{binary_gives, evaluates, is_double, is_single, nan_to_zero, narrow_gives};
use crate::arith::{sum_from, unary_gives, widen_gives, Arithmetic, Binary, Formula, Number, Unary};
use crate::bits::{Double, Single};
use crate::exact::{double_value, exact, finite_leaves, number_value, single_value, Functions};
use crate::exact::whole_power_of;
use crate::gamma::number_finite;

verus! {

/// An operation on two real numbers.
pub open spec fn combined(g: Functions, op: Binary, x: real, y: real) -> real {
    match op {
        Binary::Plus => x + y,
        Binary::Minus => x - y,
        Binary::Times => x * y,
        Binary::Over => x / y,
        Binary::Power => (g.power)(x, y),
        Binary::Max => if x < y {
            y
        } else {
            x
        },
        Binary::Min => if y < x {
            y
        } else {
            x
        },
    }
}

/// An operation on one real number.
pub open spec fn applied(g: Functions, op: Unary, x: real) -> real {
    match op {
        Unary::Negate => -x,
        Unary::Absolute => if x < 0real {
            -x
        } else {
            x
        },
        Unary::WholePower(n) => whole_power_of(x, n as nat),
        _ => (g.unary)(op, x),
    }
}

/// `r` is finite, and stands for `v`.
pub open spec fn stands(r: Number, v: real) -> bool {
    number_finite(r) && number_value(r) == v
}

/// `ar` does not round: on finite numbers it gives the number that the
/// operation on real numbers gives, or none at all, as an arithmetic does that
/// stops where it would have to round.
pub open spec fn lossless<A: Arithmetic>(ar: &A, g: Functions) -> bool {
    &&& forall|op: Binary, a: Number, b: Number, r: Number| #[trigger]
        binary_gives(ar, op, a, b, r) && number_finite(a) && number_finite(b) ==> stands(
            r,
            combined(g, op, number_value(a), number_value(b)),
        )
    &&& forall|op: Unary, a: Number, r: Number| #[trigger]
        unary_gives(ar, op, a, r) && number_finite(a) ==> stands(
            r,
            applied(g, op, number_value(a)),
        )
    &&& forall|a: Number, r: Number| #[trigger]
        narrow_gives(ar, a, r) && number_finite(a) ==> stands(r, number_value(a))
    &&& forall|a: Number, r: Number| #[trigger]
        widen_gives(ar, a, r) && number_finite(a) ==> stands(r, number_value(a))
    &&& forall|n: u64, r: Double| #[trigger]
        call_ensures(A::whole, (ar, n), r) ==> r.finite() && double_value(r) == n as real
}

/// Without rounding, a number for a formula is its exact value.
pub proof fn lemma_lossless<A: Arithmetic>(ar: &A, g: Functions, f: Formula, r: Number)
    requires
        lossless(ar, g),
        finite_leaves(f),
        evaluates(ar, f, r),
    ensures
        stands(r, exact(g, f)),
    decreases f,
{
    match f {
        Formula::Number(_) => {},
        Formula::Whole(_) => {},
        Formula::Unary(op, a) => {
            let x = choose|x: Number|
                evaluates(ar, *a, x) && #[trigger] unary_gives(ar, op, x, r);
            lemma_lossless(ar, g, *a, x);
        },
        Formula::Binary(op, a, b) => {
            let (x, y) = choose|x: Number, y: Number|
                evaluates(ar, *a, x) && evaluates(ar, *b, y) && #[trigger] binary_gives(
                    ar,
                    op,
                    x,
                    y,
                    r,
                );
            lemma_lossless(ar, g, *a, x);
            lemma_lossless(ar, g, *b, y);
        },
        Formula::Narrow(a) => {
            let x = choose|x: Number| evaluates(ar, *a, x) && #[trigger] narrow_gives(ar, x, r);
            lemma_lossless(ar, g, *a, x);
        },
        Formula::Widen(a) => {
            let x = choose|x: Number| evaluates(ar, *a, x) && #[trigger] widen_gives(ar, x, r);
            lemma_lossless(ar, g, *a, x);
        },
        Formula::NanToZero(a) => {
            let x = choose|x: Number| evaluates(ar, *a, x) && r == #[trigger] nan_to_zero(x);
            lemma_lossless(ar, g, *a, x);
        },
    }
}

/// The same of a double.
pub proof fn lemma_lossless_double<A: Arithmetic>(ar: &A, g: Functions, f: Formula, r: Double)
    requires
        lossless(ar, g),
        finite_leaves(f),
        is_double(ar, f, r),
    ensures
        r.finite(),
        double_value(r) == exact(g, f),
{
    lemma_lossless(ar, g, f, Number::Double(r));
}

/// The same of a single.
pub proof fn lemma_lossless_single<A: Arithmetic>(ar: &A, g: Functions, f: Formula, r: Single)
    requires
        lossless(ar, g),
        finite_leaves(f),
        is_single(ar, f, r),
    ensures
        r.finite(),
        single_value(r) == exact(g, f),
{
    lemma_lossless(ar, g, f, Number::Single(r));
}

/// A sum of formulas with finite numbers.
pub proof fn lemma_sum_leaves(start: Formula, terms: spec_fn(int) -> Formula, n: int)
    requires
        finite_leaves(start),
        forall|i: int| 0 <= i < n ==> finite_leaves(#[trigger] terms(i)),
    ensures
        finite_leaves(sum_from(start, terms, n)),
    decreases n,
{
    if n > 0 {
        lemma_sum_leaves(start, terms, n - 1);
        assert(finite_leaves(terms(n - 1)));
    }
}

} // verus!
