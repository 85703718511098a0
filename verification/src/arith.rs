//! Arithmetic on encoded numbers.
//!
//! The library orders and routes numbers by their encodings and leaves the
//! operations that round to an implementation of [`Arithmetic`]. What it
//! states of a computed number is the [`Formula`] that it is the value of:
//! which operations were made, on which numbers and in which order.

use vstd::prelude::*;

use crate::bits::{Double, Single};
use crate::exact::{exact, finite_leaves, lemma_one_values, lemma_zero_values, number_value};
use crate::exact::Functions;
use crate::gamma::number_finite;
use crate::rounding::{lemma_order, lemma_short_order};

verus! {

/// A number of either precision.
pub enum Number {
    Single(Single),
    Double(Double),
}

/// Operations on two numbers of one precision.
#[derive(Clone, Copy, PartialEq, Eq, Structural)]
pub enum Binary {
    Plus,
    Minus,
    Times,
    Over,
    /// The first number to the power of the second.
    Power,
    /// The larger of the two; the other one where one is a NaN.
    Max,
    /// The smaller of the two; the other one where one is a NaN.
    Min,
}

/// Operations on one number that keep its precision.
#[derive(Clone, Copy, PartialEq, Eq, Structural)]
pub enum Unary {
    Negate,
    Log10,
    Log2,
    Ln,
    Exp,
    SquareRoot,
    CubeRoot,
    /// The error function.
    Erf,
    Absolute,
    Floor,
    /// `ln(1 + x)`.
    LnOnePlus,
    /// The logarithm of the gamma function.
    LogGamma,
    /// A whole power.
    WholePower(u32),
}

/// Ways to a whole number.
#[derive(Clone, Copy, PartialEq, Eq, Structural)]
pub enum Rounding {
    Down,
    Up,
    /// To the nearest, and halves away from zero.
    Nearest,
    /// To the nearest, and halves to the even one.
    NearestEven,
}

/// The operations that round. Each method computes the operation that it is
/// handed; nothing further is asked of an implementation.
pub trait Arithmetic {
    fn binary_double(&self, op: Binary, a: Double, b: Double) -> Double;

    fn binary_single(&self, op: Binary, a: Single, b: Single) -> Single;

    fn unary_double(&self, op: Unary, a: Double) -> Double;

    fn unary_single(&self, op: Unary, a: Single) -> Single;

    /// The nearest single.
    fn narrow(&self, a: Double) -> Single;

    /// The same number as a double.
    fn widen(&self, a: Single) -> Double;

    /// The number that an encoding in half precision stands for.
    fn widen_half(&self, bits: u16) -> Single;

    /// The nearest double to a whole number.
    fn whole(&self, n: u64) -> Double;

    /// The whole number that a double is brought to; the nearest one in range
    /// where it is out of range, and 0 for a NaN.
    fn rounded(&self, how: Rounding, x: Double) -> i64;
}

/// How a number comes about.
pub ghost enum Formula {
    Number(Number),
    Whole(u64),
    Unary(Unary, Box<Formula>),
    Binary(Binary, Box<Formula>, Box<Formula>),
    Narrow(Box<Formula>),
    Widen(Box<Formula>),
    /// Zero in place of a NaN.
    NanToZero(Box<Formula>),
}

/// `r` is what `ar` gives for the operation on `a` and `b`.
pub open spec fn binary_gives<A: Arithmetic>(
    ar: &A,
    op: Binary,
    a: Number,
    b: Number,
    r: Number,
) -> bool {
    match (a, b, r) {
        (Number::Double(x), Number::Double(y), Number::Double(z)) => call_ensures(
            A::binary_double,
            (ar, op, x, y),
            z,
        ),
        (Number::Single(x), Number::Single(y), Number::Single(z)) => call_ensures(
            A::binary_single,
            (ar, op, x, y),
            z,
        ),
        _ => false,
    }
}

/// `r` is what `ar` gives for the operation on `a`.
pub open spec fn unary_gives<A: Arithmetic>(ar: &A, op: Unary, a: Number, r: Number) -> bool {
    match (a, r) {
        (Number::Double(x), Number::Double(z)) => call_ensures(A::unary_double, (ar, op, x), z),
        (Number::Single(x), Number::Single(z)) => call_ensures(A::unary_single, (ar, op, x), z),
        _ => false,
    }
}

pub open spec fn narrow_gives<A: Arithmetic>(ar: &A, a: Number, r: Number) -> bool {
    match (a, r) {
        (Number::Double(x), Number::Single(z)) => call_ensures(A::narrow, (ar, x), z),
        _ => false,
    }
}

pub open spec fn widen_gives<A: Arithmetic>(ar: &A, a: Number, r: Number) -> bool {
    match (a, r) {
        (Number::Single(x), Number::Double(z)) => call_ensures(A::widen, (ar, x), z),
        _ => false,
    }
}

pub open spec fn nan_to_zero(a: Number) -> Number {
    match a {
        Number::Double(x) => if x.nan() {
            Number::Double(Double { bits: 0 })
        } else {
            a
        },
        Number::Single(x) => if x.nan() {
            Number::Single(Single { bits: 0 })
        } else {
            a
        },
    }
}

/// `r` is a value of the formula, with the operations of `ar`.
pub open spec fn evaluates<A: Arithmetic>(ar: &A, f: Formula, r: Number) -> bool
    decreases f,
{
    match f {
        Formula::Number(n) => r == n,
        Formula::Whole(n) => match r {
            Number::Double(z) => call_ensures(A::whole, (ar, n), z),
            _ => false,
        },
        Formula::Unary(op, a) => exists|x: Number|
            evaluates(ar, *a, x) && #[trigger] unary_gives(ar, op, x, r),
        Formula::Binary(op, a, b) => exists|x: Number, y: Number|
            evaluates(ar, *a, x) && evaluates(ar, *b, y) && #[trigger] binary_gives(
                ar,
                op,
                x,
                y,
                r,
            ),
        Formula::Narrow(a) => exists|x: Number|
            evaluates(ar, *a, x) && #[trigger] narrow_gives(ar, x, r),
        Formula::Widen(a) => exists|x: Number|
            evaluates(ar, *a, x) && #[trigger] widen_gives(ar, x, r),
        Formula::NanToZero(a) => exists|x: Number|
            evaluates(ar, *a, x) && r == #[trigger] nan_to_zero(x),
    }
}

/// A value of the formula is rounded to `n`.
pub open spec fn rounds_to<A: Arithmetic>(ar: &A, how: Rounding, f: Formula, n: i64) -> bool {
    exists|x: Double|
        evaluates(ar, f, Number::Double(x)) && #[trigger] call_ensures(A::rounded, (ar, how, x), n)
}

// ── Shorthand for formulas ───────────────────────────────────────────────

pub open spec fn double(x: Double) -> Formula {
    Formula::Number(Number::Double(x))
}

pub open spec fn single(x: Single) -> Formula {
    Formula::Number(Number::Single(x))
}

/// The double with an encoding.
pub open spec fn constant(bits: u64) -> Formula {
    double(Double { bits })
}

pub open spec fn plus(a: Formula, b: Formula) -> Formula {
    Formula::Binary(Binary::Plus, Box::new(a), Box::new(b))
}

pub open spec fn minus(a: Formula, b: Formula) -> Formula {
    Formula::Binary(Binary::Minus, Box::new(a), Box::new(b))
}

pub open spec fn times(a: Formula, b: Formula) -> Formula {
    Formula::Binary(Binary::Times, Box::new(a), Box::new(b))
}

pub open spec fn over(a: Formula, b: Formula) -> Formula {
    Formula::Binary(Binary::Over, Box::new(a), Box::new(b))
}

pub open spec fn power(a: Formula, b: Formula) -> Formula {
    Formula::Binary(Binary::Power, Box::new(a), Box::new(b))
}

pub open spec fn larger(a: Formula, b: Formula) -> Formula {
    Formula::Binary(Binary::Max, Box::new(a), Box::new(b))
}

pub open spec fn smaller(a: Formula, b: Formula) -> Formula {
    Formula::Binary(Binary::Min, Box::new(a), Box::new(b))
}

pub open spec fn unary(op: Unary, a: Formula) -> Formula {
    Formula::Unary(op, Box::new(a))
}

pub open spec fn narrow(a: Formula) -> Formula {
    Formula::Narrow(Box::new(a))
}

pub open spec fn widen(a: Formula) -> Formula {
    Formula::Widen(Box::new(a))
}

pub open spec fn without_nan(a: Formula) -> Formula {
    Formula::NanToZero(Box::new(a))
}

pub open spec fn whole_power(a: Formula, n: u32) -> Formula {
    unary(Unary::WholePower(n), a)
}

/// `a0 * b0 + a1 * b1 + a2 * b2`, from the left.
pub open spec fn dot3(a: Seq<Formula>, b: Seq<Formula>) -> Formula {
    plus(plus(times(a[0], b[0]), times(a[1], b[1])), times(a[2], b[2]))
}

/// The first `n` formulas added up from the left, onto `start`.
pub open spec fn sum_from(start: Formula, terms: spec_fn(int) -> Formula, n: int) -> Formula
    decreases n,
{
    if n <= 0 {
        start
    } else {
        plus(sum_from(start, terms, n - 1), terms(n - 1))
    }
}

// ── Numbers with their formulas ──────────────────────────────────────────

/// A number of one precision.
pub trait Sample: Copy {
    spec fn number(self) -> Number;

    /// A double brought to this precision.
    spec fn stored(f: Formula) -> Formula;

    /// This number as a double.
    spec fn fetched(self) -> Formula;

    /// This number as a single.
    spec fn shortened(self) -> Formula;

    /// A single brought to this precision.
    spec fn extended(f: Formula) -> Formula;

    fn binary_of<A: Arithmetic>(ar: &A, op: Binary, a: Self, b: Self) -> (r: Self)
        ensures
            binary_gives(ar, op, a.number(), b.number(), r.number()),
    ;

    fn unary_of<A: Arithmetic>(ar: &A, op: Unary, a: Self) -> (r: Self)
        ensures
            unary_gives(ar, op, a.number(), r.number()),
    ;

    /// A double brought to this precision.
    fn store<A: Arithmetic>(ar: &A, x: Traced<Double>) -> (r: Traced<Self>)
        ensures
            r.formula@ == Self::stored(x.formula@),
            is_double(ar, x.formula@, x.value) ==> evaluates(ar, r.formula@, r.value.number()),
    ;

    /// A single brought to this precision.
    fn extend<A: Arithmetic>(ar: &A, x: Traced<Single>) -> (r: Traced<Self>)
        ensures
            r.formula@ == Self::extended(x.formula@),
            is_single(ar, x.formula@, x.value) ==> evaluates(ar, r.formula@, r.value.number()),
    ;

    /// This number as a double.
    fn fetch<A: Arithmetic>(self, ar: &A) -> (r: Traced<Double>)
        ensures
            r.formula@ == self.fetched(),
            is_double(ar, r.formula@, r.value),
    ;

    /// This number as a single.
    fn shorten<A: Arithmetic>(self, ar: &A) -> (r: Traced<Single>)
        ensures
            r.formula@ == self.shortened(),
            is_single(ar, r.formula@, r.value),
    ;

    spec fn zero_value() -> Self;

    spec fn one_value() -> Self;

    /// The number of this precision out of two encodings of one value.
    spec fn literal_value(short: u32, wide: u64) -> Self;

    fn literal(short: u32, wide: u64) -> (r: Self)
        ensures
            r == Self::literal_value(short, wide),
    ;

    fn zero() -> (r: Self)
        ensures
            r == Self::zero_value(),
    ;

    fn one() -> (r: Self)
        ensures
            r == Self::one_value(),
    ;

    /// Zero is a number, and stands at 0.
    proof fn lemma_zero()
        ensures
            !Self::zero_value().is_no_number(),
            Self::zero_value().place() == 0,
            number_value(Self::zero_value().number()) == 0real,
            number_finite(Self::zero_value().number()),
    ;

    /// One is a finite number, and stands for 1.
    proof fn lemma_one()
        ensures
            number_finite(Self::one_value().number()),
            number_value(Self::one_value().number()) == 1real,
    ;

    /// Apart from rounding, a double is brought to this precision as it is.
    proof fn lemma_stored(g: Functions, f: Formula)
        ensures
            exact(g, Self::stored(f)) == exact(g, f),
    ;

    /// Apart from rounding, a number is brought to another precision as it is.
    proof fn lemma_forms(self, g: Functions, f: Formula)
        ensures
            exact(g, self.fetched()) == number_value(self.number()),
            exact(g, self.shortened()) == number_value(self.number()),
            exact(g, Self::extended(f)) == exact(g, f),
            finite_leaves(self.fetched()) == number_finite(self.number()),
            finite_leaves(self.shortened()) == number_finite(self.number()),
            finite_leaves(Self::stored(f)) == finite_leaves(f),
            finite_leaves(Self::extended(f)) == finite_leaves(f),
    ;

    /// Finite numbers are ordered as their places are.
    proof fn lemma_places(self, other: Self)
        requires
            number_finite(self.number()),
            number_finite(other.number()),
        ensures
            !self.is_no_number(),
            self.place() < other.place() <==> number_value(self.number()) < number_value(
                other.number(),
            ),
            self.place() <= other.place() <==> number_value(self.number()) <= number_value(
                other.number(),
            ),
    ;

    /// Not a number.
    spec fn is_no_number(self) -> bool;

    /// The place in the order of the numbers of this precision.
    spec fn place(self) -> int;

    fn lt(self, other: Self) -> (r: bool)
        ensures
            r == (!self.is_no_number() && !other.is_no_number() && self.place() < other.place()),
    ;

    fn le(self, other: Self) -> (r: bool)
        ensures
            r == (!self.is_no_number() && !other.is_no_number() && self.place() <= other.place()),
    ;
}

/// `a < b`, which is false wherever a NaN takes part.
pub open spec fn below<T: Sample>(a: T, b: T) -> bool {
    !a.is_no_number() && !b.is_no_number() && a.place() < b.place()
}

/// `a <= b`, which is false wherever a NaN takes part.
pub open spec fn at_most<T: Sample>(a: T, b: T) -> bool {
    !a.is_no_number() && !b.is_no_number() && a.place() <= b.place()
}

fn narrowed<A: Arithmetic>(ar: &A, x: Traced<Double>) -> (r: Traced<Single>)
    ensures
        r.formula@ == narrow(x.formula@),
        is_double(ar, x.formula@, x.value) ==> is_single(ar, r.formula@, r.value),
{
    let value = ar.narrow(x.value);
    proof {
        assert(narrow_gives(ar, Number::Double(x.value), Number::Single(value)));
    }
    Traced { value, formula: Ghost(narrow(x.formula@)) }
}

fn widened<A: Arithmetic>(ar: &A, x: Traced<Single>) -> (r: Traced<Double>)
    ensures
        r.formula@ == widen(x.formula@),
        is_single(ar, x.formula@, x.value) ==> is_double(ar, r.formula@, r.value),
{
    let value = ar.widen(x.value);
    proof {
        assert(widen_gives(ar, Number::Single(x.value), Number::Double(value)));
    }
    Traced { value, formula: Ghost(widen(x.formula@)) }
}

impl Sample for Double {
    open spec fn number(self) -> Number {
        Number::Double(self)
    }

    open spec fn stored(f: Formula) -> Formula {
        f
    }

    open spec fn fetched(self) -> Formula {
        double(self)
    }

    open spec fn shortened(self) -> Formula {
        narrow(double(self))
    }

    open spec fn extended(f: Formula) -> Formula {
        widen(f)
    }

    open spec fn is_no_number(self) -> bool {
        self.nan()
    }

    open spec fn place(self) -> int {
        self.rank()
    }

    fn binary_of<A: Arithmetic>(ar: &A, op: Binary, a: Double, b: Double) -> (r: Double) {
        ar.binary_double(op, a, b)
    }

    fn unary_of<A: Arithmetic>(ar: &A, op: Unary, a: Double) -> (r: Double) {
        ar.unary_double(op, a)
    }

    fn store<A: Arithmetic>(ar: &A, x: Traced<Double>) -> (r: Traced<Double>) {
        x
    }

    fn extend<A: Arithmetic>(ar: &A, x: Traced<Single>) -> (r: Traced<Double>) {
        widened(ar, x)
    }

    fn fetch<A: Arithmetic>(self, ar: &A) -> (r: Traced<Double>) {
        Traced { value: self, formula: Ghost(Formula::Number(self.number())) }
    }

    fn shorten<A: Arithmetic>(self, ar: &A) -> (r: Traced<Single>) {
        narrowed(ar, Traced { value: self, formula: Ghost(double(self)) })
    }

    fn zero() -> (r: Double) {
        Double { bits: 0 }
    }

    open spec fn literal_value(short: u32, wide: u64) -> Double {
        Double { bits: wide }
    }

    fn literal(short: u32, wide: u64) -> (r: Double) {
        Double { bits: wide }
    }

    open spec fn zero_value() -> Double {
        Double { bits: 0 }
    }

    open spec fn one_value() -> Double {
        Double { bits: 0x3ff0_0000_0000_0000 }
    }

    proof fn lemma_stored(g: Functions, f: Formula) {
    }

    proof fn lemma_forms(self, g: Functions, f: Formula) {
        reveal_with_fuel(exact, 3);
        reveal_with_fuel(finite_leaves, 3);
    }

    proof fn lemma_places(self, other: Double) {
        lemma_order(self, other);
    }

    proof fn lemma_zero() {
        lemma_zero_values();
    }

    proof fn lemma_one() {
        lemma_one_values();
    }

    fn one() -> (r: Double) {
        Double { bits: 0x3ff0_0000_0000_0000 }
    }

    fn lt(self, other: Double) -> (r: bool) {
        self.is_below(other)
    }

    fn le(self, other: Double) -> (r: bool) {
        self.is_at_most(other)
    }
}

impl Sample for Single {
    open spec fn number(self) -> Number {
        Number::Single(self)
    }

    open spec fn stored(f: Formula) -> Formula {
        narrow(f)
    }

    open spec fn fetched(self) -> Formula {
        widen(single(self))
    }

    open spec fn shortened(self) -> Formula {
        single(self)
    }

    open spec fn extended(f: Formula) -> Formula {
        f
    }

    open spec fn is_no_number(self) -> bool {
        self.nan()
    }

    open spec fn place(self) -> int {
        self.rank()
    }

    fn binary_of<A: Arithmetic>(ar: &A, op: Binary, a: Single, b: Single) -> (r: Single) {
        ar.binary_single(op, a, b)
    }

    fn unary_of<A: Arithmetic>(ar: &A, op: Unary, a: Single) -> (r: Single) {
        ar.unary_single(op, a)
    }

    fn store<A: Arithmetic>(ar: &A, x: Traced<Double>) -> (r: Traced<Single>) {
        narrowed(ar, x)
    }

    fn extend<A: Arithmetic>(ar: &A, x: Traced<Single>) -> (r: Traced<Single>) {
        x
    }

    fn fetch<A: Arithmetic>(self, ar: &A) -> (r: Traced<Double>) {
        widened(ar, Traced { value: self, formula: Ghost(single(self)) })
    }

    fn shorten<A: Arithmetic>(self, ar: &A) -> (r: Traced<Single>) {
        Traced { value: self, formula: Ghost(Formula::Number(self.number())) }
    }

    fn zero() -> (r: Single) {
        Single { bits: 0 }
    }

    open spec fn literal_value(short: u32, wide: u64) -> Single {
        Single { bits: short }
    }

    fn literal(short: u32, wide: u64) -> (r: Single) {
        Single { bits: short }
    }

    open spec fn zero_value() -> Single {
        Single { bits: 0 }
    }

    open spec fn one_value() -> Single {
        Single { bits: 0x3f80_0000 }
    }

    proof fn lemma_stored(g: Functions, f: Formula) {
    }

    proof fn lemma_forms(self, g: Functions, f: Formula) {
        reveal_with_fuel(exact, 3);
        reveal_with_fuel(finite_leaves, 3);
    }

    proof fn lemma_places(self, other: Single) {
        lemma_short_order(self, other);
        lemma_short_order(other, self);
    }

    proof fn lemma_zero() {
        lemma_zero_values();
    }

    proof fn lemma_one() {
        lemma_one_values();
    }

    fn one() -> (r: Single) {
        Single { bits: 0x3f80_0000 }
    }

    fn lt(self, other: Single) -> (r: bool) {
        self.is_below(other)
    }

    fn le(self, other: Single) -> (r: bool) {
        self.is_at_most(other)
    }
}

/// A number that is computed, with the formula that it is the value of.
#[derive(Clone, Copy)]
pub struct Traced<T> {
    pub value: T,
    pub formula: Ghost<Formula>,
}

/// A computed double.
pub type Wide = Traced<Double>;

/// A computed single.
pub type Short = Traced<Single>;

impl<T: Sample> Traced<T> {
    /// The value is one of the formula.
    pub open spec fn holds<A: Arithmetic>(self, ar: &A) -> bool {
        evaluates(ar, self.formula@, self.value.number())
    }

    /// A given number.
    pub fn new<A: Arithmetic>(ar: &A, x: T) -> (r: Traced<T>)
        ensures
            r.value == x,
            r.formula@ == Formula::Number(x.number()),
            r.holds(ar),
    {
        Traced { value: x, formula: Ghost(Formula::Number(x.number())) }
    }

    pub fn binary<A: Arithmetic>(self, ar: &A, op: Binary, other: Traced<T>) -> (r: Traced<T>)
        ensures
            r.formula@ == Formula::Binary(op, Box::new(self.formula@), Box::new(other.formula@)),
            self.holds(ar) && other.holds(ar) ==> r.holds(ar),
    {
        let value = T::binary_of(ar, op, self.value, other.value);
        Traced {
            value,
            formula: Ghost(
                Formula::Binary(op, Box::new(self.formula@), Box::new(other.formula@)),
            ),
        }
    }

    pub fn unary<A: Arithmetic>(self, ar: &A, op: Unary) -> (r: Traced<T>)
        ensures
            r.formula@ == Formula::Unary(op, Box::new(self.formula@)),
            self.holds(ar) ==> r.holds(ar),
    {
        let value = T::unary_of(ar, op, self.value);
        Traced { value, formula: Ghost(Formula::Unary(op, Box::new(self.formula@))) }
    }

    pub fn plus<A: Arithmetic>(self, ar: &A, other: Traced<T>) -> (r: Traced<T>)
        ensures
            r.formula@ == plus(self.formula@, other.formula@),
            self.holds(ar) && other.holds(ar) ==> r.holds(ar),
    {
        self.binary(ar, Binary::Plus, other)
    }

    pub fn minus<A: Arithmetic>(self, ar: &A, other: Traced<T>) -> (r: Traced<T>)
        ensures
            r.formula@ == minus(self.formula@, other.formula@),
            self.holds(ar) && other.holds(ar) ==> r.holds(ar),
    {
        self.binary(ar, Binary::Minus, other)
    }

    pub fn times<A: Arithmetic>(self, ar: &A, other: Traced<T>) -> (r: Traced<T>)
        ensures
            r.formula@ == times(self.formula@, other.formula@),
            self.holds(ar) && other.holds(ar) ==> r.holds(ar),
    {
        self.binary(ar, Binary::Times, other)
    }

    pub fn over<A: Arithmetic>(self, ar: &A, other: Traced<T>) -> (r: Traced<T>)
        ensures
            r.formula@ == over(self.formula@, other.formula@),
            self.holds(ar) && other.holds(ar) ==> r.holds(ar),
    {
        self.binary(ar, Binary::Over, other)
    }

    pub fn power<A: Arithmetic>(self, ar: &A, other: Traced<T>) -> (r: Traced<T>)
        ensures
            r.formula@ == power(self.formula@, other.formula@),
            self.holds(ar) && other.holds(ar) ==> r.holds(ar),
    {
        self.binary(ar, Binary::Power, other)
    }

    pub fn larger<A: Arithmetic>(self, ar: &A, other: Traced<T>) -> (r: Traced<T>)
        ensures
            r.formula@ == larger(self.formula@, other.formula@),
            self.holds(ar) && other.holds(ar) ==> r.holds(ar),
    {
        self.binary(ar, Binary::Max, other)
    }

    pub fn smaller<A: Arithmetic>(self, ar: &A, other: Traced<T>) -> (r: Traced<T>)
        ensures
            r.formula@ == smaller(self.formula@, other.formula@),
            self.holds(ar) && other.holds(ar) ==> r.holds(ar),
    {
        self.binary(ar, Binary::Min, other)
    }

    /// `a0 * b0 + a1 * b1 + a2 * b2`, from the left.
    pub fn dot3<A: Arithmetic>(ar: &A, a: [Traced<T>; 3], b: [Traced<T>; 3]) -> (r: Traced<T>)
        ensures
            r.formula@ == dot3(formulas(a@), formulas(b@)),
            all_hold(ar, a@) && all_hold(ar, b@) ==> r.holds(ar),
    {
        let x = a[0].times(ar, b[0]);
        let y = a[1].times(ar, b[1]);
        let z = a[2].times(ar, b[2]);
        x.plus(ar, y).plus(ar, z)
    }
}

/// The formulas of several numbers.
pub open spec fn formulas<T>(xs: Seq<Traced<T>>) -> Seq<Formula> {
    Seq::new(xs.len(), |i: int| xs[i].formula@)
}

/// Each value is one of its formula.
pub open spec fn all_hold<T: Sample, A: Arithmetic>(ar: &A, xs: Seq<Traced<T>>) -> bool {
    forall|i: int| 0 <= i < xs.len() ==> (#[trigger] xs[i]).holds(ar)
}

impl Traced<Double> {
    /// The number with an encoding.
    pub fn constant<A: Arithmetic>(ar: &A, bits: u64) -> (r: Traced<Double>)
        ensures
            r.value.bits == bits,
            r.formula@ == constant(bits),
            r.holds(ar),
    {
        Traced::new(ar, Double { bits })
    }

    pub fn whole<A: Arithmetic>(ar: &A, n: u64) -> (r: Traced<Double>)
        ensures
            r.formula@ == Formula::Whole(n),
            r.holds(ar),
    {
        Traced { value: ar.whole(n), formula: Ghost(Formula::Whole(n)) }
    }

    /// The whole number that the value is brought to.
    pub fn rounded<A: Arithmetic>(self, ar: &A, how: Rounding) -> (r: i64)
        ensures
            self.holds(ar) ==> rounds_to(ar, how, self.formula@, r),
    {
        ar.rounded(how, self.value)
    }

    pub fn without_nan<A: Arithmetic>(self, ar: &A) -> (r: Traced<Double>)
        ensures
            r.formula@ == without_nan(self.formula@),
            self.holds(ar) ==> r.holds(ar),
    {
        let value = if self.value.is_nan() {
            Double { bits: 0 }
        } else {
            self.value
        };
        proof {
            assert(Number::Double(value) == nan_to_zero(Number::Double(self.value)));
        }
        Traced { value, formula: Ghost(without_nan(self.formula@)) }
    }

    pub fn narrow<A: Arithmetic>(self, ar: &A) -> (r: Traced<Single>)
        ensures
            r.formula@ == narrow(self.formula@),
            self.holds(ar) ==> r.holds(ar),
    {
        narrowed(ar, self)
    }
}

impl Traced<Single> {
    pub fn widen<A: Arithmetic>(self, ar: &A) -> (r: Traced<Double>)
        ensures
            r.formula@ == widen(self.formula@),
            self.holds(ar) ==> r.holds(ar),
    {
        widened(ar, self)
    }
}

/// `x` is a value of the formula.
pub open spec fn is_double<A: Arithmetic>(ar: &A, f: Formula, x: Double) -> bool {
    evaluates(ar, f, Number::Double(x))
}

/// `x` is a value of the formula.
pub open spec fn is_single<A: Arithmetic>(ar: &A, f: Formula, x: Single) -> bool {
    evaluates(ar, f, Number::Single(x))
}

/// Where each operation has one result, so has each formula.
pub proof fn lemma_value_unique<A: Arithmetic>(ar: &A, f: Formula, x: Number, y: Number)
    requires
        evaluates(ar, f, x),
        evaluates(ar, f, y),
        forall|op: Binary, a: Number, b: Number, r: Number, s: Number|
            #![trigger binary_gives(ar, op, a, b, r), binary_gives(ar, op, a, b, s)]
            binary_gives(ar, op, a, b, r) && binary_gives(ar, op, a, b, s) ==> r == s,
        forall|op: Unary, a: Number, r: Number, s: Number|
            #![trigger unary_gives(ar, op, a, r), unary_gives(ar, op, a, s)]
            unary_gives(ar, op, a, r) && unary_gives(ar, op, a, s) ==> r == s,
        forall|a: Number, r: Number, s: Number|
            #![trigger narrow_gives(ar, a, r), narrow_gives(ar, a, s)]
            narrow_gives(ar, a, r) && narrow_gives(ar, a, s) ==> r == s,
        forall|a: Number, r: Number, s: Number|
            #![trigger widen_gives(ar, a, r), widen_gives(ar, a, s)]
            widen_gives(ar, a, r) && widen_gives(ar, a, s) ==> r == s,
        forall|n: u64, r: Number, s: Number|
            #![trigger evaluates(ar, Formula::Whole(n), r), evaluates(ar, Formula::Whole(n), s)]
            evaluates(ar, Formula::Whole(n), r) && evaluates(ar, Formula::Whole(n), s) ==> r == s,
    ensures
        x == y,
    decreases f,
{
    match f {
        Formula::Number(n) => {},
        Formula::Whole(n) => {},
        Formula::Unary(op, a) => {
            let p = choose|p: Number| evaluates(ar, *a, p) && #[trigger] unary_gives(ar, op, p, x);
            let q = choose|q: Number| evaluates(ar, *a, q) && #[trigger] unary_gives(ar, op, q, y);
            lemma_value_unique(ar, *a, p, q);
        },
        Formula::Binary(op, a, b) => {
            let (p, s) = choose|p: Number, s: Number|
                evaluates(ar, *a, p) && evaluates(ar, *b, s) && #[trigger] binary_gives(
                    ar,
                    op,
                    p,
                    s,
                    x,
                );
            let (q, t) = choose|q: Number, t: Number|
                evaluates(ar, *a, q) && evaluates(ar, *b, t) && #[trigger] binary_gives(
                    ar,
                    op,
                    q,
                    t,
                    y,
                );
            lemma_value_unique(ar, *a, p, q);
            lemma_value_unique(ar, *b, s, t);
        },
        Formula::Narrow(a) => {
            let p = choose|p: Number| evaluates(ar, *a, p) && #[trigger] narrow_gives(ar, p, x);
            let q = choose|q: Number| evaluates(ar, *a, q) && #[trigger] narrow_gives(ar, q, y);
            lemma_value_unique(ar, *a, p, q);
        },
        Formula::Widen(a) => {
            let p = choose|p: Number| evaluates(ar, *a, p) && #[trigger] widen_gives(ar, p, x);
            let q = choose|q: Number| evaluates(ar, *a, q) && #[trigger] widen_gives(ar, q, y);
            lemma_value_unique(ar, *a, p, q);
        },
        Formula::NanToZero(a) => {
            let p = choose|p: Number| evaluates(ar, *a, p) && x == #[trigger] nan_to_zero(p);
            let q = choose|q: Number| evaluates(ar, *a, q) && y == #[trigger] nan_to_zero(q);
            lemma_value_unique(ar, *a, p, q);
        },
    }
}

} // verus!
