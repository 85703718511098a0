//! The curves of sRGB with rounding: decoding gives back what was encoded.

use vstd::arithmetic::power2::{lemma2_to64, lemma2_to64_rest};
use vstd::prelude::*;

use crate::arith::{at_most, binary_gives, constant, evaluates, narrow_gives, over, plus};
use crate::arith::{power, times, Arithmetic, Binary, Formula, Number, Sample};
use crate::bits::{Double, Single};
use crate::colorspace::{decoding_curve, encoding_curve, srgb_decoded, srgb_encoded};
use crate::exact::{double_value, number_value, single_value, size_of_real, Functions};
use crate::gaussian::fixed;
use crate::interp::num;
use crate::rounding::{lemma_order, lemma_short_order, near_single};

verus! {

pub open spec fn number_finite(n: Number) -> bool {
    match n {
        Number::Double(x) => x.finite(),
        Number::Single(x) => x.finite(),
    }
}

/// The value of a sample.
pub open spec fn value_of<T: Sample>(x: T) -> real {
    number_value(x.number())
}

/// `v` lies within `e` of `x`.
pub open spec fn within(v: real, x: real, e: real) -> bool {
    -e <= v - x <= e
}

/// The result of an operation in either precision, on numbers of the sizes
/// that the curves meet: powers are within two units of the last place of a
/// single, everything else is rounded to the nearest number.
pub open spec fn rough_result(g: Functions, op: Binary, x: real, y: real, r: Number) -> bool {
    let v = number_value(r);
    match op {
        Binary::Plus => size_of_real(x + y) <= 1000real ==> number_finite(r) && near_single(
            v,
            x + y,
        ),
        Binary::Minus => size_of_real(x - y) <= 1000real ==> number_finite(r) && near_single(
            v,
            x - y,
        ),
        Binary::Times => size_of_real(x * y) <= 1000real ==> number_finite(r) && near_single(
            v,
            x * y,
        ),
        Binary::Over => 1real <= y && size_of_real(x / y) <= 1000real ==> number_finite(r)
            && near_single(v, x / y),
        Binary::Power => 1real / 1000real <= x <= 2real && 1real / 10real <= y <= 3real ==> {
            let p = (g.power)(x, y);
            number_finite(r) && within(v, p, 2real * (size_of_real(p) / 10000000real))
        },
        _ => true,
    }
}

/// In both precisions `ar` rounds as IEEE 754 asks for, and its powers are
/// next to those of `g`.
pub open spec fn rough<A: Arithmetic>(ar: &A, g: Functions) -> bool {
    &&& forall|op: Binary, a: Number, b: Number, r: Number| #[trigger]
        binary_gives(ar, op, a, b, r) && number_finite(a) && number_finite(b) ==> rough_result(
            g,
            op,
            number_value(a),
            number_value(b),
            r,
        )
    &&& forall|a: Number, r: Number| #[trigger]
        narrow_gives(ar, a, r) && number_finite(a) && size_of_real(number_value(a)) <= 1000real
            ==> number_finite(r) && near_single(number_value(r), number_value(a))
}

/// The powers by `a` and by `b` undo each other, as those by 1 / 2.4 and by
/// 2.4 do: the first takes 0.0031308 to 0.090474, and the second is nowhere
/// steeper than three.
pub open spec fn undone(g: Functions, a: real, b: real) -> bool {
    &&& forall|v: real|
        3real / 1000real <= v <= 1real ==> within(
            (g.power)(#[trigger] (g.power)(v, a), b),
            v,
            5real / 10000000real,
        )
    &&& forall|v: real|
        313079real / 100000000real <= v <= 1real ==> 90473real / 1000000real <= #[trigger] (
        g.power)(v, a) <= 1real
    &&& (g.power)(31308real / 10000000real, a) <= 904745real / 10000000real
    &&& forall|x: real, y: real|
        9real / 100real <= x <= y <= 11real / 10real ==> within(
            #[trigger] (g.power)(x, b),
            #[trigger] (g.power)(y, b),
            3real * (y - x),
        )
}

/// The powers of `g` are those of real numbers, as far as the curves go.
pub open spec fn has_gamma(g: Functions) -> bool {
    forall|a: real, b: real|
        within(a, 5real / 12real, 1real / 10000000real) && within(
            b,
            12real / 5real,
            5real / 10000000real,
        ) ==> #[trigger] undone(g, a, b)
}

/// Every number for a constant lies within `e` of `c`.
spec fn stands_near<A: Arithmetic>(ar: &A, f: Formula, c: real, e: real) -> bool {
    forall|r: Number| #[trigger]
        evaluates(ar, f, r) ==> number_finite(r) && within(number_value(r), c, e)
}

/// The constants of the curves in the precision of `T`, and its order.
spec fn settled<T: Sample, A: Arithmetic>(ar: &A) -> bool {
    let dark = T::literal_value(0x3b4d_2e1c, 0x3f69_a5c3_7387_b719);
    let encoded = T::literal_value(0x3d25_aee6, 0x3fa4_b5dc_c63f_1412);
    &&& stands_near(
        ar,
        fixed::<T>(0x4029_d70a_3d70_a3d7),
        1292real / 100real,
        15real / 10000000real,
    )
    &&& stands_near(
        ar,
        fixed::<T>(0x3ff0_e147_ae14_7ae1),
        1055real / 1000real,
        12real / 100000000real,
    )
    &&& stands_near(
        ar,
        fixed::<T>(0x3fda_aaaa_aaaa_aaab),
        5real / 12real,
        1real / 10000000real,
    )
    &&& stands_near(
        ar,
        fixed::<T>(0x3fac_28f5_c28f_5c29),
        55real / 1000real,
        1real / 100000000real,
    )
    &&& stands_near(
        ar,
        fixed::<T>(0x4003_3333_3333_3333),
        12real / 5real,
        5real / 10000000real,
    )
    &&& number_finite(dark.number())
    &&& within(value_of(dark), 31308real / 10000000real, 1real / 1000000000real)
    &&& number_finite(encoded.number())
    &&& within(value_of(encoded), 4045real / 100000real, 1real / 1000000000real)
    &&& forall|x: T, y: T|
        number_finite(x.number()) && number_finite(y.number()) ==> (#[trigger] at_most(x, y)
            <==> value_of(x) <= value_of(y))
}

/// The operands that a number came of.
proof fn lemma_operands<A: Arithmetic>(ar: &A, op: Binary, a: Formula, b: Formula, r: Number) -> (xy:
    (Number, Number))
    requires
        evaluates(ar, Formula::Binary(op, Box::new(a), Box::new(b)), r),
    ensures
        evaluates(ar, a, xy.0),
        evaluates(ar, b, xy.1),
        binary_gives(ar, op, xy.0, xy.1, r),
{
    choose|x: Number, y: Number|
        evaluates(ar, a, x) && evaluates(ar, b, y) && #[trigger] binary_gives(ar, op, x, y, r)
}

// ── The constants ────────────────────────────────────────────────────────

proof fn lemma_curve_doubles()
    ensures
        within(
            double_value(Double { bits: 0x4029_d70a_3d70_a3d7 }),
            1292real / 100real,
            1real / 1000000000000real,
        ),
        within(
            double_value(Double { bits: 0x3ff0_e147_ae14_7ae1 }),
            1055real / 1000real,
            1real / 1000000000000real,
        ),
        within(
            double_value(Double { bits: 0x3fda_aaaa_aaaa_aaab }),
            5real / 12real,
            1real / 1000000000000real,
        ),
        within(
            double_value(Double { bits: 0x3fac_28f5_c28f_5c29 }),
            55real / 1000real,
            1real / 1000000000000real,
        ),
        within(
            double_value(Double { bits: 0x4003_3333_3333_3333 }),
            12real / 5real,
            1real / 1000000000000real,
        ),
        within(
            double_value(Double { bits: 0x3f69_a5c3_7387_b719 }),
            31308real / 10000000real,
            1real / 1000000000000real,
        ),
        within(
            double_value(Double { bits: 0x3fa4_b5dc_c63f_1412 }),
            4045real / 100000real,
            1real / 1000000000000real,
        ),
        within(
            single_value(Single { bits: 0x3b4d_2e1c }),
            31308real / 10000000real,
            1real / 1000000000real,
        ),
        within(
            single_value(Single { bits: 0x3d25_aee6 }),
            4045real / 100000real,
            1real / 1000000000real,
        ),
{
    lemma2_to64();
    lemma2_to64_rest();
    assert(double_value(Double { bits: 0x4029_d70a_3d70_a3d7 }) == (0x19_d70a_3d70_a3d7int as real)
        / (0x2_0000_0000_0000int as real));
    assert(double_value(Double { bits: 0x3ff0_e147_ae14_7ae1 }) == (0x10_e147_ae14_7ae1int as real)
        / (0x10_0000_0000_0000int as real));
    assert(double_value(Double { bits: 0x3fda_aaaa_aaaa_aaab }) == (0x1a_aaaa_aaaa_aaabint as real)
        / (0x40_0000_0000_0000int as real));
    assert(double_value(Double { bits: 0x3fac_28f5_c28f_5c29 }) == (0x1c_28f5_c28f_5c29int as real)
        / (0x200_0000_0000_0000int as real));
    assert(double_value(Double { bits: 0x4003_3333_3333_3333 }) == (0x13_3333_3333_3333int as real)
        / (0x8_0000_0000_0000int as real));
    assert(double_value(Double { bits: 0x3f69_a5c3_7387_b719 }) == (0x19_a5c3_7387_b719int as real)
        / (0x2000_0000_0000_0000int as real));
    assert(double_value(Double { bits: 0x3fa4_b5dc_c63f_1412 }) == (0x14_b5dc_c63f_1412int as real)
        / (0x200_0000_0000_0000int as real));
    assert(single_value(Single { bits: 0x3b4d_2e1c }) == (0xcd_2e1cint as real) / (
    0x1_0000_0000int as real));
    assert(single_value(Single { bits: 0x3d25_aee6 }) == (0xa5_aee6int as real) / (
    0x1000_0000int as real));
}

proof fn lemma_settled_doubles<A: Arithmetic>(ar: &A)
    ensures
        settled::<Double, A>(ar),
{
    lemma_curve_doubles();
    assert forall|x: Double, y: Double|
        number_finite(x.number()) && number_finite(y.number()) implies (#[trigger] at_most(x, y)
        <==> value_of(x) <= value_of(y)) by {
        lemma_order(x, y);
    }
}

/// A constant brought to single precision.
proof fn lemma_narrow_constant<A: Arithmetic>(ar: &A, g: Functions, bits: u64, c: real, e: real)
    requires
        rough(ar, g),
        (Double { bits }).finite(),
        within(double_value(Double { bits }), c, 1real / 1000000000000real),
        0real <= c <= 100real,
        c / 10000000real + 1real / 100000000000real <= e,
    ensures
        stands_near(ar, fixed::<Single>(bits), c, e),
{
    assert forall|r: Number| #[trigger] evaluates(ar, fixed::<Single>(bits), r) implies
        number_finite(r) && within(number_value(r), c, e) by {
        let x = choose|x: Number|
            evaluates(ar, constant(bits), x) && #[trigger] narrow_gives(ar, x, r);
        assert(x == Number::Double(Double { bits }));
    }
}

proof fn lemma_settled_singles<A: Arithmetic>(ar: &A, g: Functions)
    requires
        rough(ar, g),
    ensures
        settled::<Single, A>(ar),
{
    lemma_curve_doubles();
    lemma_narrow_constant(
        ar,
        g,
        0x4029_d70a_3d70_a3d7,
        1292real / 100real,
        15real / 10000000real,
    );
    lemma_narrow_constant(
        ar,
        g,
        0x3ff0_e147_ae14_7ae1,
        1055real / 1000real,
        12real / 100000000real,
    );
    lemma_narrow_constant(ar, g, 0x3fda_aaaa_aaaa_aaab, 5real / 12real, 1real / 10000000real);
    lemma_narrow_constant(
        ar,
        g,
        0x3fac_28f5_c28f_5c29,
        55real / 1000real,
        1real / 100000000real,
    );
    lemma_narrow_constant(ar, g, 0x4003_3333_3333_3333, 12real / 5real, 5real / 10000000real);
    assert forall|x: Single, y: Single|
        number_finite(x.number()) && number_finite(y.number()) implies (#[trigger] at_most(x, y)
        <==> value_of(x) <= value_of(y)) by {
        lemma_short_order(x, y);
    }
}

// ── Dark numbers ─────────────────────────────────────────────────────────

proof fn lemma_line(c: real, v: real)
    by (nonlinear_arith)
    requires
        1291real / 100real <= c <= 12920002real / 1000000real,
        0real <= v <= 3130802real / 1000000000real,
    ensures
        0real <= c * v <= 40449970real / 1000000000real,
        c * v <= 13real * v,
{
}

proof fn lemma_line_back(c: real, d: real, v: real, n: real)
    by (nonlinear_arith)
    requires
        within(c, 1292real / 100real, 15real / 10000000real),
        within(d, 1292real / 100real, 15real / 10000000real),
        0real <= v <= 1real / 100real,
        within(n, c * v, 1real / 100000000real),
    ensures
        within(n / d, v, 2real / 100000000real),
{
    let q = n / d;
    assert(q * d == n);
    let e = n - c * v;
    assert((q - v) * d == e + (c - d) * v);
    assert(-(3real / 100000000real) <= (c - d) * v <= 3real / 100000000real);
    assert(-(4real / 100000000real) <= (q - v) * d <= 4real / 100000000real);
}

proof fn lemma_dark<T: Sample, A: Arithmetic>(ar: &A, g: Functions, x: T, enc: T)
    requires
        rough(ar, g),
        settled::<T, A>(ar),
        number_finite(x.number()),
        0real <= value_of(x),
        at_most(x, T::literal_value(0x3b4d_2e1c, 0x3f69_a5c3_7387_b719)),
        evaluates(ar, srgb_encoded(x), enc.number()),
    ensures
        number_finite(enc.number()),
        at_most(enc, T::literal_value(0x3d25_aee6, 0x3fa4_b5dc_c63f_1412)),
        forall|r: Number| #[trigger]
            evaluates(ar, decoding_curve::<T>(true, num(enc)), r) ==> number_finite(r) && within(
                number_value(r),
                value_of(x),
                1real / 100000real,
            ),
{
    let k = fixed::<T>(0x4029_d70a_3d70_a3d7);
    let (c, v) = lemma_operands(ar, Binary::Times, k, num(x), enc.number());
    assert(v == x.number());
    lemma_line(number_value(c), value_of(x));
    let n = enc.number();
    assert(number_finite(n) && near_single(number_value(n), number_value(c) * value_of(x)));
    assert(within(number_value(n), number_value(c) * value_of(x), 1real / 100000000real));
    assert forall|r: Number| #[trigger]
        evaluates(ar, decoding_curve::<T>(true, num(enc)), r) implies number_finite(r) && within(
        number_value(r),
        value_of(x),
        1real / 100000real,
    ) by {
        let (m, d) = lemma_operands(ar, Binary::Over, num(enc), k, r);
        assert(m == n);
        lemma_line_back(number_value(c), number_value(d), value_of(x), number_value(n));
    }
}

// ── Bright numbers ───────────────────────────────────────────────────────

proof fn lemma_product_size(k: real, p: real)
    by (nonlinear_arith)
    requires
        within(k, 1055real / 1000real, 12real / 100000000real),
        90472real / 1000000real <= p <= 1000001real / 1000000real,
    ensures
        k * p <= 1056real / 1000real,
        k * p >= (1055real / 1000real) * p - 13real / 100000000real,
        k * p <= (1055real / 1000real) * p + 13real / 100000000real,
{
}

proof fn lemma_factor_back(k: real, l: real, p: real, s: real, e: real)
    by (nonlinear_arith)
    requires
        within(k, 1055real / 1000real, 12real / 100000000real),
        within(l, 1055real / 1000real, 12real / 100000000real),
        0real <= p <= 1000001real / 1000000real,
        within(s, k * p, e),
        0real <= e <= 1real,
    ensures
        within(s / l, p, e + 25real / 100000000real),
{
    let q = s / l;
    assert(q * l == s);
    let d = s - k * p;
    assert((q - p) * l == d + (k - l) * p);
    assert(-(25real / 100000000real) <= (k - l) * p <= 25real / 100000000real);
}

/// What encoding makes of a bright number: its power by an exponent next to
/// 1 / 2.4, and this times a factor next to 1.055 less an offset next to
/// 0.055.
ghost struct Lifted {
    pub exponent: real,
    pub power: real,
    pub factor: real,
    pub offset: real,
}

spec fn is_lifted(g: Functions, v: real, l: Lifted, n: real) -> bool {
    let p = (g.power)(v, l.exponent);
    &&& within(l.exponent, 5real / 12real, 1real / 10000000real)
    &&& within(l.factor, 1055real / 1000real, 12real / 100000000real)
    &&& within(l.offset, 55real / 1000real, 1real / 100000000real)
    &&& 90473real / 1000000real <= p <= 1real
    &&& within(l.power, p, 2real / 10000000real)
    &&& within(n, l.factor * l.power - l.offset, 22real / 100000000real)
}

proof fn lemma_lifted<T: Sample, A: Arithmetic>(ar: &A, g: Functions, x: T, n: Number) -> (l: Lifted)
    requires
        rough(ar, g),
        has_gamma(g),
        settled::<T, A>(ar),
        number_finite(x.number()),
        313079real / 100000000real <= value_of(x) <= 1real,
        evaluates(ar, encoding_curve::<T>(false, num(x)), n),
    ensures
        number_finite(n),
        is_lifted(g, value_of(x), l, number_value(n)),
{
    let k = fixed::<T>(0x3ff0_e147_ae14_7ae1);
    let e = fixed::<T>(0x3fda_aaaa_aaaa_aaab);
    let o = fixed::<T>(0x3fac_28f5_c28f_5c29);
    let (t, off) = lemma_operands(ar, Binary::Minus, times(k, power(num(x), e)), o, n);
    let (c, up) = lemma_operands(ar, Binary::Times, k, power(num(x), e), t);
    let (v, a) = lemma_operands(ar, Binary::Power, num(x), e, up);
    assert(v == x.number());
    assert(undone(g, number_value(a), 12real / 5real));
    let p = (g.power)(value_of(x), number_value(a));
    assert(90473real / 1000000real <= p <= 1real);
    lemma_product_size(number_value(c), number_value(up));
    Lifted {
        exponent: number_value(a),
        power: number_value(up),
        factor: number_value(c),
        offset: number_value(off),
    }
}

/// A bright number that is bright when encoded.
proof fn lemma_bright<T: Sample, A: Arithmetic>(
    ar: &A,
    g: Functions,
    v: real,
    l: Lifted,
    enc: T,
    r: Number,
)
    requires
        rough(ar, g),
        has_gamma(g),
        settled::<T, A>(ar),
        number_finite(enc.number()),
        3real / 1000real <= v <= 1real,
        is_lifted(g, v, l, value_of(enc)),
        evaluates(ar, decoding_curve::<T>(false, num(enc)), r),
    ensures
        number_finite(r),
        within(number_value(r), v, 1real / 100000real),
{
    let k = fixed::<T>(0x3ff0_e147_ae14_7ae1);
    let e = fixed::<T>(0x4003_3333_3333_3333);
    let o = fixed::<T>(0x3fac_28f5_c28f_5c29);
    let (q, b) = lemma_operands(ar, Binary::Power, over(plus(num(enc), o), k), e, r);
    let (s, c) = lemma_operands(ar, Binary::Over, plus(num(enc), o), k, q);
    let (n, off) = lemma_operands(ar, Binary::Plus, num(enc), o, s);
    assert(n == enc.number());
    let p = (g.power)(v, l.exponent);
    lemma_product_size(l.factor, l.power);
    assert(within(number_value(s), l.factor * l.power, 35real / 100000000real));
    lemma_factor_back(
        l.factor,
        number_value(c),
        l.power,
        number_value(s),
        35real / 100000000real,
    );
    let w = number_value(q);
    assert(within(w, p, 1real / 1000000real));
    let y = number_value(b);
    assert(undone(g, l.exponent, y));
    let back = (g.power)(p, y);
    assert(within(back, v, 5real / 10000000real));
    let got = (g.power)(w, y);
    if w <= p {
        assert(within((g.power)(w, y), (g.power)(p, y), 3real * (p - w)));
    } else {
        assert(within((g.power)(p, y), (g.power)(w, y), 3real * (w - p)));
    }
    assert(within(got, back, 3real / 1000000real));
}

proof fn lemma_lifted_low(f: real, p: real)
    by (nonlinear_arith)
    requires
        within(f, 1055real / 1000real, 12real / 100000000real),
        904727real / 10000000real <= p,
    ensures
        f * p >= 95448real / 1000000real,
        f * p <= 954505real / 10000000real ==> p <= 904747real / 10000000real,
{
}

/// A bright number that is dark when encoded lies next to 0.0031308.
proof fn lemma_between<T: Sample, A: Arithmetic>(
    ar: &A,
    g: Functions,
    v: real,
    l: Lifted,
    enc: T,
    r: Number,
)
    requires
        rough(ar, g),
        has_gamma(g),
        settled::<T, A>(ar),
        number_finite(enc.number()),
        313079real / 100000000real <= v <= 1real,
        is_lifted(g, v, l, value_of(enc)),
        value_of(enc) <= 40450001real / 1000000000real,
        evaluates(ar, decoding_curve::<T>(true, num(enc)), r),
    ensures
        number_finite(r),
        within(number_value(r), v, 1real / 100000real),
{
    let k = fixed::<T>(0x4029_d70a_3d70_a3d7);
    let (n, c) = lemma_operands(ar, Binary::Over, num(enc), k, r);
    assert(n == enc.number());
    let p = (g.power)(v, l.exponent);
    lemma_lifted_low(l.factor, l.power);
    assert(l.factor * l.power <= 954505real / 10000000real);
    assert(p <= 904749real / 10000000real);
    let y = 12real / 5real;
    assert(undone(g, l.exponent, y));
    let v0 = 31308real / 10000000real;
    let p0 = (g.power)(v0, l.exponent);
    assert(90473real / 1000000real <= p0 <= 904745real / 10000000real);
    assert(within((g.power)(p, y), v, 5real / 10000000real));
    assert(within((g.power)(p0, y), v0, 5real / 10000000real));
    if p <= p0 {
        assert(within((g.power)(p, y), (g.power)(p0, y), 3real * (p0 - p)));
    } else {
        assert(within((g.power)(p0, y), (g.power)(p, y), 3real * (p - p0)));
    }
    assert(v <= v0 + 68real / 10000000real);
    lemma_quotient_range(value_of(enc), number_value(c));
}

proof fn lemma_quotient_range(n: real, c: real)
    by (nonlinear_arith)
    requires
        40447real / 1000000real <= n <= 40450001real / 1000000000real,
        within(c, 1292real / 100real, 15real / 10000000real),
    ensures
        31305real / 10000000real <= n / c <= 3131real / 1000000real,
{
    let q = n / c;
    assert(q * c == n);
}

// ── The law ──────────────────────────────────────────────────────────────

proof fn lemma_given_back<T: Sample, A: Arithmetic>(ar: &A, g: Functions, x: T, enc: T, dec: T)
    requires
        rough(ar, g),
        has_gamma(g),
        settled::<T, A>(ar),
        number_finite(x.number()),
        0real <= value_of(x) <= 1real,
        evaluates(ar, srgb_encoded(x), enc.number()),
        evaluates(ar, srgb_decoded(enc), dec.number()),
    ensures
        number_finite(dec.number()),
        within(value_of(dec), value_of(x), 1real / 100000real),
{
    let dark = T::literal_value(0x3b4d_2e1c, 0x3f69_a5c3_7387_b719);
    let encoded = T::literal_value(0x3d25_aee6, 0x3fa4_b5dc_c63f_1412);
    if at_most(x, dark) {
        lemma_dark(ar, g, x, enc);
    } else {
        assert(value_of(x) > value_of(dark));
        let l = lemma_lifted(ar, g, x, enc.number());
        if at_most(enc, encoded) {
            lemma_between(ar, g, value_of(x), l, enc, dec.number());
        } else {
            lemma_bright(ar, g, value_of(x), l, enc, dec.number());
        }
    }
}

/// In double precision, decoding gives back what was encoded within 1e-5, for
/// every number from 0 to 1.
pub proof fn lemma_double_given_back<A: Arithmetic>(
    ar: &A,
    g: Functions,
    x: Double,
    enc: Double,
    dec: Double,
)
    requires
        rough(ar, g),
        has_gamma(g),
        x.finite(),
        0real <= double_value(x) <= 1real,
        evaluates(ar, srgb_encoded(x), enc.number()),
        evaluates(ar, srgb_decoded(enc), dec.number()),
    ensures
        dec.finite(),
        within(double_value(dec), double_value(x), 1real / 100000real),
{
    lemma_settled_doubles(ar);
    lemma_given_back(ar, g, x, enc, dec);
}

/// The same in single precision.
pub proof fn lemma_single_given_back<A: Arithmetic>(
    ar: &A,
    g: Functions,
    x: Single,
    enc: Single,
    dec: Single,
)
    requires
        rough(ar, g),
        has_gamma(g),
        x.finite(),
        0real <= single_value(x) <= 1real,
        evaluates(ar, srgb_encoded(x), enc.number()),
        evaluates(ar, srgb_decoded(enc), dec.number()),
    ensures
        dec.finite(),
        within(single_value(dec), single_value(x), 1real / 100000real),
{
    lemma_settled_singles(ar, g);
    lemma_given_back(ar, g, x, enc, dec);
}

} // verus!
