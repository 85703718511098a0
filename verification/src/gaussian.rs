//! Separable blurs: which samples a filter reads, and the two passes over
//! the rows and the columns.

use vstd::prelude::*;

use crate::arith::{at_most, constant, evaluates, is_single, minus, narrow, over, plus};
use crate::arith::{rounds_to, single, sum_from, times, unary, widen};
use crate::arith::{Arithmetic, Formula, Rounding, Sample, Traced, Unary};
use crate::bits::{Double, Single};
use crate::exact::{exact, lemma_small_numbers, lemma_sum_scaled, Functions};
use crate::image::{channel_of, ImageBuf};
use crate::interp::num;
use crate::index::{lemma_row_major_bound, lemma_row_major_injective};

verus! {

/// Encoding of 3 in double precision: blurs up to it use a finite kernel,
/// wider ones a recursive filter.
pub const SMALL_SIGMA_MAX: u64 = 0x4008_0000_0000_0000;

/// The same in single precision.
pub const SINGLE_SIGMA_MAX: u32 = 0x4040_0000;

/// The sample under tap `k` of a kernel of the given radius, centred on `x`:
/// beyond an end, the end sample.
pub open spec fn tap(x: int, k: int, radius: int, len: int) -> int {
    let s = x + k - radius;
    if s < 0 {
        0
    } else if s >= len {
        len - 1
    } else {
        s
    }
}

pub fn clamped_tap(x: usize, k: usize, radius: usize, len: usize) -> (r: usize)
    requires
        x < len <= isize::MAX,
        radius <= isize::MAX,
        k <= isize::MAX,
    ensures
        r == tap(x as int, k as int, radius as int, len as int),
        r < len,
{
    if k < radius {
        let back: usize = radius - k;
        if x < back {
            0
        } else {
            x - back
        }
    } else {
        let forward: usize = k - radius;
        if forward < len - x {
            x + forward
        } else {
            len - 1
        }
    }
}

/// Away from the ends the taps are the samples around the centre, and the
/// centre tap is the sample itself.
pub proof fn lemma_tap(x: int, k: int, radius: int, len: int)
    requires
        0 <= x < len,
        0 <= k <= 2 * radius,
    ensures
        0 <= tap(x, k, radius, len) < len,
        tap(x, radius, radius, len) == x,
        radius <= x && x + radius < len ==> tap(x, k, radius, len) == x - radius + k,
{
}

// ── A finite kernel ──────────────────────────────────────────────────────

/// A double with an encoding, brought to the precision of `T`.
pub open spec fn fixed<T: Sample>(bits: u64) -> Formula {
    T::stored(constant(bits))
}

/// A double with an encoding, brought to the precision of `T`.
pub fn fixed_number<T: Sample, A: Arithmetic>(ar: &A, bits: u64) -> (r: Traced<T>)
    ensures
        r.holds(ar),
        r.formula@ == fixed::<T>(bits),
{
    let x: Traced<Double> = Traced::constant(ar, bits);
    T::store(ar, x)
}

/// A whole number, brought to the precision of `T`.
pub open spec fn counted<T: Sample>(n: u64) -> Formula {
    T::stored(Formula::Whole(n))
}

fn counted_number<T: Sample, A: Arithmetic>(ar: &A, n: u64) -> (r: Traced<T>)
    ensures
        r.holds(ar),
        r.formula@ == counted::<T>(n),
{
    let x: Traced<Double> = Traced::whole(ar, n);
    T::store(ar, x)
}

/// The radius of a kernel is `3 sigma + 1/2`, rounded down; a narrow blur's
/// is at most this.
pub const MAX_RADIUS: u64 = 9;

/// `radius` is the kernel radius for a width.
pub open spec fn is_radius<T: Sample, A: Arithmetic>(ar: &A, sigma: T, radius: int) -> bool {
    exists|reach: T, n: i64|
        {
            &&& evaluates(
                ar,
                plus(
                    times(fixed::<T>(SMALL_SIGMA_MAX), num(sigma)),
                    fixed::<T>(0x3fe0_0000_0000_0000),
                ),
                reach.number(),
            )
            &&& #[trigger] rounds_to(ar, Rounding::Down, reach.fetched(), n)
            &&& radius == if n < 0 {
                0
            } else if n > MAX_RADIUS {
                MAX_RADIUS as int
            } else {
                n as int
            }
        }
}

/// The kernel radius for a width.
pub fn kernel_radius<T: Sample, A: Arithmetic>(ar: &A, sigma: T) -> (r: usize)
    ensures
        is_radius(ar, sigma, r as int),
        r <= MAX_RADIUS,
{
    let s: Traced<T> = Traced::new(ar, sigma);
    let three: Traced<T> = fixed_number(ar, SMALL_SIGMA_MAX);
    let half: Traced<T> = fixed_number(ar, 0x3fe0_0000_0000_0000);
    let reach = three.times(ar, s).plus(ar, half).value;
    let n: i64 = reach.fetch(ar).rounded(ar, Rounding::Down);
    assert(rounds_to(ar, Rounding::Down, reach.fetched(), n));
    if n < 0 {
        0
    } else if n as u64 > MAX_RADIUS {
        MAX_RADIUS as usize
    } else {
        n as usize
    }
}

/// The bell curve at tap `i`, before it is normalised.
pub open spec fn bell<T: Sample>(sigma: T, radius: u64, i: u64) -> Formula {
    let x = minus(counted::<T>(i), counted::<T>(radius));
    unary(
        Unary::Exp,
        over(
            times(unary(Unary::Negate, x), x),
            times(times(fixed::<T>(0x4000_0000_0000_0000), num(sigma)), num(sigma)),
        ),
    )
}

fn bell_at<T: Sample, A: Arithmetic>(ar: &A, sigma: T, radius: u64, i: u64) -> (r: T)
    ensures
        evaluates(ar, bell(sigma, radius, i), r.number()),
{
    let s: Traced<T> = Traced::new(ar, sigma);
    let two: Traced<T> = fixed_number(ar, 0x4000_0000_0000_0000);
    let s2 = two.times(ar, s).times(ar, s);
    let at: Traced<T> = counted_number(ar, i);
    let mid: Traced<T> = counted_number(ar, radius);
    let x = at.minus(ar, mid);
    x.unary(ar, Unary::Negate).times(ar, x).over(ar, s2).unary(ar, Unary::Exp).value
}

/// The sum of numbers, from zero and from the left.
pub open spec fn total<T: Sample>(xs: Seq<T>, n: int) -> Formula {
    sum_from(num(T::zero_value()), |k: int| num(xs[k]), n)
}

/// `kernel` is the bell curve over `2 radius + 1` taps, divided by its sum.
pub open spec fn is_kernel<T: Sample, A: Arithmetic>(
    ar: &A,
    sigma: T,
    radius: int,
    kernel: Seq<T>,
) -> bool {
    exists|raw: Seq<T>, whole: T|
        {
            &&& raw.len() == 2 * radius + 1
            &&& forall|i: int|
                0 <= i < raw.len() ==> evaluates(
                    ar,
                    bell(sigma, radius as u64, i as u64),
                    (#[trigger] raw[i]).number(),
                )
            &&& #[trigger] evaluates(ar, total(raw, raw.len() as int), whole.number())
            &&& kernel.len() == raw.len()
            &&& forall|i: int|
                0 <= i < raw.len() ==> evaluates(
                    ar,
                    over(num(raw[i]), num(whole)),
                    (#[trigger] kernel[i]).number(),
                )
        }
}

/// The normalised kernel of a radius.
pub fn make_gaussian_kernel<T: Sample, A: Arithmetic>(ar: &A, sigma: T, radius: usize) -> (r: Vec<
    T,
>)
    requires
        2 * radius + 1 <= usize::MAX,
    ensures
        is_kernel(ar, sigma, radius as int, r@),
{
    let size: usize = 2 * radius + 1;
    let mut raw: Vec<T> = Vec::new();
    let mut i: usize = 0;
    while i < size
        invariant
            i <= size,
            raw@.len() == i,
            forall|k: int|
                0 <= k < i ==> evaluates(
                    ar,
                    bell(sigma, radius as u64, k as u64),
                    (#[trigger] raw@[k]).number(),
                ),
        decreases size - i,
    {
        let v = bell_at(ar, sigma, radius as u64, i as u64);
        raw.push(v);
        i += 1;
    }
    let whole: Traced<T> = sum_of(ar, &raw);
    let mut r: Vec<T> = Vec::new();
    let mut j: usize = 0;
    while j < size
        invariant
            j <= size,
            raw@.len() == size,
            r@.len() == j,
            forall|k: int|
                0 <= k < j ==> evaluates(
                    ar,
                    over(num(raw@[k]), num(whole.value)),
                    (#[trigger] r@[k]).number(),
                ),
        decreases size - j,
    {
        let v: Traced<T> = Traced::new(ar, raw[j]);
        r.push(v.over(ar, Traced::new(ar, whole.value)).value);
        j += 1;
    }
    proof {
        assert(evaluates(ar, total(raw@, raw@.len() as int), whole.value.number()));
    }
    r
}

fn sum_of<T: Sample, A: Arithmetic>(ar: &A, xs: &Vec<T>) -> (r: Traced<T>)
    ensures
        r.holds(ar),
        r.formula@ == total(xs@, xs@.len() as int),
{
    let mut sum: Traced<T> = Traced::new(ar, T::zero());
    let mut i: usize = 0;
    while i < xs.len()
        invariant
            i <= xs@.len(),
            sum.holds(ar),
            sum.formula@ == total(xs@, i as int),
        decreases xs.len() - i,
    {
        sum = sum.plus(ar, Traced::new(ar, xs[i]));
        i += 1;
    }
    sum
}

/// The weighted samples around `x`, added up in the order of the taps.
pub open spec fn weighted<T: Sample>(line: Seq<T>, kernel: Seq<T>, x: int, n: int) -> Formula {
    sum_from(
        num(T::zero_value()),
        |k: int|
            times(
                num(line[tap(x, k, (kernel.len() - 1) / 2, line.len() as int)]),
                num(kernel[k]),
            ),
        n,
    )
}

/// `r` is a line filtered by a finite kernel.
pub open spec fn is_fir_line<T: Sample, A: Arithmetic>(
    ar: &A,
    kernel: Seq<T>,
    line: Seq<T>,
    r: Seq<T>,
) -> bool {
    &&& r.len() == line.len()
    &&& forall|x: int|
        0 <= x < line.len() ==> evaluates(
            ar,
            weighted(line, kernel, x, kernel.len() as int),
            (#[trigger] r[x]).number(),
        )
}

/// A finite kernel applied to a line.
pub fn fir_line<T: Sample, A: Arithmetic>(ar: &A, kernel: &Vec<T>, line: &Vec<T>) -> (r: Vec<T>)
    requires
        line@.len() <= isize::MAX,
        kernel@.len() % 2 == 1,
        kernel@.len() <= isize::MAX,
    ensures
        is_fir_line(ar, kernel@, line@, r@),
{
    let radius: usize = (kernel.len() - 1) / 2;
    let mut r: Vec<T> = Vec::new();
    let mut x: usize = 0;
    while x < line.len()
        invariant
            x <= line@.len(),
            line@.len() <= isize::MAX,
            kernel@.len() % 2 == 1,
            kernel@.len() <= isize::MAX,
            radius == (kernel@.len() - 1) / 2,
            r@.len() == x,
            forall|p: int|
                0 <= p < x ==> evaluates(
                    ar,
                    weighted(line@, kernel@, p, kernel@.len() as int),
                    (#[trigger] r@[p]).number(),
                ),
        decreases line.len() - x,
    {
        let mut sum: Traced<T> = Traced::new(ar, T::zero());
        let mut k: usize = 0;
        while k < kernel.len()
            invariant
                k <= kernel@.len(),
                x < line@.len() <= isize::MAX,
                kernel@.len() <= isize::MAX,
                radius == (kernel@.len() - 1) / 2,
                sum.holds(ar),
                sum.formula@ == weighted(line@, kernel@, x as int, k as int),
            decreases kernel.len() - k,
        {
            let s: usize = clamped_tap(x, k, radius, line.len());
            let sample: Traced<T> = Traced::new(ar, line[s]);
            let term = sample.times(ar, Traced::new(ar, kernel[k]));
            sum = sum.plus(ar, term);
            k += 1;
        }
        r.push(sum.value);
        x += 1;
    }
    r
}

// ── Light under a finite kernel ──────────────────────────────────────────

proof fn lemma_shares(a: real, whole: real)
    by (nonlinear_arith)
    requires
        whole != 0real,
    ensures
        a / whole == (1real / whole) * a,
        (1real / whole) * whole == 1real,
{
}

/// Without rounding, the weights of a kernel add up to 1.
pub proof fn lemma_kernel_sum<T: Sample>(g: Functions, raw: Seq<T>, n: int)
    requires
        exact(g, total(raw, n)) != 0real,
    ensures
        exact(
            g,
            sum_from(num(T::zero_value()), |k: int| over(num(raw[k]), total(raw, n)), n),
        ) == 1real,
{
    T::lemma_zero();
    let whole = exact(g, total(raw, n));
    let f = |k: int| over(num(raw[k]), total(raw, n));
    let h = |k: int| num(raw[k]);
    assert forall|i: int| 0 <= i < n implies exact(g, #[trigger] f(i)) == (1real / whole) * exact(
        g,
        h(i),
    ) by {
        lemma_shares(exact(g, num(raw[i])), whole);
    }
    lemma_shares(whole, whole);
    lemma_sum_scaled(g, num(T::zero_value()), f, h, 1real / whole, n);
    assert(total(raw, n) == sum_from(num(T::zero_value()), h, n));
}

/// Without rounding, a kernel whose weights add up to 1 leaves an even line
/// as it is.
pub proof fn lemma_even_line<T: Sample>(
    g: Functions,
    line: Seq<T>,
    kernel: Seq<T>,
    x: int,
    v: real,
)
    requires
        0 <= x < line.len(),
        forall|i: int| 0 <= i < line.len() ==> exact(g, num(#[trigger] line[i])) == v,
        exact(g, total(kernel, kernel.len() as int)) == 1real,
    ensures
        exact(g, weighted(line, kernel, x, kernel.len() as int)) == v,
{
    T::lemma_zero();
    let n = kernel.len() as int;
    let radius = (kernel.len() - 1) / 2;
    let f = |k: int| times(num(line[tap(x, k, radius, line.len() as int)]), num(kernel[k]));
    let h = |k: int| num(kernel[k]);
    assert forall|i: int| 0 <= i < n implies exact(g, #[trigger] f(i)) == v * exact(g, h(i)) by {
        assert(exact(g, num(line[tap(x, i, radius, line.len() as int)])) == v);
    }
    lemma_sum_scaled(g, num(T::zero_value()), f, h, v, n);
    assert(total(kernel, n) == sum_from(num(T::zero_value()), h, n));
    assert(weighted(line, kernel, x, n) == sum_from(num(T::zero_value()), f, n));
}

// ── A recursive filter ───────────────────────────────────────────────────

/// Weights of a recursive filter: of the sample and of the three latest
/// outputs.
#[derive(Clone, Copy)]
pub struct Recursive<T> {
    pub a: T,
    pub b1: T,
    pub b2: T,
    pub b3: T,
}

/// The shape parameter of the filter: 2.5 and up it is linear in the width.
pub open spec fn shape<T: Sample>(sigma: T) -> Formula {
    if at_most(T::literal_value(0x4020_0000, 0x4004_0000_0000_0000), sigma) {
        // 0.98711 and 0.96330
        minus(
            times(fixed::<T>(0x3fef_9667_b5f1_bef5), num(sigma)),
            fixed::<T>(0x3fee_d35a_8587_93de),
        )
    } else {
        // 3.97156, 4.14554 and 0.26891
        minus(
            fixed::<T>(0x400f_c5c1_3fd0_d068),
            times(
                fixed::<T>(0x4010_9508_7011_0a13),
                unary(
                    Unary::SquareRoot,
                    minus(
                        fixed::<T>(0x3ff0_0000_0000_0000),
                        times(fixed::<T>(0x3fd1_35d2_49e4_4fa0), num(sigma)),
                    ),
                ),
            ),
        )
    }
}

fn shape_of<T: Sample, A: Arithmetic>(ar: &A, sigma: T) -> (r: Traced<T>)
    ensures
        r.holds(ar),
        r.formula@ == shape(sigma),
{
    let s: Traced<T> = Traced::new(ar, sigma);
    let limit = T::literal(0x4020_0000, 0x4004_0000_0000_0000);
    if limit.le(sigma) {
        let slope: Traced<T> = fixed_number(ar, 0x3fef_9667_b5f1_bef5);
        let offset: Traced<T> = fixed_number(ar, 0x3fee_d35a_8587_93de);
        slope.times(ar, s).minus(ar, offset)
    } else {
        let top: Traced<T> = fixed_number(ar, 0x400f_c5c1_3fd0_d068);
        let factor: Traced<T> = fixed_number(ar, 0x4010_9508_7011_0a13);
        let one: Traced<T> = fixed_number(ar, 0x3ff0_0000_0000_0000);
        let rate: Traced<T> = fixed_number(ar, 0x3fd1_35d2_49e4_4fa0);
        let root = one.minus(ar, rate.times(ar, s)).unary(ar, Unary::SquareRoot);
        top.minus(ar, factor.times(ar, root))
    }
}

/// The normaliser, in powers of the shape parameter.
pub open spec fn weight0<T: Sample>(q: Formula) -> Formula {
    // 1.57825, 2.44413, 1.4281 and 0.422205
    plus(
        plus(
            plus(
                fixed::<T>(0x3ff9_4083_126e_978d),
                times(fixed::<T>(0x4003_8d94_0789_613d), q),
            ),
            times(fixed::<T>(0x3ff6_d97f_62b6_ae7d), times(q, q)),
        ),
        times(fixed::<T>(0x3fdb_0568_1ecd_4aa1), times(times(q, q), q)),
    )
}

pub open spec fn weight1<T: Sample>(q: Formula) -> Formula {
    // 2.44413, 2.85619 and 1.26661
    over(
        plus(
            plus(
                times(fixed::<T>(0x4003_8d94_0789_613d), q),
                times(fixed::<T>(0x4006_d97a_2489_4c44), times(q, q)),
            ),
            times(fixed::<T>(0x3ff4_4408_d8ec_95c0), times(times(q, q), q)),
        ),
        weight0::<T>(q),
    )
}

pub open spec fn weight2<T: Sample>(q: Formula) -> Formula {
    // 1.4281 and 1.26661
    over(
        unary(
            Unary::Negate,
            plus(
                times(fixed::<T>(0x3ff6_d97f_62b6_ae7d), times(q, q)),
                times(fixed::<T>(0x3ff4_4408_d8ec_95c0), times(times(q, q), q)),
            ),
        ),
        weight0::<T>(q),
    )
}

pub open spec fn weight3<T: Sample>(q: Formula) -> Formula {
    // 0.422205
    over(
        times(fixed::<T>(0x3fdb_0568_1ecd_4aa1), times(times(q, q), q)),
        weight0::<T>(q),
    )
}

/// The weight of the sample: what the others leave of 1.
pub open spec fn weight<T: Sample>(q: Formula) -> Formula {
    minus(
        minus(minus(fixed::<T>(0x3ff0_0000_0000_0000), weight1::<T>(q)), weight2::<T>(q)),
        weight3::<T>(q),
    )
}

/// `f` holds the filter weights for a width.
pub open spec fn is_recursive<T: Sample, A: Arithmetic>(ar: &A, sigma: T, f: Recursive<T>) -> bool {
    let q = shape(sigma);
    &&& evaluates(ar, weight1::<T>(q), f.b1.number())
    &&& evaluates(ar, weight2::<T>(q), f.b2.number())
    &&& evaluates(ar, weight3::<T>(q), f.b3.number())
    &&& evaluates(ar, weight::<T>(q), f.a.number())
}

/// The filter weights for a width.
pub fn recursive_filter<T: Sample, A: Arithmetic>(ar: &A, sigma: T) -> (r: Recursive<T>)
    ensures
        is_recursive(ar, sigma, r),
{
    let q = shape_of(ar, sigma);
    let q2 = q.times(ar, q);
    let q3 = q2.times(ar, q);
    let k1: Traced<T> = fixed_number(ar, 0x4003_8d94_0789_613d);
    let k2: Traced<T> = fixed_number(ar, 0x3ff6_d97f_62b6_ae7d);
    let k3: Traced<T> = fixed_number(ar, 0x3fdb_0568_1ecd_4aa1);
    let k0: Traced<T> = fixed_number(ar, 0x3ff9_4083_126e_978d);
    let m2: Traced<T> = fixed_number(ar, 0x4006_d97a_2489_4c44);
    let m3: Traced<T> = fixed_number(ar, 0x3ff4_4408_d8ec_95c0);
    let b0 = k0.plus(ar, k1.times(ar, q)).plus(ar, k2.times(ar, q2)).plus(ar, k3.times(ar, q3));
    let b1 = k1.times(ar, q).plus(ar, m2.times(ar, q2)).plus(ar, m3.times(ar, q3)).over(ar, b0);
    let b2 = k2.times(ar, q2).plus(ar, m3.times(ar, q3)).unary(ar, Unary::Negate).over(ar, b0);
    let b3 = k3.times(ar, q3).over(ar, b0);
    let one: Traced<T> = fixed_number(ar, 0x3ff0_0000_0000_0000);
    let a = one.minus(ar, b1).minus(ar, b2).minus(ar, b3);
    Recursive { a: a.value, b1: b1.value, b2: b2.value, b3: b3.value }
}

/// The state of a recursive filter `back` steps ago; before the first step
/// the line's end sample stands for it.
pub open spec fn earlier<T>(done: Seq<T>, j: int, back: int, edge: T) -> T {
    if j - back < 0 {
        edge
    } else {
        done[j - back]
    }
}

/// One step: the sample and the three latest outputs, newest first.
pub open spec fn recursive_step<T: Sample>(f: Recursive<T>, s: T, w1: T, w2: T, w3: T) -> Formula {
    plus(
        plus(
            plus(times(num(f.a), num(s)), times(num(f.b1), num(w1))),
            times(num(f.b2), num(w2)),
        ),
        times(num(f.b3), num(w3)),
    )
}

fn step_once<T: Sample, A: Arithmetic>(ar: &A, f: &Recursive<T>, s: T, w1: T, w2: T, w3: T) -> (r:
    T)
    ensures
        evaluates(ar, recursive_step(*f, s, w1, w2, w3), r.number()),
{
    let a: Traced<T> = Traced::new(ar, f.a);
    let b1: Traced<T> = Traced::new(ar, f.b1);
    let b2: Traced<T> = Traced::new(ar, f.b2);
    let b3: Traced<T> = Traced::new(ar, f.b3);
    let t0 = a.times(ar, Traced::new(ar, s));
    let t1 = b1.times(ar, Traced::new(ar, w1));
    let t2 = b2.times(ar, Traced::new(ar, w2));
    let t3 = b3.times(ar, Traced::new(ar, w3));
    t0.plus(ar, t1).plus(ar, t2).plus(ar, t3).value
}

proof fn lemma_four_shares(a: real, b1: real, b2: real, b3: real, v: real)
    by (nonlinear_arith)
    requires
        a + b1 + b2 + b3 == 1real,
    ensures
        a * v + b1 * v + b2 * v + b3 * v == v,
{
}

/// Without rounding, a recursive filter whose weights add up to 1 goes on
/// with an even line as it is.
pub proof fn lemma_even_step<T: Sample>(
    g: Functions,
    f: Recursive<T>,
    s: T,
    w1: T,
    w2: T,
    w3: T,
)
    requires
        exact(g, num(f.a)) + exact(g, num(f.b1)) + exact(g, num(f.b2)) + exact(g, num(f.b3))
            == 1real,
        exact(g, num(w1)) == exact(g, num(s)),
        exact(g, num(w2)) == exact(g, num(s)),
        exact(g, num(w3)) == exact(g, num(s)),
    ensures
        exact(g, recursive_step(f, s, w1, w2, w3)) == exact(g, num(s)),
{
    lemma_four_shares(
        exact(g, num(f.a)),
        exact(g, num(f.b1)),
        exact(g, num(f.b2)),
        exact(g, num(f.b3)),
        exact(g, num(s)),
    );
    reveal_with_fuel(exact, 5);
}

/// Without rounding, the weights of a recursive filter add up to 1.
pub proof fn lemma_weights_sum<T: Sample>(g: Functions, q: Formula)
    ensures
        exact(g, weight::<T>(q)) + exact(g, weight1::<T>(q)) + exact(g, weight2::<T>(q)) + exact(
            g,
            weight3::<T>(q),
        ) == 1real,
{
    lemma_small_numbers();
    T::lemma_stored(g, constant(0x3ff0_0000_0000_0000));
    let one = fixed::<T>(0x3ff0_0000_0000_0000);
    let left = minus(one, weight1::<T>(q));
    assert(exact(g, one) == 1real);
    assert(exact(g, left) == 1real - exact(g, weight1::<T>(q)));
    assert(exact(g, minus(left, weight2::<T>(q))) == exact(g, left) - exact(g, weight2::<T>(q)));
}

/// `done` is the recursive filter run over `line` from its first sample.
pub open spec fn recursion<T: Sample, A: Arithmetic>(
    ar: &A,
    f: Recursive<T>,
    line: Seq<T>,
    done: Seq<T>,
) -> bool {
    &&& done.len() == line.len()
    &&& forall|j: int|
        0 <= j < line.len() ==> evaluates(
            ar,
            recursive_step(
                f,
                line[j],
                earlier(done, j, 1, line[0]),
                earlier(done, j, 2, line[0]),
                earlier(done, j, 3, line[0]),
            ),
            (#[trigger] done[j]).number(),
        )
}

/// `r` is a line filtered recursively: once from the first sample to the
/// last, and once over the result from the last to the first, each time with
/// the end sample repeated before the line.
pub open spec fn is_iir_line<T: Sample, A: Arithmetic>(
    ar: &A,
    f: Recursive<T>,
    line: Seq<T>,
    r: Seq<T>,
) -> bool {
    r.len() == line.len() && exists|forward: Seq<T>| #[trigger]
        recursion(ar, f, line, forward) && recursion(ar, f, forward.reverse(), r.reverse())
}

/// A recursive filter applied to a line.
pub fn iir_line<T: Sample, A: Arithmetic>(ar: &A, f: &Recursive<T>, line: &Vec<T>) -> (r: Vec<T>)
    ensures
        is_iir_line(ar, *f, line@, r@),
{
    let forward = recurse(ar, f, line);
    let back = reversed(&forward);
    let done = recurse(ar, f, &back);
    let r = reversed(&done);
    assert(r@.reverse() =~= done@);
    assert(recursion(ar, *f, line@, forward@));
    r
}

fn reversed<T: Copy>(v: &Vec<T>) -> (r: Vec<T>)
    ensures
        r@ == v@.reverse(),
{
    let mut r: Vec<T> = Vec::new();
    let mut i: usize = v.len();
    while i > 0
        invariant
            i <= v@.len(),
            r@ == v@.reverse().subrange(0, v@.len() - i),
        decreases i,
    {
        i -= 1;
        r.push(v[i]);
        assert(r@ =~= v@.reverse().subrange(0, v@.len() - i));
    }
    assert(r@ =~= v@.reverse());
    r
}

fn recurse<T: Sample, A: Arithmetic>(ar: &A, f: &Recursive<T>, line: &Vec<T>) -> (r: Vec<T>)
    ensures
        recursion(ar, *f, line@, r@),
{
    let mut r: Vec<T> = Vec::new();
    if line.len() == 0 {
        return r;
    }
    let mut w1: T = line[0];
    let mut w2: T = line[0];
    let mut w3: T = line[0];
    let mut j: usize = 0;
    while j < line.len()
        invariant
            j <= line@.len(),
            line@.len() > 0,
            r@.len() == j,
            w1 == earlier(r@, j as int, 1, line@[0]),
            w2 == earlier(r@, j as int, 2, line@[0]),
            w3 == earlier(r@, j as int, 3, line@[0]),
            forall|i: int|
                0 <= i < j ==> evaluates(
                    ar,
                    recursive_step(
                        *f,
                        line@[i],
                        earlier(r@, i, 1, line@[0]),
                        earlier(r@, i, 2, line@[0]),
                        earlier(r@, i, 3, line@[0]),
                    ),
                    (#[trigger] r@[i]).number(),
                ),
        decreases line.len() - j,
    {
        let w = step_once(ar, f, line[j], w1, w2, w3);
        let ghost before = r@;
        r.push(w);
        proof {
            assert forall|i: int| 0 <= i < j + 1 implies evaluates(
                ar,
                recursive_step(
                    *f,
                    line@[i],
                    earlier(r@, i, 1, line@[0]),
                    earlier(r@, i, 2, line@[0]),
                    earlier(r@, i, 3, line@[0]),
                ),
                (#[trigger] r@[i]).number(),
            ) by {
                assert(earlier(r@, i, 1, line@[0]) == earlier(before, i, 1, line@[0]));
                assert(earlier(r@, i, 2, line@[0]) == earlier(before, i, 2, line@[0]));
                assert(earlier(r@, i, 3, line@[0]) == earlier(before, i, 3, line@[0]));
                if i < j {
                    assert(r@[i] == before[i]);
                }
            }
        }
        w3 = w2;
        w2 = w1;
        w1 = w;
        j += 1;
    }
    r
}

// ── Passes over a channel ────────────────────────────────────────────────

/// Row `y` of a channel of width `w`.
pub open spec fn row_of<T>(data: Seq<T>, w: nat, y: int) -> Seq<T> {
    Seq::new(w, |x: int| data[y * w + x])
}

/// Column `x` of a channel of width `w` and height `h`.
pub open spec fn column_of<T>(data: Seq<T>, w: nat, h: nat, x: int) -> Seq<T> {
    Seq::new(h, |y: int| data[y * w + x])
}

/// `filter` takes every line of `len` samples and gives as many.
pub open spec fn keeps_length<T, F: Fn(&Vec<T>) -> Vec<T>>(filter: F, len: nat) -> bool {
    &&& forall|l: Vec<T>| l@.len() == len ==> #[trigger] call_requires(filter, (&l,))
    &&& forall|l: Vec<T>, o: Vec<T>|
        l@.len() == len && #[trigger] call_ensures(filter, (&l,), o) ==> o@.len() == len
}

/// `after` is `filter` of `before`.
pub open spec fn filtered<T, F: Fn(&Vec<T>) -> Vec<T>>(
    filter: F,
    before: Seq<T>,
    after: Seq<T>,
) -> bool {
    exists|l: Vec<T>, o: Vec<T>| #[trigger]
        call_ensures(filter, (&l,), o) && l@ == before && o@ == after
}

/// Filters every row of a channel.
pub fn blur_rows<T: Copy, F: Fn(&Vec<T>) -> Vec<T>>(src: &[T], w: usize, h: usize, filter: &F) -> (r:
    Vec<T>)
    requires
        src@.len() == w * h,
        keeps_length(*filter, w as nat),
    ensures
        r@.len() == src@.len(),
        forall|y: int|
            0 <= y < h ==> filtered(
                *filter,
                #[trigger] row_of(src@, w as nat, y),
                row_of(r@, w as nat, y),
            ),
{
    let total: usize = src.len();
    let mut r: Vec<T> = Vec::new();
    let mut y: usize = 0;
    while y < h
        invariant
            y <= h,
            total == src@.len(),
            src@.len() == w * h,
            keeps_length(*filter, w as nat),
            r@.len() == y * w,
            forall|p: int|
                0 <= p < y ==> filtered(
                    *filter,
                    #[trigger] row_of(src@, w as nat, p),
                    row_of(r@, w as nat, p),
                ),
        decreases h - y,
    {
        proof {
            assert(y * w + w <= w * h) by (nonlinear_arith)
                requires
                    y < h,
                    0 <= w,
            ;
            assert(0 <= y * w) by (nonlinear_arith);
        }
        let start: usize = y * w;
        let mut line: Vec<T> = Vec::new();
        let mut x: usize = 0;
        while x < w
            invariant
                x <= w,
                start == y * w,
                start + w <= total,
                total == src@.len(),
                line@ == row_of(src@, w as nat, y as int).subrange(0, x as int),
            decreases w - x,
        {
            line.push(src[start + x]);
            x += 1;
            assert(line@ =~= row_of(src@, w as nat, y as int).subrange(0, x as int));
        }
        assert(line@ =~= row_of(src@, w as nat, y as int));
        let out = filter(&line);
        let ghost before = r@;
        let mut tail: Vec<T> = out;
        let ghost filtered_line = tail@;
        assert(call_ensures(*filter, (&line,), tail));
        let ghost out_value = tail;
        r.append(&mut tail);
        proof {
            assert(row_of(r@, w as nat, y as int) =~= filtered_line) by {
                assert forall|x: int| 0 <= x < w implies row_of(r@, w as nat, y as int)[x]
                    == filtered_line[x] by {
                    assert(r@[y * w + x] == filtered_line[x]);
                }
            }
            assert(call_ensures(*filter, (&line,), out_value));
            assert(filtered(
                *filter,
                row_of(src@, w as nat, y as int),
                row_of(r@, w as nat, y as int),
            ));
            assert forall|p: int| 0 <= p < y implies filtered(
                *filter,
                #[trigger] row_of(src@, w as nat, p),
                row_of(r@, w as nat, p),
            ) by {
                assert(row_of(r@, w as nat, p) =~= row_of(before, w as nat, p)) by {
                    assert forall|x: int| 0 <= x < w implies row_of(r@, w as nat, p)[x] == row_of(
                        before,
                        w as nat,
                        p,
                    )[x] by {
                        lemma_row_major_bound(p, y as int, x, w as int);
                    }
                }
            }
            assert((y + 1) * w == y * w + w) by (nonlinear_arith);
        }
        y += 1;
    }
    assert(h * w == w * h) by (nonlinear_arith);
    r
}

/// Filters every column of a channel.
pub fn blur_columns<T: Copy, F: Fn(&Vec<T>) -> Vec<T>>(
    src: &[T],
    w: usize,
    h: usize,
    filter: &F,
) -> (r: Vec<T>)
    requires
        src@.len() == w * h,
        keeps_length(*filter, h as nat),
    ensures
        r@.len() == src@.len(),
        forall|x: int|
            0 <= x < w ==> filtered(
                *filter,
                #[trigger] column_of(src@, w as nat, h as nat, x),
                column_of(r@, w as nat, h as nat, x),
            ),
{
    let total: usize = src.len();
    let mut r: Vec<T> = copy_of(src);
    let mut x: usize = 0;
    while x < w
        invariant
            x <= w,
            total == src@.len(),
            total == w * h,
            r@.len() == total,
            keeps_length(*filter, h as nat),
            forall|p: int|
                0 <= p < x ==> filtered(
                    *filter,
                    #[trigger] column_of(src@, w as nat, h as nat, p),
                    column_of(r@, w as nat, h as nat, p),
                ),
        decreases w - x,
    {
        let mut line: Vec<T> = Vec::new();
        let mut y: usize = 0;
        while y < h
            invariant
                x < w,
                y <= h,
                total == src@.len(),
                total == w * h,
                line@ == column_of(src@, w as nat, h as nat, x as int).subrange(0, y as int),
            decreases h - y,
        {
            proof {
                lemma_row_major_bound(y as int, h as int, x as int, w as int);
                assert(h * w == w * h) by (nonlinear_arith);
            }
            line.push(src[y * w + x]);
            y += 1;
            assert(line@ =~= column_of(src@, w as nat, h as nat, x as int).subrange(0, y as int));
        }
        assert(line@ =~= column_of(src@, w as nat, h as nat, x as int));
        let out = filter(&line);
        assert(call_ensures(*filter, (&line,), out));
        let ghost before = r@;
        let mut y: usize = 0;
        while y < h
            invariant
                x < w,
                y <= h,
                total == w * h,
                r@.len() == total,
                before.len() == total,
                out@.len() == h,
                forall|p: int, q: int|
                    0 <= p < w && 0 <= q < h ==> r@[#[trigger] (q * w + p)] == if p == x && q < y {
                        out@[q]
                    } else {
                        before[q * w + p]
                    },
            decreases h - y,
        {
            proof {
                lemma_row_major_bound(y as int, h as int, x as int, w as int);
                assert(h * w == w * h) by (nonlinear_arith);
            }
            let ghost prev = r@;
            r.set(y * w + x, out[y]);
            proof {
                assert forall|p: int, q: int| 0 <= p < w && 0 <= q < h implies r@[#[trigger] (q * w
                    + p)] == if p == x && q < y + 1 {
                    out@[q]
                } else {
                    before[q * w + p]
                } by {
                    lemma_row_major_bound(q, h as int, p, w as int);
                    assert(prev[q * w + p] == if p == x && q < y {
                        out@[q]
                    } else {
                        before[q * w + p]
                    });
                    if q * w + p == y * w + x {
                        lemma_row_major_injective(q, p, y as int, x as int, w as int);
                    }
                }
            }
            y += 1;
        }
        proof {
            assert(column_of(r@, w as nat, h as nat, x as int) =~= out@) by {
                assert forall|q: int| 0 <= q < h implies column_of(
                    r@,
                    w as nat,
                    h as nat,
                    x as int,
                )[q] == out@[q] by {
                    assert(r@[q * w + x] == out@[q]);
                }
            }
            assert(filtered(
                *filter,
                column_of(src@, w as nat, h as nat, x as int),
                column_of(r@, w as nat, h as nat, x as int),
            ));
            assert forall|p: int| 0 <= p < x implies filtered(
                *filter,
                #[trigger] column_of(src@, w as nat, h as nat, p),
                column_of(r@, w as nat, h as nat, p),
            ) by {
                assert(column_of(r@, w as nat, h as nat, p) =~= column_of(
                    before,
                    w as nat,
                    h as nat,
                    p,
                )) by {
                    assert forall|q: int| 0 <= q < h implies column_of(
                        r@,
                        w as nat,
                        h as nat,
                        p,
                    )[q] == column_of(before, w as nat, h as nat, p)[q] by {
                        assert(r@[q * w + p] == before[q * w + p]);
                    }
                }
            }
        }
        x += 1;
    }
    r
}

fn copy_of<T: Copy>(v: &[T]) -> (r: Vec<T>)
    ensures
        r@ == v@,
{
    let mut r: Vec<T> = Vec::new();
    let mut i: usize = 0;
    while i < v.len()
        invariant
            i <= v@.len(),
            r@ == v@.subrange(0, i as int),
        decreases v.len() - i,
    {
        r.push(v[i]);
        i += 1;
        assert(r@ =~= v@.subrange(0, i as int));
    }
    assert(r@ =~= v@);
    r
}

/// `after` is a channel filtered along its rows and then along its columns.
pub open spec fn blurred_channel<T, F: Fn(&Vec<T>) -> Vec<T>>(
    filter: F,
    w: nat,
    h: nat,
    before: Seq<T>,
    after: Seq<T>,
) -> bool {
    exists|mid: Seq<T>| #[trigger]
        rows_filtered(filter, w, h, before, mid) && columns_filtered(filter, w, h, mid, after)
}

pub open spec fn rows_filtered<T, F: Fn(&Vec<T>) -> Vec<T>>(
    filter: F,
    w: nat,
    h: nat,
    before: Seq<T>,
    after: Seq<T>,
) -> bool {
    after.len() == before.len() && forall|y: int|
        0 <= y < h ==> filtered(filter, #[trigger] row_of(before, w, y), row_of(after, w, y))
}

pub open spec fn columns_filtered<T, F: Fn(&Vec<T>) -> Vec<T>>(
    filter: F,
    w: nat,
    h: nat,
    before: Seq<T>,
    after: Seq<T>,
) -> bool {
    after.len() == before.len() && forall|x: int|
        0 <= x < w ==> filtered(
            filter,
            #[trigger] column_of(before, w, h, x),
            column_of(after, w, h, x),
        )
}

/// `after` is `before` with a relation of lines applied along the rows, and
/// along the columns of the result.
pub open spec fn two_passes<T>(
    line: spec_fn(Seq<T>, Seq<T>) -> bool,
    w: nat,
    h: nat,
    before: Seq<T>,
    after: Seq<T>,
) -> bool {
    after.len() == before.len() && exists|mid: Seq<T>|
        {
            &&& mid.len() == before.len()
            &&& forall|y: int|
                0 <= y < h ==> line(#[trigger] row_of(before, w, y), row_of(mid, w, y))
            &&& forall|x: int|
                0 <= x < w ==> line(
                    #[trigger] column_of(mid, w, h, x),
                    column_of(after, w, h, x),
                )
        }
}

proof fn lemma_two_passes<T, F: Fn(&Vec<T>) -> Vec<T>>(
    filter: F,
    line: spec_fn(Seq<T>, Seq<T>) -> bool,
    w: nat,
    h: nat,
    before: Seq<T>,
    after: Seq<T>,
)
    requires
        forall|l: Vec<T>, o: Vec<T>| #[trigger]
            call_ensures(filter, (&l,), o) ==> line(l@, o@),
        blurred_channel(filter, w, h, before, after),
        after.len() == before.len(),
    ensures
        two_passes(line, w, h, before, after),
{
    let mid = choose|mid: Seq<T>| #[trigger]
        rows_filtered(filter, w, h, before, mid) && columns_filtered(filter, w, h, mid, after);
    assert forall|y: int| 0 <= y < h implies line(
        #[trigger] row_of(before, w, y),
        row_of(mid, w, y),
    ) by {
        assert(filtered(filter, row_of(before, w, y), row_of(mid, w, y)));
        let (l, o) = choose|l: Vec<T>, o: Vec<T>| #[trigger]
            call_ensures(filter, (&l,), o) && l@ == row_of(before, w, y) && o@ == row_of(
                mid,
                w,
                y,
            );
    }
    assert forall|x: int| 0 <= x < w implies line(
        #[trigger] column_of(mid, w, h, x),
        column_of(after, w, h, x),
    ) by {
        assert(filtered(filter, column_of(mid, w, h, x), column_of(after, w, h, x)));
        let (l, o) = choose|l: Vec<T>, o: Vec<T>| #[trigger]
            call_ensures(filter, (&l,), o) && l@ == column_of(mid, w, h, x) && o@ == column_of(
                after,
                w,
                h,
                x,
            );
    }
}

fn two_pass_filter<T: Copy, F: Fn(&Vec<T>) -> Vec<T>>(data: &[T], w: u32, h: u32, filter: &F) -> (r:
    Vec<T>)
    requires
        data@.len() == w * h,
        keeps_length(*filter, w as nat),
        keeps_length(*filter, h as nat),
    ensures
        r@.len() == data@.len(),
        blurred_channel(*filter, w as nat, h as nat, data@, r@),
{
    let mid = blur_rows(data, w as usize, h as usize, filter);
    let r = blur_columns(mid.as_slice(), w as usize, h as usize, filter);
    assert(rows_filtered(*filter, w as nat, h as nat, data@, mid@));
    assert(columns_filtered(*filter, w as nat, h as nat, mid@, r@));
    r
}

/// The lines that a finite kernel gives.
pub open spec fn fir_relation<T: Sample, A: Arithmetic>(ar: &A, kernel: Seq<T>) -> spec_fn(
    Seq<T>,
    Seq<T>,
) -> bool {
    |l: Seq<T>, o: Seq<T>| is_fir_line(ar, kernel, l, o)
}

/// The lines that a recursive filter gives.
pub open spec fn iir_relation<T: Sample, A: Arithmetic>(ar: &A, f: Recursive<T>) -> spec_fn(
    Seq<T>,
    Seq<T>,
) -> bool {
    |l: Seq<T>, o: Seq<T>| is_iir_line(ar, f, l, o)
}

/// `after` is a channel blurred by a width: nothing happens up to 0, a finite
/// kernel serves widths up to 3 and a recursive filter the others.
pub open spec fn is_blurred<T: Sample, A: Arithmetic>(
    ar: &A,
    w: nat,
    h: nat,
    sigma: Single,
    before: Seq<T>,
    after: Seq<T>,
) -> bool {
    if sigma.at_most(Single { bits: 0 }) {
        after == before
    } else {
        exists|s: T| #[trigger]
            evaluates(ar, T::extended(single(sigma)), s.number()) && blurred_by(
                ar,
                w,
                h,
                s,
                before,
                after,
            )
    }
}

/// A blur of no width changes nothing.
pub proof fn lemma_no_blur<T: Sample, A: Arithmetic>(
    ar: &A,
    w: nat,
    h: nat,
    sigma: Single,
    before: Seq<T>,
    after: Seq<T>,
)
    requires
        sigma.at_most(Single { bits: 0 }),
    ensures
        is_blurred(ar, w, h, sigma, before, after) <==> after == before,
{
}

/// `after` is a channel blurred by a width above 0.
pub open spec fn blurred_by<T: Sample, A: Arithmetic>(
    ar: &A,
    w: nat,
    h: nat,
    s: T,
    before: Seq<T>,
    after: Seq<T>,
) -> bool {
    if at_most(s, T::literal_value(SINGLE_SIGMA_MAX, SMALL_SIGMA_MAX)) {
        exists|radius: int, kernel: Seq<T>|
            is_radius(ar, s, radius) && #[trigger] is_kernel(ar, s, radius, kernel) && two_passes(
                fir_relation(ar, kernel),
                w,
                h,
                before,
                after,
            )
    } else {
        exists|f: Recursive<T>| #[trigger]
            is_recursive(ar, s, f) && two_passes(iir_relation(ar, f), w, h, before, after)
    }
}

/// Blurs one channel by a width in pixels.
pub fn gaussian_blur_channel<T: Sample, A: Arithmetic>(
    ar: &A,
    data: &Vec<T>,
    w: u32,
    h: u32,
    sigma: Single,
) -> (r: Vec<T>)
    requires
        data@.len() == w * h,
        w <= isize::MAX,
        h <= isize::MAX,
    ensures
        r@.len() == data@.len(),
        is_blurred(ar, w as nat, h as nat, sigma, data@, r@),
{
    if sigma.is_at_most(Single { bits: 0 }) {
        return copy_of(data.as_slice());
    }
    let given: Traced<Single> = Traced::new(ar, sigma);
    let s: T = T::extend(ar, given).value;
    assert(evaluates(ar, T::extended(single(sigma)), s.number()));
    if s.le(T::literal(SINGLE_SIGMA_MAX, SMALL_SIGMA_MAX)) {
        let radius: usize = kernel_radius(ar, s);
        let kernel = make_gaussian_kernel(ar, s, radius);
        let filter = |line: &Vec<T>| -> (o: Vec<T>)
            requires
                line@.len() <= isize::MAX,
                kernel@.len() % 2 == 1,
                kernel@.len() <= isize::MAX,
            ensures
                is_fir_line(ar, kernel@, line@, o@),
            { fir_line(ar, &kernel, line) };
        let r = two_pass_filter(data.as_slice(), w, h, &filter);
        proof {
            lemma_two_passes(
                filter,
                fir_relation(ar, kernel@),
                w as nat,
                h as nat,
                data@,
                r@,
            );
            assert(is_kernel(ar, s, radius as int, kernel@));
        }
        r
    } else {
        let f = recursive_filter(ar, s);
        let filter = |line: &Vec<T>| -> (o: Vec<T>)
            ensures
                is_iir_line(ar, f, line@, o@),
            { iir_line(ar, &f, line) };
        let r = two_pass_filter(data.as_slice(), w, h, &filter);
        proof {
            lemma_two_passes(filter, iir_relation(ar, f), w as nat, h as nat, data@, r@);
            assert(is_recursive(ar, s, f));
        }
        r
    }
}

/// Blurs every channel of an image by itself.
pub fn gaussian_blur<T: Sample, A: Arithmetic>(ar: &A, img: &ImageBuf<T>, sigma: Single) -> (r:
    ImageBuf<T>)
    requires
        img.valid(),
        img.width <= isize::MAX,
        img.height <= isize::MAX,
    ensures
        r.width == img.width,
        r.height == img.height,
        r.valid(),
        forall|c: int|
            0 <= c < 3 ==> is_blurred(
                ar,
                img.width as nat,
                img.height as nat,
                sigma,
                #[trigger] channel_of(img.data@, c),
                channel_of(r.data@, c),
            ),
{
    let c0 = img.extract_channel(0);
    let c1 = img.extract_channel(1);
    let c2 = img.extract_channel(2);
    proof {
        assert(c0@ =~= channel_of(img.data@, 0));
        assert(c1@ =~= channel_of(img.data@, 1));
        assert(c2@ =~= channel_of(img.data@, 2));
    }
    let b0 = gaussian_blur_channel(ar, &c0, img.width, img.height, sigma);
    let b1 = gaussian_blur_channel(ar, &c1, img.width, img.height, sigma);
    let b2 = gaussian_blur_channel(ar, &c2, img.width, img.height, sigma);
    ImageBuf::from_channels(img.width, img.height, b0.as_slice(), b1.as_slice(), b2.as_slice())
}

// ── An exponential tail ──────────────────────────────────────────────────

/// Width of the `k`th blur of the tail, for a decay length: 0.5360, 1.5236
/// and 2.7684 times it.
pub open spec fn tail_width(k: int, decay: Single) -> Formula {
    narrow(
        times(
            constant(
                if k == 0 {
                    0x3fe1_26e9_78d4_fdf4
                } else if k == 1 {
                    0x3ff8_60aa_64c2_f838
                } else {
                    0x4006_25ae_e631_f8a1
                },
            ),
            widen(single(decay)),
        ),
    )
}

/// Three blurs added up with the shares 0.1633, 0.6496 and 0.1870.
pub open spec fn tail_sum<T: Sample>(x0: T, x1: T, x2: T) -> Formula {
    plus(
        plus(
            plus(num(T::zero_value()), times(fixed::<T>(0x3fc4_e703_afb7_e910), num(x0))),
            times(fixed::<T>(0x3fe4_c985_f06f_6944), num(x1)),
        ),
        times(fixed::<T>(0x3fc7_ef9d_b22d_0e56), num(x2)),
    )
}

/// `p` is one of the three blurs.
pub open spec fn is_tail_part<T: Sample, A: Arithmetic>(
    ar: &A,
    w: nat,
    h: nat,
    k: int,
    decay: Single,
    before: Seq<T>,
    p: Seq<T>,
) -> bool {
    p.len() == before.len() && exists|s: Single| #[trigger]
        is_single(ar, tail_width(k, decay), s) && is_blurred(ar, w, h, s, before, p)
}

/// `after` is a channel spread with an exponential tail.
pub open spec fn is_exponential<T: Sample, A: Arithmetic>(
    ar: &A,
    w: nat,
    h: nat,
    decay: Single,
    before: Seq<T>,
    after: Seq<T>,
) -> bool {
    after.len() == before.len() && exists|p0: Seq<T>, p1: Seq<T>, p2: Seq<T>|
        {
            &&& #[trigger] is_tail_part(ar, w, h, 0, decay, before, p0)
            &&& #[trigger] is_tail_part(ar, w, h, 1, decay, before, p1)
            &&& #[trigger] is_tail_part(ar, w, h, 2, decay, before, p2)
            &&& forall|i: int|
                0 <= i < after.len() ==> evaluates(
                    ar,
                    tail_sum(p0[i], p1[i], p2[i]),
                    (#[trigger] after[i]).number(),
                )
        }
}

fn tail_part<T: Sample, A: Arithmetic>(
    ar: &A,
    data: &Vec<T>,
    w: u32,
    h: u32,
    k: u32,
    ratio: u64,
    decay: Single,
) -> (r: Vec<T>)
    requires
        data@.len() == w * h,
        w <= isize::MAX,
        h <= isize::MAX,
        k < 3,
        constant(ratio) == (if k == 0 {
            constant(0x3fe1_26e9_78d4_fdf4)
        } else if k == 1 {
            constant(0x3ff8_60aa_64c2_f838)
        } else {
            constant(0x4006_25ae_e631_f8a1)
        }),
    ensures
        is_tail_part(ar, w as nat, h as nat, k as int, decay, data@, r@),
{
    let d: Traced<Single> = Traced::new(ar, decay);
    let c: Traced<Double> = Traced::constant(ar, ratio);
    let s = c.times(ar, d.widen(ar)).narrow(ar).value;
    assert(is_single(ar, tail_width(k as int, decay), s));
    gaussian_blur_channel(ar, data, w, h, s)
}

fn tail_sum_of<T: Sample, A: Arithmetic>(ar: &A, x0: T, x1: T, x2: T) -> (r: T)
    ensures
        evaluates(ar, tail_sum(x0, x1, x2), r.number()),
{
    let zero: Traced<T> = Traced::new(ar, T::zero());
    let a0: Traced<T> = fixed_number(ar, 0x3fc4_e703_afb7_e910);
    let a1: Traced<T> = fixed_number(ar, 0x3fe4_c985_f06f_6944);
    let a2: Traced<T> = fixed_number(ar, 0x3fc7_ef9d_b22d_0e56);
    let t0 = a0.times(ar, Traced::new(ar, x0));
    let t1 = a1.times(ar, Traced::new(ar, x1));
    let t2 = a2.times(ar, Traced::new(ar, x2));
    zero.plus(ar, t0).plus(ar, t1).plus(ar, t2).value
}

/// Spreads one channel with an exponential tail, made of three blurs.
pub fn exponential_filter_channel<T: Sample, A: Arithmetic>(
    ar: &A,
    data: &Vec<T>,
    w: u32,
    h: u32,
    decay_constant: Single,
) -> (r: Vec<T>)
    requires
        data@.len() == w * h,
        w <= isize::MAX,
        h <= isize::MAX,
    ensures
        is_exponential(ar, w as nat, h as nat, decay_constant, data@, r@),
{
    let p0 = tail_part(ar, data, w, h, 0, 0x3fe1_26e9_78d4_fdf4, decay_constant);
    let p1 = tail_part(ar, data, w, h, 1, 0x3ff8_60aa_64c2_f838, decay_constant);
    let p2 = tail_part(ar, data, w, h, 2, 0x4006_25ae_e631_f8a1, decay_constant);
    let mut r: Vec<T> = Vec::new();
    let mut i: usize = 0;
    while i < data.len()
        invariant
            i <= data@.len(),
            p0@.len() == data@.len(),
            p1@.len() == data@.len(),
            p2@.len() == data@.len(),
            r@.len() == i,
            forall|k: int|
                0 <= k < i ==> evaluates(
                    ar,
                    tail_sum(p0@[k], p1@[k], p2@[k]),
                    (#[trigger] r@[k]).number(),
                ),
        decreases data.len() - i,
    {
        let v = tail_sum_of(ar, p0[i], p1[i], p2[i]);
        r.push(v);
        i += 1;
    }
    proof {
        assert(is_tail_part(ar, w as nat, h as nat, 0, decay_constant, data@, p0@));
        assert(is_tail_part(ar, w as nat, h as nat, 1, decay_constant, data@, p1@));
        assert(is_tail_part(ar, w as nat, h as nat, 2, decay_constant, data@, p2@));
    }
    r
}

} // verus!
