//! What a table of samples stands for: straight lines from one sample to the
//! next, and its ends beyond them.

use vstd::prelude::*;

use crate::arith::{at_most, double, evaluates, minus, over, times, Arithmetic, Sample};
use crate::bits::Double;
use crate::density_curves::{column, is_read, reads_channels};
use crate::exact::{double_value, exact, finite_leaves, Functions};
use crate::gamma::{number_finite, value_of};
use crate::grain_laws::finite_samples;
use crate::image::ImageBuf;
use crate::interp::{ascending, blend, bracketed, fraction, interpolates, is_reciprocal};
use crate::interp::{is_table, located, num, reads, CurveTable, Lookup, Side};
use crate::lossless::{lemma_lossless, lossless};
use crate::meter_laws::finite_image;
use crate::print_laws::finite_numbers;

verus! {

/// Numbers in ascending order, no two alike.
pub open spec fn rises(xs: spec_fn(int) -> real, n: int) -> bool {
    forall|i: int, j: int| 0 <= i < j < n ==> #[trigger] xs(i) < #[trigger] xs(j)
}

/// Where `q` lies between samples `j` and `j + 1`, `r` is on the line between
/// them.
pub open spec fn on_line(
    xs: spec_fn(int) -> real,
    ys: spec_fn(int) -> real,
    q: real,
    r: real,
    j: int,
) -> bool {
    xs(j) <= q <= xs(j + 1) ==> (r - ys(j)) * (xs(j + 1) - xs(j)) == (q - xs(j)) * (ys(j + 1)
        - ys(j))
}

/// `r` is the curve through `n` samples at `q`: on the line between the samples
/// around it, and the first or the last sample beyond them.
pub open spec fn is_on_curve(
    n: int,
    xs: spec_fn(int) -> real,
    ys: spec_fn(int) -> real,
    q: real,
    r: real,
) -> bool {
    &&& q <= xs(0) ==> r == ys(0)
    &&& xs(n - 1) <= q ==> r == ys(n - 1)
    &&& forall|j: int| 0 <= j < n - 1 ==> #[trigger] on_line(xs, ys, q, r, j)
}

/// At a sample the curve is the sample.
pub proof fn lemma_at_sample(
    n: int,
    xs: spec_fn(int) -> real,
    ys: spec_fn(int) -> real,
    q: real,
    r: real,
    i: int,
)
    requires
        rises(xs, n),
        is_on_curve(n, xs, ys, q, r),
        0 <= i < n,
        q == xs(i),
    ensures
        r == ys(i),
{
    if i < n - 1 {
        assert(xs(i) < xs(i + 1));
        assert(on_line(xs, ys, q, r, i));
        lemma_no_rise(r - ys(i), xs(i + 1) - xs(i), ys(i + 1) - ys(i));
    }
}

proof fn lemma_no_rise(d: real, w: real, h: real)
    by (nonlinear_arith)
    requires
        0real < w,
        d * w == 0real * h,
    ensures
        d == 0real,
{
}

/// A curve that does not fall is no lower at `q` than at a sample before it.
pub proof fn lemma_not_lower(
    n: int,
    xs: spec_fn(int) -> real,
    ys: spec_fn(int) -> real,
    q: real,
    r: real,
    i: int,
)
    requires
        rises(xs, n),
        forall|a: int, b: int| 0 <= a <= b < n ==> #[trigger] ys(a) <= #[trigger] ys(b),
        is_on_curve(n, xs, ys, q, r),
        0 <= i < n,
        xs(i) <= q,
    ensures
        ys(i) <= r,
{
    if xs(n - 1) <= q {
        assert(ys(i) <= ys(n - 1));
    } else {
        let j = lemma_around(n, xs, q, i);
        assert(ys(j) <= ys(j + 1));
        assert(ys(i) <= ys(j));
        assert(xs(j) < xs(j + 1));
        assert(on_line(xs, ys, q, r, j));
        lemma_line_rises(r - ys(j), xs(j + 1) - xs(j), q - xs(j), ys(j + 1) - ys(j));
    }
}

proof fn lemma_line_rises(d: real, w: real, t: real, h: real)
    by (nonlinear_arith)
    requires
        0real < w,
        0real <= t,
        0real <= h,
        d * w == t * h,
    ensures
        0real <= d,
{
}

/// A curve that does not rise is no higher at `q` than at a sample before it.
pub proof fn lemma_not_higher(
    n: int,
    xs: spec_fn(int) -> real,
    ys: spec_fn(int) -> real,
    q: real,
    r: real,
    i: int,
)
    requires
        rises(xs, n),
        forall|a: int, b: int| 0 <= a <= b < n ==> #[trigger] ys(b) <= #[trigger] ys(a),
        is_on_curve(n, xs, ys, q, r),
        0 <= i < n,
        xs(i) <= q,
    ensures
        r <= ys(i),
{
    if xs(n - 1) <= q {
        assert(ys(n - 1) <= ys(i));
    } else {
        let j = lemma_around(n, xs, q, i);
        assert(ys(j + 1) <= ys(j));
        assert(ys(j) <= ys(i));
        assert(xs(j) < xs(j + 1));
        assert(on_line(xs, ys, q, r, j));
        lemma_line_falls(r - ys(j), xs(j + 1) - xs(j), q - xs(j), ys(j + 1) - ys(j));
    }
}

proof fn lemma_line_falls(d: real, w: real, t: real, h: real)
    by (nonlinear_arith)
    requires
        0real < w,
        0real <= t,
        h <= 0real,
        d * w == t * h,
    ensures
        d <= 0real,
{
}

/// The samples around a place.
proof fn lemma_around(n: int, xs: spec_fn(int) -> real, q: real, i: int) -> (j: int)
    requires
        0 <= i < n,
        xs(i) <= q < xs(n - 1),
    ensures
        i <= j < n - 1,
        xs(j) <= q <= xs(j + 1),
    decreases n - i,
{
    if q <= xs(i + 1) && i + 1 < n {
        i
    } else {
        lemma_around(n, xs, q, i + 1)
    }
}

// ── From the tables ──────────────────────────────────────────────────────

proof fn lemma_curve_before(
    n: int,
    xs: spec_fn(int) -> real,
    ys: spec_fn(int) -> real,
    q: real,
)
    requires
        0 < n,
        rises(xs, n),
        q <= xs(0),
    ensures
        is_on_curve(n, xs, ys, q, ys(0)),
{
    assert forall|j: int| 0 <= j < n - 1 implies #[trigger] on_line(xs, ys, q, ys(0), j) by {
        if j > 0 {
            assert(xs(0) < xs(j));
        }
        lemma_nothing(xs(j + 1) - xs(j), ys(j + 1) - ys(j));
    }
    if n > 1 {
        assert(xs(0) < xs(n - 1));
    }
}

proof fn lemma_nothing(a: real, b: real)
    by (nonlinear_arith)
    ensures
        0real * a == 0real * b,
{
}

proof fn lemma_curve_at(
    n: int,
    xs: spec_fn(int) -> real,
    ys: spec_fn(int) -> real,
    q: real,
    i: int,
)
    requires
        0 <= i < n,
        rises(xs, n),
        q == xs(i) || (i == n - 1 && xs(i) <= q),
    ensures
        is_on_curve(n, xs, ys, q, ys(i)),
{
    if q <= xs(0) && i > 0 {
        assert(xs(0) < xs(i));
    }
    if i < n - 1 {
        assert(xs(i) < xs(n - 1));
    }
    assert forall|j: int| 0 <= j < n - 1 implies #[trigger] on_line(xs, ys, q, ys(i), j) by {
        if j > i {
            assert(xs(i) < xs(j));
        } else if j == i {
            lemma_nothing(xs(j + 1) - xs(j), ys(j + 1) - ys(j));
        } else if j + 1 < i {
            assert(xs(j + 1) < xs(i));
        } else {
            lemma_turned(ys(i) - ys(j), xs(i) - xs(j));
        }
    }
}

proof fn lemma_turned(a: real, b: real)
    by (nonlinear_arith)
    ensures
        a * b == b * a,
{
}

proof fn lemma_curve_between(
    n: int,
    xs: spec_fn(int) -> real,
    ys: spec_fn(int) -> real,
    q: real,
    r: real,
    i: int,
)
    requires
        0 <= i < n - 1,
        rises(xs, n),
        xs(i) <= q < xs(i + 1),
        r == ys(i) + ((q - xs(i)) / (xs(i + 1) - xs(i))) * (ys(i + 1) - ys(i)),
    ensures
        is_on_curve(n, xs, ys, q, r),
{
    let (w, t, h) = (xs(i + 1) - xs(i), q - xs(i), ys(i + 1) - ys(i));
    assert(xs(i) < xs(i + 1));
    assert(((t / w) * h) * w == t * h) by (nonlinear_arith)
        requires
            0real < w,
    {
        assert((t / w) * w == t);
    }
    if i > 0 {
        assert(xs(0) < xs(i));
    }
    if i + 1 < n - 1 {
        assert(xs(i + 1) < xs(n - 1));
    }
    if q <= xs(0) {
        assert(i == 0 && t == 0real);
        assert((0real / w) * h == 0real) by (nonlinear_arith)
            requires
                0real < w,
        {
            assert((0real / w) * w == 0real);
        }
    }
    assert forall|j: int|
        0 <= j < n - 1 && xs(j) <= q <= xs(j + 1) implies #[trigger] on_line(xs, ys, q, r, j) by {
        if j > i {
            if j > i + 1 {
                assert(xs(i + 1) < xs(j));
            }
        } else if j < i {
            if j + 1 < i {
                assert(xs(j + 1) < xs(i));
            }
            // only where the query is the sample between the two lines
            assert(j + 1 == i && t == 0real);
            assert((0real / w) * h == 0real) by (nonlinear_arith)
                requires
                    0real < w,
            {
                assert((0real / w) * w == 0real);
            }
            lemma_turned(ys(i) - ys(j), xs(i) - xs(j));
        }
    }
}

/// The places of a rising axis are in order.
proof fn lemma_ascending<T: Sample>(x: Seq<T>)
    requires
        finite_samples(x),
        rises(|i: int| value_of(x[i]), x.len() as int),
    ensures
        ascending(x),
{
    let xs = |i: int| value_of(x[i]);
    assert forall|i: int| 0 <= i < x.len() implies !(#[trigger] x[i]).is_no_number() by {
        x[i].lemma_places(x[i]);
    }
    assert forall|i: int, j: int| 0 <= i <= j < x.len() implies x[i].place() <= x[j].place() by {
        x[i].lemma_places(x[j]);
        if i < j {
            assert(xs(i) < xs(j));
        }
    }
}

proof fn lemma_fraction_read<T: Sample, A: Arithmetic>(
    ar: &A,
    g: Functions,
    x0: T,
    x1: T,
    y0: T,
    y1: T,
    xq: T,
    r: T,
)
    requires
        lossless(ar, g),
        number_finite(x0.number()) && number_finite(x1.number()),
        number_finite(y0.number()) && number_finite(y1.number()),
        number_finite(xq.number()),
        evaluates(ar, blend(num(y0), fraction(x0, x1, xq), num(y1)), r.number()),
    ensures
        number_finite(r.number()),
        value_of(r) == value_of(y0) + ((value_of(xq) - value_of(x0)) / (value_of(x1) - value_of(
            x0,
        ))) * (value_of(y1) - value_of(y0)),
{
    reveal_with_fuel(finite_leaves, 5);
    reveal_with_fuel(exact, 5);
    lemma_lossless(ar, g, blend(num(y0), fraction(x0, x1, xq), num(y1)), r.number());
}

proof fn lemma_reciprocal_read<T: Sample, A: Arithmetic>(
    ar: &A,
    g: Functions,
    x0: T,
    inv: T,
    y0: T,
    y1: T,
    xq: T,
    r: T,
)
    requires
        lossless(ar, g),
        number_finite(x0.number()) && number_finite(inv.number()),
        number_finite(y0.number()) && number_finite(y1.number()),
        number_finite(xq.number()),
        evaluates(
            ar,
            blend(num(y0), times(minus(num(xq), num(x0)), num(inv)), num(y1)),
            r.number(),
        ),
    ensures
        number_finite(r.number()),
        value_of(r) == value_of(y0) + ((value_of(xq) - value_of(x0)) * value_of(inv)) * (value_of(
            y1,
        ) - value_of(y0)),
{
    reveal_with_fuel(finite_leaves, 5);
    reveal_with_fuel(exact, 5);
    lemma_lossless(
        ar,
        g,
        blend(num(y0), times(minus(num(xq), num(x0)), num(inv)), num(y1)),
        r.number(),
    );
}

/// Without rounding, interpolating in a table gives the curve through its
/// samples.
pub proof fn lemma_interpolates<T: Sample, A: Arithmetic>(
    ar: &A,
    g: Functions,
    x: Seq<T>,
    y: Seq<T>,
    xq: T,
    r: T,
)
    requires
        lossless(ar, g),
        x.len() == y.len(),
        0 < x.len() <= usize::MAX,
        finite_samples(x),
        finite_samples(y),
        number_finite(xq.number()),
        rises(|i: int| value_of(x[i]), x.len() as int),
        interpolates(ar, x, y, xq, r),
    ensures
        number_finite(r.number()),
        is_on_curve(
            x.len() as int,
            |i: int| value_of(x[i]),
            |i: int| value_of(y[i]),
            value_of(xq),
            value_of(r),
        ),
{
    let n = x.len() as int;
    let xs = |i: int| value_of(x[i]);
    let ys = |i: int| value_of(y[i]);
    let q = value_of(xq);
    lemma_ascending(x);
    xq.lemma_places(xq);
    let at = choose|at: Lookup|
        at.within(x.len()) && (ascending(x) && !xq.is_no_number() ==> located(x, xq, at))
            && #[trigger] reads(ar, x, y, xq, at, r);
    assert(located(x, xq, at));
    x[0].lemma_places(xq);
    xq.lemma_places(x[0]);
    x[n - 1].lemma_places(xq);
    if n == 1 || at_most(xq, x[0]) {
        if q <= xs(0) {
            lemma_curve_before(n, xs, ys, q);
        } else {
            lemma_curve_at(n, xs, ys, q, 0);
        }
        assert(value_of(r) == ys(0));
    } else if at_most(x[n - 1], xq) {
        lemma_curve_at(n, xs, ys, q, n - 1);
        assert(value_of(r) == ys(n - 1));
    } else {
        match at {
            Lookup::At(i) => {
                x[i as int].lemma_places(xq);
                xq.lemma_places(x[i as int]);
                lemma_curve_at(n, xs, ys, q, i as int);
                assert(value_of(r) == ys(i as int));
            },
            Lookup::Between(i) => {
                let k = i as int;
                x[k].lemma_places(xq);
                xq.lemma_places(x[k + 1]);
                lemma_fraction_read(ar, g, x[k], x[k + 1], y[k], y[k + 1], xq, r);
                lemma_curve_between(n, xs, ys, q, value_of(r), k);
            },
        }
    }    assert(is_on_curve(n, xs, ys, q, value_of(r)));
}

/// The same of a table with the reciprocals of its intervals.
pub proof fn lemma_table_gives<T: Sample, A: Arithmetic>(
    ar: &A,
    g: Functions,
    t: CurveTable<T>,
    x: T,
    r: T,
)
    requires
        lossless(ar, g),
        t.valid(ar),
        finite_samples(t.axis@),
        finite_samples(t.values@),
        number_finite(x.number()),
        rises(|i: int| value_of(t.axis@[i]), t.axis@.len() as int),
        t.gives(ar, x, Side::Right, r),
    ensures
        number_finite(r.number()),
        is_on_curve(
            t.axis@.len() as int,
            |i: int| value_of(t.axis@[i]),
            |i: int| value_of(t.values@[i]),
            value_of(x),
            value_of(r),
        ),
{
    let n = t.axis@.len() as int;
    assert(t.axis.len() == n);
    let xs = |i: int| value_of(t.axis@[i]);
    let ys = |i: int| value_of(t.values@[i]);
    let q = value_of(x);
    lemma_ascending(t.axis@);
    x.lemma_places(x);
    let at = choose|at: Lookup|
        #[trigger] bracketed(t.axis@, x, Side::Right, at) && at.within(t.axis@.len()) && match at {
            Lookup::At(i) => r == t.values@[i as int],
            Lookup::Between(i) => evaluates(
                ar,
                blend(
                    num(t.values@[i as int]),
                    times(
                        minus(num(x), num(t.axis@[i as int])),
                        num(t.reciprocals@[i as int]),
                    ),
                    num(t.values@[i + 1]),
                ),
                r.number(),
            ),
        };
    t.axis@[0].lemma_places(x);
    x.lemma_places(t.axis@[0]);
    t.axis@[n - 1].lemma_places(x);
    if n == 1 || at_most(x, t.axis@[0]) {
        if q <= xs(0) {
            lemma_curve_before(n, xs, ys, q);
        } else {
            lemma_curve_at(n, xs, ys, q, 0);
        }
        assert(value_of(r) == ys(0));
    } else if at_most(t.axis@[n - 1], x) {
        lemma_curve_at(n, xs, ys, q, n - 1);
        assert(value_of(r) == ys(n - 1));
    } else {
        match at {
            Lookup::At(_) => {},
            Lookup::Between(i) => {
                let k = i as int;
                t.axis@[k].lemma_places(x);
                t.axis@[k + 1].lemma_places(x);
                x.lemma_places(t.axis@[k + 1]);
                assert(xs(k) < xs(k + 1));
                assert(is_reciprocal(ar, t.axis@[k], t.axis@[k + 1], t.reciprocals@[k]));
                lemma_reciprocal(ar, g, t.axis@[k], t.axis@[k + 1], t.reciprocals@[k]);
                lemma_reciprocal_read(
                    ar,
                    g,
                    t.axis@[k],
                    t.reciprocals@[k],
                    t.values@[k],
                    t.values@[k + 1],
                    x,
                    r,
                );
                let w = xs(k + 1) - xs(k);
                let d = q - xs(k);
                assert(d * (1real / w) == d / w) by (nonlinear_arith)
                    requires
                        0real < w,
                ;
                lemma_curve_between(n, xs, ys, q, value_of(r), k);
            },
        }
    }    assert(is_on_curve(n, xs, ys, q, value_of(r)));
}

proof fn lemma_reciprocal<T: Sample, A: Arithmetic>(ar: &A, g: Functions, x0: T, x1: T, r: T)
    requires
        lossless(ar, g),
        number_finite(x0.number()),
        number_finite(x1.number()),
        value_of(x0) < value_of(x1),
        is_reciprocal(ar, x0, x1, r),
    ensures
        number_finite(r.number()),
        value_of(r) == 1real / (value_of(x1) - value_of(x0)),
{
    let dx = choose|dx: T|
        #[trigger] evaluates(ar, minus(num(x1), num(x0)), dx.number()) && if !dx.is_no_number()
            && dx.place() == 0 {
            r == T::zero_value()
        } else {
            evaluates(ar, over(num(T::one_value()), num(dx)), r.number())
        };
    reveal_with_fuel(finite_leaves, 2);
    reveal_with_fuel(exact, 2);
    lemma_lossless(ar, g, minus(num(x1), num(x0)), dx.number());
    T::lemma_zero();
    T::lemma_one();
    dx.lemma_places(T::zero_value());
    T::zero_value().lemma_places(dx);
    lemma_lossless(ar, g, over(num(T::one_value()), num(dx)), r.number());
}

/// Without rounding, an image that is read from curves over an axis holds the
/// curve of each channel at each of its numbers.
pub proof fn lemma_read<T: Sample, A: Arithmetic>(
    ar: &A,
    g: Functions,
    img: ImageBuf<T>,
    axis: Seq<Double>,
    curves: Seq<[Double; 3]>,
    r: ImageBuf<T>,
    i: int,
)
    requires
        lossless(ar, g),
        finite_image(img),
        finite_numbers(axis),
        finite_numbers(column(curves, i % 3)),
        axis.len() == curves.len(),
        axis.len() > 0,
        rises(|k: int| double_value(axis[k]), axis.len() as int),
        is_read(ar, img, axis, curves, r),
        0 <= i < img.data@.len(),
    ensures
        number_finite(r.data@[i].number()),
        is_on_curve(
            axis.len() as int,
            |k: int| double_value(axis[k]),
            |k: int| double_value(curves[k]@[i % 3]),
            value_of(img.data@[i]),
            value_of(r.data@[i]),
        ),
{
    let (t0, t1, t2) = choose|t0: CurveTable<T>, t1: CurveTable<T>, t2: CurveTable<T>|
        {
            &&& is_table(ar, axis, column(curves, 0), t0)
            &&& is_table(ar, axis, column(curves, 1), t1)
            &&& is_table(ar, axis, column(curves, 2), t2)
            &&& #[trigger] reads_channels(ar, img.data@, t0, t1, t2, r.data@)
        };
    let t = if i % 3 == 0 {
        t0
    } else if i % 3 == 1 {
        t1
    } else {
        t2
    };
    let col = column(curves, i % 3);
    assert(is_table(ar, axis, col, t));
    assert(t.gives(ar, img.data@[i], Side::Right, r.data@[i]));
    let n = axis.len() as int;
    assert forall|k: int| 0 <= k < n implies number_finite((#[trigger] t.axis@[k]).number())
        && value_of(t.axis@[k]) == double_value(axis[k]) by {
        t.axis@[k].lemma_forms(g, double(axis[k]));
        T::lemma_stored(g, double(axis[k]));
        assert(evaluates(ar, T::stored(double(axis[k])), t.axis@[k].number()));
        lemma_lossless(ar, g, T::stored(double(axis[k])), t.axis@[k].number());
    }
    assert forall|k: int| 0 <= k < n implies number_finite((#[trigger] t.values@[k]).number())
        && value_of(t.values@[k]) == double_value(col[k]) by {
        t.values@[k].lemma_forms(g, double(col[k]));
        T::lemma_stored(g, double(col[k]));
        assert(evaluates(ar, T::stored(double(col[k])), t.values@[k].number()));
        lemma_lossless(ar, g, T::stored(double(col[k])), t.values@[k].number());
    }
    let xs = |k: int| value_of(t.axis@[k]);
    let ax = |k: int| double_value(axis[k]);
    assert forall|a: int, b: int| 0 <= a < b < n implies #[trigger] xs(a) < #[trigger] xs(b) by {
        assert(ax(a) < ax(b));
    }
    lemma_table_gives(ar, g, t, img.data@[i], r.data@[i]);
    let ys = |k: int| value_of(t.values@[k]);
    let cs = |k: int| double_value(curves[k]@[i % 3]);
    let (q, v) = (value_of(img.data@[i]), value_of(r.data@[i]));
    assert(xs(0) == ax(0) && xs(n - 1) == ax(n - 1));
    assert(ys(0) == cs(0) && ys(n - 1) == cs(n - 1));
    assert forall|j: int| 0 <= j < n - 1 implies #[trigger] on_line(ax, cs, q, v, j) by {
        assert(on_line(xs, ys, q, v, j));
        assert(xs(j) == ax(j) && xs(j + 1) == ax(j + 1));
        assert(ys(j) == cs(j) && ys(j + 1) == cs(j + 1));
    }
}

/// A curve depends on the numbers of its samples alone.
pub proof fn lemma_same_curve(
    n: int,
    xs: spec_fn(int) -> real,
    ys: spec_fn(int) -> real,
    ax: spec_fn(int) -> real,
    cs: spec_fn(int) -> real,
    q: real,
    r: real,
)
    requires
        0 < n,
        is_on_curve(n, xs, ys, q, r),
        forall|i: int| 0 <= i < n ==> #[trigger] xs(i) == ax(i),
        forall|i: int| 0 <= i < n ==> #[trigger] ys(i) == cs(i),
    ensures
        is_on_curve(n, ax, cs, q, r),
{
    assert(xs(0) == ax(0) && xs(n - 1) == ax(n - 1));
    assert(ys(0) == cs(0) && ys(n - 1) == cs(n - 1));
    assert forall|j: int| 0 <= j < n - 1 implies #[trigger] on_line(ax, cs, q, r, j) by {
        assert(on_line(xs, ys, q, r, j));
        assert(xs(j) == ax(j) && xs(j + 1) == ax(j + 1));
        assert(ys(j) == cs(j) && ys(j + 1) == cs(j + 1));
    }
}

} // verus!
