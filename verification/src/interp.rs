//! Linear interpolation in tables of samples.

use vstd::prelude::*;

use crate::arith::{Arithmetic, Formula, Rounding, Sample, Traced};
use crate::arith::{at_most, below, double, evaluates, is_single, minus, narrow, over, plus};
use crate::arith::{rounds_to, single, times, widen};
use crate::bits::{Double, Single};
use crate::image::ImageBuf;

verus! {

/// The samples that a query is read from.
#[derive(Clone, Copy, Debug, PartialEq, Eq, Structural)]
pub enum Lookup {
    /// One sample as it is.
    At(usize),
    /// A blend of this sample and the next.
    Between(usize),
}

impl Lookup {
    /// The samples exist in a table of `n`.
    pub open spec fn within(self, n: nat) -> bool {
        match self {
            Lookup::At(i) => i < n,
            Lookup::Between(i) => i + 1 < n,
        }
    }
}

/// The axis holds numbers, in ascending order.
pub open spec fn ascending<T: Sample>(axis: Seq<T>) -> bool {
    &&& forall|i: int| 0 <= i < axis.len() ==> !(#[trigger] axis[i]).is_no_number()
    &&& forall|i: int, j: int| 0 <= i <= j < axis.len() ==> axis[i].place() <= axis[j].place()
}

/// Which neighbour an axis value that equals the query belongs to.
#[derive(Clone, Copy, Debug, PartialEq, Eq, Structural)]
pub enum Side {
    /// The equal value is the upper neighbour.
    Left,
    /// The equal value is the lower neighbour.
    Right,
}

/// The axis value counts as lying below the query.
pub open spec fn counts_below<T: Sample>(v: T, x: T, side: Side) -> bool {
    match side {
        Side::Left => below(v, x),
        Side::Right => at_most(v, x),
    }
}

fn is_counted<T: Sample>(v: T, x: T, side: Side) -> (r: bool)
    ensures
        r == counts_below(v, x, side),
{
    match side {
        Side::Left => v.lt(x),
        Side::Right => v.le(x),
    }
}

/// How many axis values lie below the query: on an ascending axis the values
/// that do come first.
pub fn partition_point<T: Sample>(axis: &[T], x: T, side: Side) -> (r: usize)
    ensures
        r <= axis@.len(),
        ascending(axis@) ==> forall|i: int|
            0 <= i < r ==> counts_below(#[trigger] axis@[i], x, side),
        ascending(axis@) ==> forall|i: int|
            r <= i < axis@.len() ==> !counts_below(#[trigger] axis@[i], x, side),
{
    let mut low: usize = 0;
    let mut high: usize = axis.len();
    while low < high
        invariant
            low <= high <= axis@.len(),
            ascending(axis@) ==> forall|i: int|
                0 <= i < low ==> counts_below(#[trigger] axis@[i], x, side),
            ascending(axis@) ==> forall|i: int|
                high <= i < axis@.len() ==> !counts_below(#[trigger] axis@[i], x, side),
        decreases high - low,
    {
        let mid: usize = low + (high - low) / 2;
        proof {
            if ascending(axis@) {
                assert(!axis@[mid as int].is_no_number());
            }
        }
        if is_counted(axis[mid], x, side) {
            low = mid + 1;
        } else {
            high = mid;
        }
    }
    low
}

/// Where the query falls among the axis values. At or before the first, and
/// at or after the last, the end sample is taken as it is; a query that is
/// no number falls into the first interval. An axis of one value has its one
/// sample for every query.
pub open spec fn bracketed<T: Sample>(axis: Seq<T>, x: T, side: Side, r: Lookup) -> bool {
    let last = axis.len() - 1;
    if axis.len() == 1 || at_most(x, axis[0]) {
        r == Lookup::At(0)
    } else if at_most(axis[last], x) {
        r == Lookup::At(last as usize)
    } else {
        match r {
            Lookup::At(_) => false,
            Lookup::Between(i) => {
                &&& i < last
                &&& ascending(axis) && x.is_no_number() ==> i == 0
                &&& ascending(axis) && !x.is_no_number() ==> counts_below(axis[i as int], x, side)
                    && !counts_below(axis[i + 1], x, side)
            },
        }
    }
}

/// Finds the samples for a query in a table over a common axis. On an axis
/// that is not ascending, a query between its ends gets some interval.
pub fn bracket<T: Sample>(axis: &[T], x: T, side: Side) -> (r: Lookup)
    requires
        axis@.len() > 0,
    ensures
        bracketed(axis@, x, side, r),
        r.within(axis@.len()),
{
    let k: usize = axis.len();
    if k == 1 || x.le(axis[0]) {
        Lookup::At(0)
    } else if axis[k - 1].le(x) {
        Lookup::At(k - 1)
    } else {
        let idx: usize = partition_point(axis, x, side);
        let low: usize = if idx > 0 {
            idx - 1
        } else {
            0
        };
        let low: usize = if low > k - 2 {
            k - 2
        } else {
            low
        };
        proof {
            if ascending(axis@) {
                assert(!axis@[0].is_no_number() && !axis@[k - 1].is_no_number());
                if x.is_no_number() {
                    if idx > 0 {
                        assert(counts_below(axis@[0], x, side));
                    }
                } else {
                    if idx == 0 {
                        assert(!counts_below(axis@[0], x, side));
                    }
                    if idx == k {
                        assert(counts_below(axis@[k - 1], x, side));
                    }
                    assert(counts_below(axis@[low as int], x, side));
                    assert(!counts_below(axis@[idx as int], x, side));
                }
            }
        }
        Lookup::Between(low)
    }
}

/// Over an ascending axis the bracket of a number is the only one.
pub proof fn lemma_bracket_unique<T: Sample>(
    axis: Seq<T>,
    x: T,
    side: Side,
    a: Lookup,
    b: Lookup,
)
    requires
        ascending(axis),
        axis.len() > 0,
        !x.is_no_number(),
        bracketed(axis, x, side, a),
        bracketed(axis, x, side, b),
    ensures
        a == b,
{
    if let Lookup::Between(i) = a {
        if let Lookup::Between(j) = b {
            if i < j {
                assert(axis[i + 1].place() <= axis[j as int].place());
                assert(!axis[i + 1].is_no_number());
            } else if j < i {
                assert(axis[j + 1].place() <= axis[i as int].place());
                assert(!axis[j + 1].is_no_number());
            }
        }
    }
}

/// Where a single query falls: an axis value that equals it is taken as it is.
pub open spec fn located<T: Sample>(axis: Seq<T>, x: T, r: Lookup) -> bool {
    let last = axis.len() - 1;
    if axis.len() == 1 || at_most(x, axis[0]) {
        r == Lookup::At(0)
    } else if at_most(axis[last], x) {
        r == Lookup::At(last as usize)
    } else if exists|i: int| 0 <= i < axis.len() && (#[trigger] axis[i]).place() == x.place() {
        match r {
            Lookup::At(i) => i < axis.len() && axis[i as int].place() == x.place(),
            Lookup::Between(_) => false,
        }
    } else {
        match r {
            Lookup::At(_) => false,
            Lookup::Between(i) => i < last && below(axis[i as int], x) && below(x, axis[i + 1]),
        }
    }
}

/// Finds the samples for one query. On an axis that is not ascending, and
/// for a query that is no number, some samples of the table are found.
pub fn locate_1d<T: Sample>(axis: &[T], x: T) -> (r: Lookup)
    requires
        axis@.len() > 0,
    ensures
        r.within(axis@.len()),
        ascending(axis@) && !x.is_no_number() ==> located(axis@, x, r),
{
    let n: usize = axis.len();
    if n == 1 {
        return Lookup::At(0);
    }
    proof {
        if ascending(axis@) {
            assert(!axis@[0].is_no_number() && !axis@[n - 1].is_no_number());
        }
    }
    if x.le(axis[0]) {
        return Lookup::At(0);
    }
    if axis[n - 1].le(x) {
        return Lookup::At(n - 1);
    }
    let found: usize = partition_point(axis, x, Side::Left);
    let i: usize = if found == 0 {
        1
    } else if found == n {
        n - 1
    } else {
        found
    };
    proof {
        if ascending(axis@) && !x.is_no_number() {
            if found == 0 {
                assert(!counts_below(axis@[0], x, Side::Left));
            }
            if found == n {
                assert(counts_below(axis@[n - 1], x, Side::Left));
            }
            assert(counts_below(axis@[i - 1], x, Side::Left));
            assert(!counts_below(axis@[i as int], x, Side::Left));
            assert(!axis@[i as int].is_no_number());
        }
    }
    if axis[i].le(x) {
        Lookup::At(i)
    } else {
        proof {
            if ascending(axis@) && !x.is_no_number() {
                assert forall|k: int| 0 <= k < n implies (#[trigger] axis@[k]).place()
                    != x.place() by {
                    if k < i {
                        assert(counts_below(axis@[k], x, Side::Left));
                    } else {
                        assert(axis@[i as int].place() <= axis@[k].place());
                    }
                }
            }
        }
        Lookup::Between(i - 1)
    }
}

// ── Values ───────────────────────────────────────────────────────────────

pub open spec fn num<T: Sample>(x: T) -> Formula {
    Formula::Number(x.number())
}

/// `y0 + t * (y1 - y0)`.
pub open spec fn blend(y0: Formula, t: Formula, y1: Formula) -> Formula {
    plus(y0, times(t, minus(y1, y0)))
}

fn blended<T: Sample, A: Arithmetic>(ar: &A, y0: T, t: Traced<T>, y1: T) -> (r: T)
    requires
        t.holds(ar),
    ensures
        evaluates(ar, blend(num(y0), t.formula@, num(y1)), r.number()),
{
    let low: Traced<T> = Traced::new(ar, y0);
    let high: Traced<T> = Traced::new(ar, y1);
    let step = t.times(ar, high.minus(ar, low));
    low.plus(ar, step).value
}

/// How far the query lies between two axis values.
pub open spec fn fraction<T: Sample>(x0: T, x1: T, xq: T) -> Formula {
    over(minus(num(xq), num(x0)), minus(num(x1), num(x0)))
}

/// `r` is the table read at `at`, for a query by position on the axis.
pub open spec fn reads<T: Sample, A: Arithmetic>(
    ar: &A,
    x: Seq<T>,
    y: Seq<T>,
    xq: T,
    at: Lookup,
    r: T,
) -> bool {
    match at {
        Lookup::At(i) => r == y[i as int],
        Lookup::Between(i) => evaluates(
            ar,
            blend(
                num(y[i as int]),
                fraction(x[i as int], x[i + 1], xq),
                num(y[i + 1]),
            ),
            r.number(),
        ),
    }
}

/// `r` is the table at the query.
pub open spec fn interpolates<T: Sample, A: Arithmetic>(
    ar: &A,
    x: Seq<T>,
    y: Seq<T>,
    xq: T,
    r: T,
) -> bool {
    exists|at: Lookup|
        at.within(x.len()) && (ascending(x) && !xq.is_no_number() ==> located(x, xq, at))
            && #[trigger] reads(ar, x, y, xq, at, r)
}

/// Interpolates a single value.
pub fn interp_1d<T: Sample, A: Arithmetic>(ar: &A, x: &[T], y: &[T], xq: T) -> (r: T)
    requires
        x@.len() == y@.len(),
        x@.len() > 0,
    ensures
        interpolates(ar, x@, y@, xq, r),
{
    let at = locate_1d(x, xq);
    let r = match at {
        Lookup::At(i) => y[i],
        Lookup::Between(i) => {
            let q: Traced<T> = Traced::new(ar, xq);
            let x0: Traced<T> = Traced::new(ar, x[i]);
            let x1: Traced<T> = Traced::new(ar, x[i + 1]);
            let t = q.minus(ar, x0).over(ar, x1.minus(ar, x0));
            blended(ar, y[i], t, y[i + 1])
        },
    };
    proof {
        assert(reads(ar, x@, y@, xq, at, r));
    }
    r
}

// ── Uniform tables ───────────────────────────────────────────────────────

/// Encoding of 1.0.
pub const SINGLE_ONE: u32 = 0x3f80_0000;

/// Position of a query in a uniform table of `n` samples from `x_min` to
/// `x_max`, counted in samples.
pub open spec fn table_position(x_min: Single, x_max: Single, n: u64, xq: Single) -> Formula {
    over(
        minus(single(xq), single(x_min)),
        over(
            minus(single(x_max), single(x_min)),
            minus(narrow(Formula::Whole(n)), single(Single { bits: SINGLE_ONE })),
        ),
    )
}

/// Where a position falls in a uniform table. `t` is the position, `last`
/// that of the last sample, and `cell` the whole part of `t`.
pub open spec fn located_uniform(n: int, t: Single, last: Single, cell: int, r: Lookup) -> bool {
    if n == 1 || t.at_most(Single { bits: 0 }) {
        r == Lookup::At(0)
    } else if last.at_most(t) {
        r == Lookup::At((n - 1) as usize)
    } else {
        r == Lookup::Between(
            (if cell < 0 {
                0
            } else if cell > n - 2 {
                n - 2
            } else {
                cell
            }) as usize,
        )
    }
}

/// A uniform table read at a position.
pub struct UniformRead {
    pub at: Lookup,
    /// The position, counted in samples.
    pub position: Single,
}

impl UniformRead {
    /// The read is the one for the query.
    pub open spec fn is_for<A: Arithmetic>(
        &self,
        ar: &A,
        x_min: Single,
        x_max: Single,
        n: nat,
        xq: Single,
    ) -> bool {
        &&& self.at.within(n)
        &&& n > 1 ==> is_single(ar, table_position(x_min, x_max, n as u64, xq), self.position)
        &&& exists|last: Single, cell: i64|
            is_single(ar, narrow(Formula::Whole((n - 1) as u64)), last) && rounds_to(
                ar,
                Rounding::Down,
                widen(single(self.position)),
                cell,
            ) && #[trigger] located_uniform(n as int, self.position, last, cell as int, self.at)
    }
}

/// Finds the samples for a query of a uniform table.
pub fn locate_uniform<A: Arithmetic>(
    ar: &A,
    x_min: Single,
    x_max: Single,
    n: usize,
    xq: Single,
) -> (r: UniformRead)
    requires
        n > 0,
        n <= u64::MAX,
    ensures
        r.is_for(ar, x_min, x_max, n as nat, xq),
{
    let q: Traced<Single> = Traced::new(ar, xq);
    let low: Traced<Single> = Traced::new(ar, x_min);
    let high: Traced<Single> = Traced::new(ar, x_max);
    let one: Traced<Single> = Traced::new(ar, Single { bits: SINGLE_ONE });
    let count: Traced<Double> = Traced::whole(ar, n as u64);
    let step = high.minus(ar, low).over(ar, count.narrow(ar).minus(ar, one));
    let t = q.minus(ar, low).over(ar, step);
    let end: Traced<Double> = Traced::whole(ar, (n - 1) as u64);
    let last = end.narrow(ar);
    let position: Traced<Single> = Traced::new(ar, t.value);
    let cell: i64 = position.widen(ar).rounded(ar, Rounding::Down);
    let at = if n == 1 || t.value.is_at_most(Single { bits: 0 }) {
        Lookup::At(0)
    } else if last.value.is_at_most(t.value) {
        Lookup::At(n - 1)
    } else if cell < 0 {
        Lookup::Between(0)
    } else if cell as u64 > (n - 2) as u64 {
        Lookup::Between(n - 2)
    } else {
        Lookup::Between(cell as usize)
    };
    proof {
        assert(located_uniform(n as int, t.value, last.value, cell as int, at));
    }
    UniformRead { at, position: t.value }
}

/// `r` is the uniform table read at `at`: the fraction is what the position
/// exceeds the lower sample by.
pub open spec fn reads_uniform<A: Arithmetic>(
    ar: &A,
    y: Seq<Single>,
    at: UniformRead,
    r: Single,
) -> bool {
    match at.at {
        Lookup::At(i) => r == y[i as int],
        Lookup::Between(i) => is_single(
            ar,
            blend(
                single(y[i as int]),
                minus(single(at.position), narrow(Formula::Whole(i as u64))),
                single(y[i + 1]),
            ),
            r,
        ),
    }
}

fn read_uniform<A: Arithmetic>(ar: &A, at: &UniformRead, y: &[Single]) -> (r: Single)
    requires
        at.at.within(y@.len()),
    ensures
        reads_uniform(ar, y@, *at, r),
{
    match at.at {
        Lookup::At(i) => y[i],
        Lookup::Between(i) => {
            let t: Traced<Single> = Traced::new(ar, at.position);
            let cell: Traced<Double> = Traced::whole(ar, i as u64);
            let f = t.minus(ar, cell.narrow(ar));
            blended(ar, y[i], f, y[i + 1])
        },
    }
}

/// Interpolates a uniformly spaced table.
pub fn interp_uniform<A: Arithmetic>(
    ar: &A,
    x_min: Single,
    x_max: Single,
    y: &[Single],
    xq: Single,
) -> (r: Single)
    requires
        y@.len() > 0,
    ensures
        exists|at: UniformRead|
            at.is_for(ar, x_min, x_max, y@.len(), xq) && #[trigger] reads_uniform(ar, y@, at, r),
{
    let n: usize = y.len();
    let at = locate_uniform(ar, x_min, x_max, n, xq);
    let r = read_uniform(ar, &at, y);
    proof {
        assert(reads_uniform(ar, y@, at, r));
    }
    r
}

/// Interpolates three uniformly spaced tables at one query.
pub fn interp_uniform_3ch<A: Arithmetic>(
    ar: &A,
    x_min: Single,
    x_max: Single,
    table: &[[Single; 3]],
    xq: Single,
) -> (r: [Single; 3])
    requires
        table@.len() > 0,
    ensures
        exists|at: UniformRead|
            #[trigger] at.is_for(ar, x_min, x_max, table@.len(), xq) && forall|c: int|
                0 <= c < 3 ==> reads_uniform(
                    ar,
                    crate::density_curves::column(table@, c),
                    at,
                    #[trigger] r@[c],
                ),
{
    let n: usize = table.len();
    let at = locate_uniform(ar, x_min, x_max, n, xq);
    let c0 = crate::density_curves::extract_col(table, 0);
    let c1 = crate::density_curves::extract_col(table, 1);
    let c2 = crate::density_curves::extract_col(table, 2);
    let r = [
        read_uniform(ar, &at, c0.as_slice()),
        read_uniform(ar, &at, c1.as_slice()),
        read_uniform(ar, &at, c2.as_slice()),
    ];
    proof {
        assert(at.is_for(ar, x_min, x_max, table@.len(), xq));
    }
    r
}

// ── Images ───────────────────────────────────────────────────────────────

/// `r` is the reciprocal of the interval, and 0 for an empty one.
pub open spec fn is_reciprocal<T: Sample, A: Arithmetic>(ar: &A, x0: T, x1: T, r: T) -> bool {
    exists|dx: T|
        #[trigger] evaluates(ar, minus(num(x1), num(x0)), dx.number()) && if !dx.is_no_number()
            && dx.place() == 0 {
            r == T::zero_value()
        } else {
            evaluates(ar, over(num(T::one_value()), num(dx)), r.number())
        }
}

fn reciprocal<T: Sample, A: Arithmetic>(ar: &A, x0: T, x1: T) -> (r: T)
    ensures
        is_reciprocal(ar, x0, x1, r),
{
    let low: Traced<T> = Traced::new(ar, x0);
    let high: Traced<T> = Traced::new(ar, x1);
    let dx = high.minus(ar, low).value;
    let zero = T::zero();
    proof {
        T::lemma_zero();
    }
    if dx.le(zero) && zero.le(dx) {
        zero
    } else {
        let one: Traced<T> = Traced::new(ar, T::one());
        one.over(ar, Traced::new(ar, dx)).value
    }
}

/// The table over an axis, with the reciprocals of the axis intervals.
pub struct CurveTable<T> {
    pub axis: Vec<T>,
    pub values: Vec<T>,
    pub reciprocals: Vec<T>,
}

impl<T: Sample> CurveTable<T> {
    /// The reciprocals are those of the axis.
    pub open spec fn valid<A: Arithmetic>(&self, ar: &A) -> bool {
        &&& self.axis@.len() == self.values@.len()
        &&& self.axis@.len() > 0
        &&& self.reciprocals@.len() == self.axis@.len() - 1
        &&& forall|i: int|
            0 <= i < self.reciprocals@.len() ==> is_reciprocal(
                ar,
                self.axis@[i],
                self.axis@[i + 1],
                #[trigger] self.reciprocals@[i],
            )
    }

    pub fn new<A: Arithmetic>(ar: &A, axis: Vec<T>, values: Vec<T>) -> (r: CurveTable<T>)
        requires
            axis@.len() == values@.len(),
            axis@.len() > 0,
        ensures
            r.valid(ar),
            r.axis == axis,
            r.values == values,
    {
        let mut reciprocals: Vec<T> = Vec::new();
        let last: usize = axis.len() - 1;
        let mut i: usize = 0;
        while i < last
            invariant
                i <= last,
                last + 1 == axis@.len(),
                reciprocals@.len() == i,
                forall|k: int|
                    0 <= k < i ==> is_reciprocal(
                        ar,
                        axis@[k],
                        axis@[k + 1],
                        #[trigger] reciprocals@[k],
                    ),
            decreases last - i,
        {
            let v = reciprocal(ar, axis[i], axis[i + 1]);
            reciprocals.push(v);
            i += 1;
        }
        CurveTable { axis, values, reciprocals }
    }

    /// `r` is the table at `x`: a bracketing interval is entered by the
    /// distance from its lower end times the reciprocal of its length.
    pub open spec fn gives<A: Arithmetic>(&self, ar: &A, x: T, side: Side, r: T) -> bool {
        exists|at: Lookup|
            #[trigger] bracketed(self.axis@, x, side, at) && at.within(self.axis@.len()) && match at {
                Lookup::At(i) => r == self.values@[i as int],
                Lookup::Between(i) => evaluates(
                    ar,
                    blend(
                        num(self.values@[i as int]),
                        times(
                            minus(num(x), num(self.axis@[i as int])),
                            num(self.reciprocals@[i as int]),
                        ),
                        num(self.values@[i + 1]),
                    ),
                    r.number(),
                ),
            }
    }

    /// Reads the table at one query.
    pub fn read<A: Arithmetic>(&self, ar: &A, x: T, side: Side) -> (r: T)
        requires
            self.valid(ar),
        ensures
            self.gives(ar, x, side, r),
    {
        let n: usize = self.axis.len();
        let at = bracket(self.axis.as_slice(), x, side);
        assert(at.within(n as nat));
        match at {
            Lookup::At(i) => self.values[i],
            Lookup::Between(i) => {
                let q: Traced<T> = Traced::new(ar, x);
                let low: Traced<T> = Traced::new(ar, self.axis[i]);
                let inv: Traced<T> = Traced::new(ar, self.reciprocals[i]);
                let t = q.minus(ar, low).times(ar, inv);
                blended(ar, self.values[i], t, self.values[i + 1])
            },
        }
    }
}

/// The table holds an axis and a column, brought to the precision of `T`.
pub open spec fn is_table<T: Sample, A: Arithmetic>(
    ar: &A,
    axis: Seq<Double>,
    col: Seq<Double>,
    t: CurveTable<T>,
) -> bool {
    &&& t.valid(ar)
    &&& t.axis@.len() == axis.len()
    &&& col.len() == axis.len()
    &&& forall|i: int|
        0 <= i < axis.len() ==> evaluates(
            ar,
            T::stored(double(axis[i])),
            (#[trigger] t.axis@[i]).number(),
        )
    &&& forall|i: int|
        0 <= i < axis.len() ==> evaluates(
            ar,
            T::stored(double(col[i])),
            (#[trigger] t.values@[i]).number(),
        )
}

fn stored_numbers<T: Sample, A: Arithmetic>(ar: &A, xs: &[Double]) -> (r: Vec<T>)
    ensures
        r@.len() == xs@.len(),
        forall|i: int|
            0 <= i < xs@.len() ==> evaluates(
                ar,
                T::stored(double(xs@[i])),
                (#[trigger] r@[i]).number(),
            ),
{
    let mut r: Vec<T> = Vec::new();
    let mut i: usize = 0;
    while i < xs.len()
        invariant
            i <= xs@.len(),
            r@.len() == i,
            forall|k: int|
                0 <= k < i ==> evaluates(
                    ar,
                    T::stored(double(xs@[k])),
                    (#[trigger] r@[k]).number(),
                ),
        decreases xs.len() - i,
    {
        let x: Traced<Double> = Traced::new(ar, xs[i]);
        r.push(T::store(ar, x).value);
        i += 1;
    }
    r
}

/// The table of a column over an axis.
pub fn curve_table<T: Sample, A: Arithmetic>(ar: &A, axis: &[Double], col: &[Double]) -> (r:
    CurveTable<T>)
    requires
        axis@.len() == col@.len(),
        axis@.len() > 0,
    ensures
        is_table(ar, axis@, col@, r),
{
    let a: Vec<T> = stored_numbers(ar, axis);
    let v: Vec<T> = stored_numbers(ar, col);
    CurveTable::new(ar, a, v)
}

/// Reads every number of an image from the table of its channel.
pub fn read_image<T: Sample, A: Arithmetic>(
    ar: &A,
    img: &ImageBuf<T>,
    tables: &[CurveTable<T>; 3],
    side: Side,
) -> (r: ImageBuf<T>)
    requires
        img.valid(),
        forall|c: int| 0 <= c < 3 ==> (#[trigger] tables@[c]).valid(ar),
    ensures
        r.width == img.width,
        r.height == img.height,
        r.valid(),
        forall|i: int|
            0 <= i < img.data@.len() ==> tables@[i % 3].gives(
                ar,
                img.data@[i],
                side,
                #[trigger] r.data@[i],
            ),
{
    let mut data: Vec<T> = Vec::new();
    let mut i: usize = 0;
    while i < img.data.len()
        invariant
            i <= img.data@.len(),
            data@.len() == i,
            forall|c: int| 0 <= c < 3 ==> (#[trigger] tables@[c]).valid(ar),
            forall|k: int|
                0 <= k < i ==> tables@[k % 3].gives(ar, img.data@[k], side, #[trigger] data@[k]),
        decreases img.data.len() - i,
    {
        let c: usize = i % 3;
        assert(tables@[c as int].valid(ar));
        let v = tables[c].read(ar, img.data[i], side);
        data.push(v);
        i += 1;
    }
    ImageBuf { width: img.width, height: img.height, data }
}

} // verus!
