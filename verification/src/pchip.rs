//! Monotone cubic interpolation in a cube of samples.

use vstd::arithmetic::power2::lemma2_to64_rest;
use vstd::prelude::*;

use crate::arith::{Arithmetic, Binary, Formula, Rounding, Traced, Unary};
use crate::arith::{constant, double, is_double, minus, over, plus, rounds_to, times};
use crate::bits::Double;
use crate::density_curves::ONE;
use crate::exact::{double_value, exact, lemma_small_numbers, size_of_real, Functions};
use crate::interp::blend;
use crate::lut::Corners;
use crate::pchip3d::{corners_of, entries, entry_index, lemma_cell_hull, lemma_entry_bound};
use crate::pchip3d::prepare_with;
use crate::pchip3d::{axis_done, line_done, line_of, on_line, Axis, PchipCell, PreparedPchip3d};
use crate::rounding::{bounded, lemma_bounded_minus, lemma_bounded_plus, lemma_bounded_switch};
use crate::rounding::{huge, lemma_binary, lemma_floor, lemma_huge, lemma_order, lemma_pinned_minus};
use crate::rounding::{lemma_pinned_nothing, lemma_pinned_plus, lemma_pinned_times, pinned, sound};
use crate::rounding::stands_for;

verus! {

/// Encodings of 0.5, 2.0, 3.0 and -2.0.
pub const HALF: u64 = 0x3fe0_0000_0000_0000;

pub const TWO: u64 = 0x4000_0000_0000_0000;

pub const THREE: u64 = 0x4008_0000_0000_0000;

pub const MINUS_TWO: u64 = 0xc000_0000_0000_0000;

pub open spec fn zero() -> Double {
    Double { bits: 0 }
}

// ── Slopes of a line ─────────────────────────────────────────────────────

/// `r` is the slope at an end of the line: the one-sided slope through three
/// samples, 0 where it points against the first difference, and at most three
/// times that difference where the line turns. `d0` is the difference at the
/// end and `d1` the next.
pub open spec fn is_end_slope<A: Arithmetic>(ar: &A, d0: Double, d1: Double, r: Double) -> bool {
    exists|s: Double, along: Double, turn: Double, steep: Double|
        {
            &&& #[trigger] is_double(
                ar,
                times(constant(HALF), minus(times(constant(THREE), double(d0)), double(d1))),
                s,
            )
            &&& #[trigger] is_double(ar, times(double(s), double(d0)), along)
            &&& #[trigger] is_double(ar, times(double(d0), double(d1)), turn)
            &&& #[trigger] is_double(ar, times(constant(THREE), double(d0)), steep)
            &&& r == if along.at_most(zero()) {
                zero()
            } else if turn.below(zero()) && steep.absolute().below(s.absolute()) {
                steep
            } else {
                s
            }
        }
}

fn end_slope<A: Arithmetic>(ar: &A, d0: Double, d1: Double) -> (r: Double)
    ensures
        is_end_slope(ar, d0, d1, r),
{
    let x: Traced<Double> = Traced::new(ar, d0);
    let y: Traced<Double> = Traced::new(ar, d1);
    let three: Traced<Double> = Traced::constant(ar, THREE);
    let half: Traced<Double> = Traced::constant(ar, HALF);
    let steep = three.times(ar, x);
    let s = half.times(ar, steep.minus(ar, y));
    let at: Traced<Double> = Traced::new(ar, s.value);
    let along = at.times(ar, x);
    let turn = x.times(ar, y);
    let none = Double { bits: 0 };
    proof {
        assert(is_double(
            ar,
            times(constant(HALF), minus(times(constant(THREE), double(d0)), double(d1))),
            s.value,
        ));
        assert(is_double(ar, times(double(s.value), double(d0)), along.value));
        assert(is_double(ar, times(double(d0), double(d1)), turn.value));
        assert(is_double(ar, times(constant(THREE), double(d0)), steep.value));
    }
    if along.value.is_at_most(none) {
        none
    } else if turn.value.is_below(none) && steep.value.abs().is_below(s.value.abs()) {
        steep.value
    } else {
        s.value
    }
}

/// `r` is the slope between two differences: their harmonic mean, and 0 where
/// the line is flat or turns.
pub open spec fn is_inner_slope<A: Arithmetic>(ar: &A, dp: Double, dn: Double, r: Double) -> bool {
    if dp.rank() == 0 || dn.rank() == 0 {
        r == zero()
    } else {
        exists|turn: Double| #[trigger]
            is_double(ar, times(double(dp), double(dn)), turn) && if turn.at_most(zero()) {
                r == zero()
            } else {
                is_double(
                    ar,
                    over(
                        times(times(constant(TWO), double(dp)), double(dn)),
                        plus(double(dp), double(dn)),
                    ),
                    r,
                )
            }
    }
}

fn inner_slope<A: Arithmetic>(ar: &A, dp: Double, dn: Double) -> (r: Double)
    ensures
        is_inner_slope(ar, dp, dn, r),
{
    let none = Double { bits: 0 };
    if dp.is_zero() || dn.is_zero() {
        return none;
    }
    let x: Traced<Double> = Traced::new(ar, dp);
    let y: Traced<Double> = Traced::new(ar, dn);
    let turn = x.times(ar, y);
    assert(is_double(ar, times(double(dp), double(dn)), turn.value));
    if turn.value.is_at_most(none) {
        none
    } else {
        let two: Traced<Double> = Traced::constant(ar, TWO);
        two.times(ar, x).times(ar, y).over(ar, x.plus(ar, y)).value
    }
}

/// The differences of neighbours.
pub open spec fn are_differences<A: Arithmetic>(ar: &A, v: Seq<Double>, d: Seq<Double>) -> bool {
    &&& d.len() == v.len() - 1
    &&& forall|i: int|
        0 <= i < d.len() ==> is_double(
            ar,
            minus(double(v[i + 1]), double(v[i])),
            #[trigger] d[i],
        )
}

/// `r` holds the slopes of a line of samples.
pub open spec fn are_slopes<A: Arithmetic>(ar: &A, v: Seq<Double>, r: Seq<Double>) -> bool {
    &&& r.len() == v.len()
    &&& v.len() == 1 ==> r[0] == zero()
    &&& v.len() >= 2 ==> exists|d: Seq<Double>| #[trigger]
        are_differences(ar, v, d) && if v.len() == 2 {
            r[0] == d[0] && r[1] == d[0]
        } else {
            let n = v.len() as int;
            &&& is_end_slope(ar, d[0], d[1], r[0])
            &&& is_end_slope(ar, d[n - 2], d[n - 3], r[n - 1])
            &&& forall|i: int|
                1 <= i < n - 1 ==> is_inner_slope(ar, d[i - 1], d[i], #[trigger] r[i])
        }
}

/// The slopes of a line of samples, limited so that interpolation does not
/// overshoot.
pub fn fill_monotone_slopes_1d<A: Arithmetic>(ar: &A, values: &Vec<Double>) -> (r: Vec<Double>)
    ensures
        are_slopes(ar, values@, r@),
{
    let n: usize = values.len();
    let mut r: Vec<Double> = Vec::new();
    if n == 0 {
        return r;
    }
    if n == 1 {
        r.push(Double { bits: 0 });
        return r;
    }
    let mut d: Vec<Double> = Vec::new();
    let mut i: usize = 0;
    while i < n - 1
        invariant
            i <= n - 1,
            n == values@.len(),
            n >= 2,
            d@.len() == i,
            forall|k: int|
                0 <= k < i ==> is_double(
                    ar,
                    minus(double(values@[k + 1]), double(values@[k])),
                    #[trigger] d@[k],
                ),
        decreases n - i,
    {
        let a: Traced<Double> = Traced::new(ar, values[i + 1]);
        let b: Traced<Double> = Traced::new(ar, values[i]);
        d.push(a.minus(ar, b).value);
        i += 1;
    }
    assert(are_differences(ar, values@, d@));
    if n == 2 {
        r.push(d[0]);
        r.push(d[0]);
        return r;
    }
    let first = end_slope(ar, d[0], d[1]);
    r.push(first);
    let mut k: usize = 1;
    while k < n - 1
        invariant
            1 <= k <= n - 1,
            n >= 3,
            d@.len() == n - 1,
            r@.len() == k,
            r@[0] == first,
            forall|q: int|
                1 <= q < k ==> is_inner_slope(ar, d@[q - 1], d@[q], #[trigger] r@[q]),
        decreases n - k,
    {
        let v = inner_slope(ar, d[k - 1], d[k]);
        r.push(v);
        k += 1;
    }
    let last = end_slope(ar, d[n - 2], d[n - 3]);
    r.push(last);
    r
}

/// The slopes along an axis of a cube: every line holds the slopes of its
/// samples.
pub open spec fn axis_slopes<A: Arithmetic>(
    ar: &A,
    lut: Seq<Double>,
    size: nat,
    axis: Axis,
    r: Seq<Double>,
) -> bool {
    forall|a: int, b: int, c: int|
        0 <= a < size && 0 <= b < size && 0 <= c < 3 ==> are_slopes(
            ar,
            #[trigger] line_of(lut, size, axis, a, b, c),
            line_of(r, size, axis, a, b, c),
        )
}

/// The cube is prepared: its slopes are those of its lines.
pub open spec fn prepared<A: Arithmetic>(ar: &A, p: PreparedPchip3d) -> bool {
    &&& p.valid()
    &&& axis_slopes(ar, p.lut@, p.size as nat, Axis::X, p.slope_x@)
    &&& axis_slopes(ar, p.lut@, p.size as nat, Axis::Y, p.slope_y@)
    &&& axis_slopes(ar, p.lut@, p.size as nat, Axis::Z, p.slope_z@)
}

/// Prepares a cube of samples.
pub fn prepare_pchip_3d<A: Arithmetic>(ar: &A, lut: Vec<Double>, size: usize) -> (r: PreparedPchip3d)
    requires
        lut@.len() == entries(size as int),
    ensures
        r.size == size,
        r.lut == lut,
        prepared(ar, r),
{
    let slopes_of = |line: &Vec<Double>| -> (o: Vec<Double>)
        ensures
            are_slopes(ar, line@, o@),
        { fill_monotone_slopes_1d(ar, line) };
    let r = prepare_with(lut, size, slopes_of);
    proof {
        lemma_axis(ar, slopes_of, r.lut@, size as nat, Axis::X, r.slope_x@);
        lemma_axis(ar, slopes_of, r.lut@, size as nat, Axis::Y, r.slope_y@);
        lemma_axis(ar, slopes_of, r.lut@, size as nat, Axis::Z, r.slope_z@);
    }
    r
}

proof fn lemma_axis<A: Arithmetic, F: Fn(&Vec<Double>) -> Vec<Double>>(
    ar: &A,
    slopes_of: F,
    lut: Seq<Double>,
    size: nat,
    axis: Axis,
    out: Seq<Double>,
)
    requires
        axis_done(slopes_of, lut, size, axis, out),
        forall|l: Vec<Double>, o: Vec<Double>| #[trigger]
            call_ensures(slopes_of, (&l,), o) ==> are_slopes(ar, l@, o@),
    ensures
        axis_slopes(ar, lut, size, axis, out),
{
    assert forall|a: int, b: int, c: int|
        0 <= a < size && 0 <= b < size && 0 <= c < 3 implies are_slopes(
        ar,
        #[trigger] line_of(lut, size, axis, a, b, c),
        line_of(out, size, axis, a, b, c),
    ) by {
        assert(line_done(slopes_of, lut, size, axis, a, b, c, out));
        let (line, slopes) = choose|line: Vec<Double>, slopes: Vec<Double>| #[trigger]
            call_ensures(slopes_of, (&line,), slopes) && line@ == line_of(
                lut,
                size,
                axis,
                a,
                b,
                c,
            ) && slopes@.len() == size && forall|t: int|
                0 <= t < size ==> out[#[trigger] on_line(size as int, axis, t, a, b, c)]
                    == slopes@[t];
        assert(line_of(out, size, axis, a, b, c) =~= slopes@);
    }
}

// ── Inside a cell ────────────────────────────────────────────────────────

/// The cubic through two samples with two slopes.
pub open spec fn hermite(y0: Formula, y1: Formula, m0: Formula, m1: Formula, t: Formula) -> Formula {
    let t2 = times(t, t);
    let t3 = times(t2, t);
    let h00 = plus(
        minus(times(constant(TWO), t3), times(constant(THREE), t2)),
        constant(ONE),
    );
    let h10 = plus(minus(t3, times(constant(TWO), t2)), t);
    let h01 = plus(times(constant(MINUS_TWO), t3), times(constant(THREE), t2));
    let h11 = minus(t3, t2);
    plus(plus(plus(times(h00, y0), times(h10, m0)), times(h01, y1)), times(h11, m1))
}

fn hermite_value<A: Arithmetic>(
    ar: &A,
    y0: Traced<Double>,
    y1: Traced<Double>,
    m0: Traced<Double>,
    m1: Traced<Double>,
    t: Traced<Double>,
) -> (r: Traced<Double>)
    requires
        y0.holds(ar),
        y1.holds(ar),
        m0.holds(ar),
        m1.holds(ar),
        t.holds(ar),
    ensures
        r.holds(ar),
        r.formula@ == hermite(
            y0.formula@,
            y1.formula@,
            m0.formula@,
            m1.formula@,
            t.formula@,
        ),
{
    let two: Traced<Double> = Traced::constant(ar, TWO);
    let three: Traced<Double> = Traced::constant(ar, THREE);
    let one: Traced<Double> = Traced::constant(ar, ONE);
    let minus_two: Traced<Double> = Traced::constant(ar, MINUS_TWO);
    let t2 = t.times(ar, t);
    let t3 = t2.times(ar, t);
    let h00 = two.times(ar, t3).minus(ar, three.times(ar, t2)).plus(ar, one);
    let h10 = t3.minus(ar, two.times(ar, t2)).plus(ar, t);
    let h01 = minus_two.times(ar, t3).plus(ar, three.times(ar, t2));
    let h11 = t3.minus(ar, t2);
    let a = h00.times(ar, y0);
    let b = h10.times(ar, m0);
    let c = h01.times(ar, y1);
    let d = h11.times(ar, m1);
    a.plus(ar, b).plus(ar, c).plus(ar, d)
}

fn mix<A: Arithmetic>(ar: &A, v0: Traced<Double>, v1: Traced<Double>, t: Traced<Double>) -> (r:
    Traced<Double>)
    requires
        v0.holds(ar),
        v1.holds(ar),
        t.holds(ar),
    ensures
        r.holds(ar),
        r.formula@ == blend(v0.formula@, t.formula@, v1.formula@),
{
    v0.plus(ar, t.times(ar, v1.minus(ar, v0)))
}

/// Four corners mixed along two axes.
pub open spec fn bilinear(
    v00: Formula,
    v10: Formula,
    v01: Formula,
    v11: Formula,
    tx: Formula,
    ty: Formula,
) -> Formula {
    blend(blend(v00, tx, v10), ty, blend(v01, tx, v11))
}

/// The interpolated value of a cell: cubics along x, then along y and then
/// along z, with the slopes across mixed linearly.
pub open spec fn cell_value(p: PchipCell, tr: Double, tg: Double, tb: Double) -> Formula {
    let x = double(tr);
    let y = double(tg);
    let z = double(tb);
    let v = p.value;
    let sx = p.slope_x;
    let sy = p.slope_y;
    let sz = p.slope_z;
    let v000 = hermite(double(v.c000), double(v.c100), double(sx.c000), double(sx.c100), x);
    let v010 = hermite(double(v.c010), double(v.c110), double(sx.c010), double(sx.c110), x);
    let v001 = hermite(double(v.c001), double(v.c101), double(sx.c001), double(sx.c101), x);
    let v011 = hermite(double(v.c011), double(v.c111), double(sx.c011), double(sx.c111), x);
    let sy00 = blend(double(sy.c000), x, double(sy.c100));
    let sy10 = blend(double(sy.c010), x, double(sy.c110));
    let sy01 = blend(double(sy.c001), x, double(sy.c101));
    let sy11 = blend(double(sy.c011), x, double(sy.c111));
    let sz0 = bilinear(
        double(sz.c000),
        double(sz.c100),
        double(sz.c010),
        double(sz.c110),
        x,
        y,
    );
    let sz1 = bilinear(
        double(sz.c001),
        double(sz.c101),
        double(sz.c011),
        double(sz.c111),
        x,
        y,
    );
    hermite(hermite(v000, v010, sy00, sy10, y), hermite(v001, v011, sy01, sy11, y), sz0, sz1, z)
}

fn along_x<A: Arithmetic>(
    ar: &A,
    y0: Double,
    y1: Double,
    m0: Double,
    m1: Double,
    t: Traced<Double>,
) -> (r: Traced<Double>)
    requires
        t.holds(ar),
    ensures
        r.holds(ar),
        r.formula@ == hermite(double(y0), double(y1), double(m0), double(m1), t.formula@),
{
    hermite_value(
        ar,
        Traced::new(ar, y0),
        Traced::new(ar, y1),
        Traced::new(ar, m0),
        Traced::new(ar, m1),
        t,
    )
}

fn mix_of<A: Arithmetic>(ar: &A, v0: Double, v1: Double, t: Traced<Double>) -> (r: Traced<Double>)
    requires
        t.holds(ar),
    ensures
        r.holds(ar),
        r.formula@ == blend(double(v0), t.formula@, double(v1)),
{
    mix(ar, Traced::new(ar, v0), Traced::new(ar, v1), t)
}

fn value_in_cell<A: Arithmetic>(ar: &A, p: &PchipCell, tr: Double, tg: Double, tb: Double) -> (r:
    Double)
    ensures
        is_double(ar, cell_value(*p, tr, tg, tb), r),
{
    let x: Traced<Double> = Traced::new(ar, tr);
    let y: Traced<Double> = Traced::new(ar, tg);
    let z: Traced<Double> = Traced::new(ar, tb);
    let v: &Corners<Double> = &p.value;
    let sx: &Corners<Double> = &p.slope_x;
    let sy: &Corners<Double> = &p.slope_y;
    let sz: &Corners<Double> = &p.slope_z;
    let v000 = along_x(ar, v.c000, v.c100, sx.c000, sx.c100, x);
    let v010 = along_x(ar, v.c010, v.c110, sx.c010, sx.c110, x);
    let v001 = along_x(ar, v.c001, v.c101, sx.c001, sx.c101, x);
    let v011 = along_x(ar, v.c011, v.c111, sx.c011, sx.c111, x);
    let sy00 = mix_of(ar, sy.c000, sy.c100, x);
    let sy10 = mix_of(ar, sy.c010, sy.c110, x);
    let sy01 = mix_of(ar, sy.c001, sy.c101, x);
    let sy11 = mix_of(ar, sy.c011, sy.c111, x);
    let sz0 = mix(ar, mix_of(ar, sz.c000, sz.c100, x), mix_of(ar, sz.c010, sz.c110, x), y);
    let sz1 = mix(ar, mix_of(ar, sz.c001, sz.c101, x), mix_of(ar, sz.c011, sz.c111, x), y);
    let vz0 = hermite_value(ar, v000, v010, sy00, sy10, y);
    let vz1 = hermite_value(ar, v001, v011, sy01, sy11, y);
    hermite_value(ar, vz0, vz1, sz0, sz1, z).value
}

// ── Queries ──────────────────────────────────────────────────────────────

/// A coordinate as a cell and a position inside it.
#[derive(Clone, Copy)]
pub struct Place {
    pub base: usize,
    pub fraction: Double,
}

/// The coordinate, brought into the range of the axis.
pub open spec fn on_axis(coord: Double, upper: Double) -> Double {
    if coord.at_most(zero()) {
        zero()
    } else if upper.at_most(coord) {
        upper
    } else {
        coord
    }
}

/// `p` is where a coordinate falls on an axis of `size` samples; the last
/// sample is the end of the last cell.
pub open spec fn is_place<A: Arithmetic>(ar: &A, coord: Double, size: nat, p: Place) -> bool {
    exists|upper: Double| #[trigger]
        is_double(ar, Formula::Whole((size - 1) as u64), upper) && placed(
            ar,
            on_axis(coord, upper),
            upper,
            size,
            p,
        )
}

pub open spec fn placed<A: Arithmetic>(
    ar: &A,
    c: Double,
    upper: Double,
    size: nat,
    p: Place,
) -> bool {
    if upper.at_most(c) {
        p.base == size - 2 && p.fraction.bits == ONE
    } else {
        exists|n: i64| #[trigger]
            rounds_to(ar, Rounding::Down, double(c), n) && p.base == (if n < 0 {
                0
            } else if n > size - 2 {
                size - 2
            } else {
                n as int
            }) && is_double(
                ar,
                minus(double(c), Formula::Whole(p.base as u64)),
                p.fraction,
            )
    }
}

/// The cell of a coordinate, and where in it the coordinate lies.
pub fn cubic_base_fraction<A: Arithmetic>(ar: &A, coord: Double, size: usize) -> (r: Place)
    requires
        size >= 2,
    ensures
        is_place(ar, coord, size as nat, r),
        r.base + 1 < size,
{
    let end: Traced<Double> = Traced::whole(ar, (size - 1) as u64);
    let upper = end.value;
    let none = Double { bits: 0 };
    let c = if coord.is_at_most(none) {
        none
    } else if upper.is_at_most(coord) {
        upper
    } else {
        coord
    };
    assert(is_double(ar, Formula::Whole((size - 1) as u64), upper));
    if upper.is_at_most(c) {
        return Place { base: size - 2, fraction: Double { bits: ONE } };
    }
    let at: Traced<Double> = Traced::new(ar, c);
    let n: i64 = at.rounded(ar, Rounding::Down);
    let base: usize = if n < 0 {
        0
    } else if n as u64 > (size - 2) as u64 {
        size - 2
    } else {
        n as usize
    };
    let cell: Traced<Double> = Traced::whole(ar, base as u64);
    let fraction = at.minus(ar, cell).value;
    assert(rounds_to(ar, Rounding::Down, double(c), n));
    Place { base, fraction }
}

/// `r` is the interpolated value of a channel, kept within the corners of its
/// cell.
pub open spec fn is_interpolated<A: Arithmetic>(
    ar: &A,
    p: PreparedPchip3d,
    x: Place,
    y: Place,
    z: Place,
    c: int,
    r: Double,
) -> bool {
    exists|cell: PchipCell, v: Double|
        {
            &&& #[trigger] p.is_cell(x.base as int, y.base as int, z.base as int, c, cell)
            &&& #[trigger] is_double(
                ar,
                cell_value(cell, x.fraction, y.fraction, z.fraction),
                v,
            )
            &&& r == v.limited(cell.min, cell.max)
        }
}

fn interpolated<A: Arithmetic>(
    ar: &A,
    p: &PreparedPchip3d,
    x: Place,
    y: Place,
    z: Place,
    c: usize,
) -> (r: Double)
    requires
        p.valid(),
        x.base + 1 < p.size,
        y.base + 1 < p.size,
        z.base + 1 < p.size,
        c < 3,
    ensures
        is_interpolated(ar, *p, x, y, z, c as int, r),
{
    let cell = p.cell(x.base, y.base, z.base, c);
    let v = value_in_cell(ar, &cell, x.fraction, y.fraction, z.fraction);
    v.clamp(cell.min, cell.max)
}

/// Interpolates one point of a prepared cube, at coordinates counted in
/// samples.
pub fn pchip_interp<A: Arithmetic>(
    ar: &A,
    prepared: &PreparedPchip3d,
    r: Double,
    g: Double,
    b: Double,
) -> (out: [Double; 3])
    requires
        prepared.valid(),
        prepared.size >= 2,
    ensures
        exists|x: Place, y: Place, z: Place|
            {
                &&& #[trigger] is_place(ar, r, prepared.size as nat, x)
                &&& #[trigger] is_place(ar, g, prepared.size as nat, y)
                &&& #[trigger] is_place(ar, b, prepared.size as nat, z)
                &&& forall|c: int|
                    0 <= c < 3 ==> is_interpolated(ar, *prepared, x, y, z, c, #[trigger] out@[c])
            },
{
    let x = cubic_base_fraction(ar, r, prepared.size);
    let y = cubic_base_fraction(ar, g, prepared.size);
    let z = cubic_base_fraction(ar, b, prepared.size);
    let out = [
        interpolated(ar, prepared, x, y, z, 0),
        interpolated(ar, prepared, x, y, z, 1),
        interpolated(ar, prepared, x, y, z, 2),
    ];
    proof {
        assert(is_place(ar, r, prepared.size as nat, x));
        assert(is_place(ar, g, prepared.size as nat, y));
        assert(is_place(ar, b, prepared.size as nat, z));
    }
    out
}

/// An interpolated value that is a number lies between the lowest and the
/// highest corner of its cell.
pub proof fn lemma_no_overshoot<A: Arithmetic>(
    ar: &A,
    p: PreparedPchip3d,
    x: Place,
    y: Place,
    z: Place,
    c: int,
    r: Double,
)
    requires
        is_interpolated(ar, p, x, y, z, c, r),
        !r.nan(),
        0 <= x.base < p.size - 1,
        0 <= y.base < p.size - 1,
        0 <= z.base < p.size - 1,
        0 <= c < 3,
        p.lut@.len() == entries(p.size as int),
        forall|i: int| 0 <= i < p.lut@.len() ==> !(#[trigger] p.lut@[i]).nan(),
    ensures
        ({
            let corners = corners_of(
                p.lut@,
                p.size as int,
                x.base as int,
                y.base as int,
                z.base as int,
                c,
            );
            exists|q: int, u: int|
                0 <= q < 8 && 0 <= u < 8 && (#[trigger] corners[q]).at_most(r) && r.at_most(
                    #[trigger] corners[u],
                )
        }),
{
    let (i, j, k) = (x.base as int, y.base as int, z.base as int);
    let s = p.size as int;
    let corners = corners_of(p.lut@, s, i, j, k, c);
    lemma_entry_bound(s, i, j, k, c);
    lemma_entry_bound(s, i + 1, j, k, c);
    lemma_entry_bound(s, i, j + 1, k, c);
    lemma_entry_bound(s, i + 1, j + 1, k, c);
    lemma_entry_bound(s, i, j, k + 1, c);
    lemma_entry_bound(s, i + 1, j, k + 1, c);
    lemma_entry_bound(s, i, j + 1, k + 1, c);
    lemma_entry_bound(s, i + 1, j + 1, k + 1, c);
    assert forall|q: int| 0 <= q < 8 implies !(#[trigger] corners[q]).nan() by {
    }
    let (cell, v) = choose|cell: PchipCell, v: Double|
        {
            &&& #[trigger] p.is_cell(i, j, k, c, cell)
            &&& #[trigger] is_double(
                ar,
                cell_value(cell, x.fraction, y.fraction, z.fraction),
                v,
            )
            &&& r == v.limited(cell.min, cell.max)
        };
    lemma_cell_hull(corners, cell.min, cell.max);
}

// ── Nodes ────────────────────────────────────────────────────────────────

proof fn lemma_cubic_ends(y0: real, y1: real, m0: real, m1: real, t: real)
    by (nonlinear_arith)
    requires
        t == 0real || t == 1real,
    ensures
        (2real * (t * t * t) - 3real * (t * t) + 1real) * y0 + ((t * t * t) - 2real * (t * t) + t)
            * m0 + ((-2real) * (t * t * t) + 3real * (t * t)) * y1 + ((t * t * t) - (t * t)) * m1
            == if t == 0real {
            y0
        } else {
            y1
        },
{
}

/// Without rounding, a cubic passes through its two samples.
pub proof fn lemma_hermite_ends(
    g: Functions,
    y0: Formula,
    y1: Formula,
    m0: Formula,
    m1: Formula,
    t: Formula,
)
    requires
        exact(g, t) == 0real || exact(g, t) == 1real,
    ensures
        exact(g, hermite(y0, y1, m0, m1, t)) == if exact(g, t) == 0real {
            exact(g, y0)
        } else {
            exact(g, y1)
        },
{
    lemma_small_numbers();
    reveal_with_fuel(exact, 9);
    lemma_cubic_ends(exact(g, y0), exact(g, y1), exact(g, m0), exact(g, m1), exact(g, t));
}

/// A fraction of a cell that is one of its ends.
pub open spec fn at_end(t: Double) -> bool {
    t.finite() && (double_value(t) == 0real || double_value(t) == 1real)
}

/// The fraction is the lower end.
pub open spec fn at_low(t: Double) -> bool {
    double_value(t) == 0real
}

/// The corner of a cell that three ends meet in.
pub open spec fn met(v: Corners<Double>, tr: Double, tg: Double, tb: Double) -> Double {
    if at_low(tr) {
        if at_low(tg) {
            if at_low(tb) {
                v.c000
            } else {
                v.c001
            }
        } else if at_low(tb) {
            v.c010
        } else {
            v.c011
        }
    } else if at_low(tg) {
        if at_low(tb) {
            v.c100
        } else {
            v.c101
        }
    } else if at_low(tb) {
        v.c110
    } else {
        v.c111
    }
}

proof fn lemma_corner(g: Functions, p: PchipCell, tr: Double, tg: Double, tb: Double)
    requires
        at_end(tr),
        at_end(tg),
        at_end(tb),
    ensures
        exact(g, cell_value(p, tr, tg, tb)) == double_value(met(p.value, tr, tg, tb)),
{
    lemma_small_numbers();
    let x = double(tr);
    let y = double(tg);
    let z = double(tb);
    let v = p.value;
    let sx = p.slope_x;
    let sy = p.slope_y;
    let sz = p.slope_z;
    let v000 = hermite(double(v.c000), double(v.c100), double(sx.c000), double(sx.c100), x);
    let v010 = hermite(double(v.c010), double(v.c110), double(sx.c010), double(sx.c110), x);
    let v001 = hermite(double(v.c001), double(v.c101), double(sx.c001), double(sx.c101), x);
    let v011 = hermite(double(v.c011), double(v.c111), double(sx.c011), double(sx.c111), x);
    let sy00 = blend(double(sy.c000), x, double(sy.c100));
    let sy10 = blend(double(sy.c010), x, double(sy.c110));
    let sy01 = blend(double(sy.c001), x, double(sy.c101));
    let sy11 = blend(double(sy.c011), x, double(sy.c111));
    let sz0 = bilinear(double(sz.c000), double(sz.c100), double(sz.c010), double(sz.c110), x, y);
    let sz1 = bilinear(double(sz.c001), double(sz.c101), double(sz.c011), double(sz.c111), x, y);
    lemma_hermite_ends(g, double(v.c000), double(v.c100), double(sx.c000), double(sx.c100), x);
    lemma_hermite_ends(g, double(v.c010), double(v.c110), double(sx.c010), double(sx.c110), x);
    lemma_hermite_ends(g, double(v.c001), double(v.c101), double(sx.c001), double(sx.c101), x);
    lemma_hermite_ends(g, double(v.c011), double(v.c111), double(sx.c011), double(sx.c111), x);
    lemma_hermite_ends(g, v000, v010, sy00, sy10, y);
    lemma_hermite_ends(g, v001, v011, sy01, sy11, y);
    lemma_hermite_ends(
        g,
        hermite(v000, v010, sy00, sy10, y),
        hermite(v001, v011, sy01, sy11, y),
        sz0,
        sz1,
        z,
    );
}

/// The sample of an axis that a place at an end of its cell lies on.
pub open spec fn node(p: Place) -> int {
    if at_low(p.fraction) {
        p.base as int
    } else {
        p.base + 1
    }
}

/// Without rounding, a node of the cube gives its own value, which the bounds
/// of the cell leave as it is.
pub proof fn lemma_node_value(
    g: Functions,
    p: PreparedPchip3d,
    x: Place,
    y: Place,
    z: Place,
    c: int,
    cell: PchipCell,
)
    requires
        p.is_cell(x.base as int, y.base as int, z.base as int, c, cell),
        at_end(x.fraction),
        at_end(y.fraction),
        at_end(z.fraction),
        0 <= x.base < p.size - 1,
        0 <= y.base < p.size - 1,
        0 <= z.base < p.size - 1,
        0 <= c < 3,
        p.lut@.len() == entries(p.size as int),
        forall|i: int| 0 <= i < p.lut@.len() ==> !(#[trigger] p.lut@[i]).nan(),
    ensures
        ({
            let own = p.lut@[entry_index(p.size as int, node(x), node(y), node(z), c)];
            &&& exact(g, cell_value(cell, x.fraction, y.fraction, z.fraction)) == double_value(own)
            &&& own.limited(cell.min, cell.max) == own
        }),
{
    let (i, j, k) = (x.base as int, y.base as int, z.base as int);
    let s = p.size as int;
    let corners = corners_of(p.lut@, s, i, j, k, c);
    lemma_corner(g, cell, x.fraction, y.fraction, z.fraction);
    lemma_entry_bound(s, i, j, k, c);
    lemma_entry_bound(s, i + 1, j, k, c);
    lemma_entry_bound(s, i, j + 1, k, c);
    lemma_entry_bound(s, i + 1, j + 1, k, c);
    lemma_entry_bound(s, i, j, k + 1, c);
    lemma_entry_bound(s, i + 1, j, k + 1, c);
    lemma_entry_bound(s, i, j + 1, k + 1, c);
    lemma_entry_bound(s, i + 1, j + 1, k + 1, c);
    assert forall|q: int| 0 <= q < 8 implies !(#[trigger] corners[q]).nan() by {
    }
    lemma_cell_hull(corners, cell.min, cell.max);
    let own = p.lut@[entry_index(s, node(x), node(y), node(z), c)];
    let q = 4 * (node(x) - i) + 2 * (node(y) - j) + (node(z) - k);
    assert(met(cell.value, x.fraction, y.fraction, z.fraction) == own);
    assert(0 <= q < 8 && q / 4 == node(x) - i && q / 2 % 2 == node(y) - j && q % 2 == node(z) - k);
    assert(corners[q] == own);
}

// ── Nodes under rounding ─────────────────────────────────────────────────

/// The doubles for small whole numbers.
proof fn lemma_small_doubles()
    ensures
        stands_for(Double { bits: 0 }, 0real),
        stands_for(Double { bits: ONE }, 1real),
        stands_for(Double { bits: TWO }, 2real),
        stands_for(Double { bits: THREE }, 3real),
        stands_for(Double { bits: MINUS_TWO }, -2real),
        stands_for(Double { bits: 0xbff0_0000_0000_0000 }, -1real),
{
    lemma_small_numbers();
    lemma_huge();
    lemma2_to64_rest();
    assert(double_value(Double { bits: 0xbff0_0000_0000_0000 }) == -((0x10_0000_0000_0000int
        as real) / (0x10_0000_0000_0000int as real)));
}

/// The weights of a cubic at its lower end.
proof fn lemma_low_weights<A: Arithmetic>(ar: &A, t: Formula)
    requires
        sound(ar),
        pinned(ar, t, 0real),
    ensures
        ({
            let t2 = times(t, t);
            let t3 = times(t2, t);
            &&& pinned(
                ar,
                plus(
                    minus(times(constant(TWO), t3), times(constant(THREE), t2)),
                    constant(ONE),
                ),
                1real,
            )
            &&& pinned(ar, plus(minus(t3, times(constant(TWO), t2)), t), 0real)
            &&& pinned(
                ar,
                plus(times(constant(MINUS_TWO), t3), times(constant(THREE), t2)),
                0real,
            )
            &&& pinned(ar, minus(t3, t2), 0real)
        }),
{
    lemma_small_doubles();
    let none = Double { bits: 0 };
    let one = Double { bits: ONE };
    let t2 = times(t, t);
    let t3 = times(t2, t);
    let (two, three, back) = (constant(TWO), constant(THREE), constant(MINUS_TWO));
    lemma_pinned_times(ar, t, t, 0real, 0real, none);
    lemma_pinned_times(ar, t2, t, 0real, 0real, none);
    lemma_pinned_times(ar, two, t3, 2real, 0real, none);
    lemma_pinned_times(ar, three, t2, 3real, 0real, none);
    lemma_pinned_times(ar, two, t2, 2real, 0real, none);
    lemma_pinned_times(ar, back, t3, -2real, 0real, none);
    lemma_pinned_minus(ar, times(two, t3), times(three, t2), 0real, 0real, none);
    lemma_pinned_plus(
        ar,
        minus(times(two, t3), times(three, t2)),
        constant(ONE),
        0real,
        1real,
        one,
    );
    lemma_pinned_minus(ar, t3, times(two, t2), 0real, 0real, none);
    lemma_pinned_plus(ar, minus(t3, times(two, t2)), t, 0real, 0real, none);
    lemma_pinned_plus(ar, times(back, t3), times(three, t2), 0real, 0real, none);
    lemma_pinned_minus(ar, t3, t2, 0real, 0real, none);
}

/// The weights of a cubic at its upper end.
proof fn lemma_high_weights<A: Arithmetic>(ar: &A, t: Formula)
    requires
        sound(ar),
        pinned(ar, t, 1real),
    ensures
        ({
            let t2 = times(t, t);
            let t3 = times(t2, t);
            &&& pinned(
                ar,
                plus(
                    minus(times(constant(TWO), t3), times(constant(THREE), t2)),
                    constant(ONE),
                ),
                0real,
            )
            &&& pinned(ar, plus(minus(t3, times(constant(TWO), t2)), t), 0real)
            &&& pinned(
                ar,
                plus(times(constant(MINUS_TWO), t3), times(constant(THREE), t2)),
                1real,
            )
            &&& pinned(ar, minus(t3, t2), 0real)
        }),
{
    lemma_small_doubles();
    let none = Double { bits: 0 };
    let one = Double { bits: ONE };
    let less = Double { bits: 0xbff0_0000_0000_0000 };
    let t2 = times(t, t);
    let t3 = times(t2, t);
    let (two, three, back) = (constant(TWO), constant(THREE), constant(MINUS_TWO));
    lemma_pinned_times(ar, t, t, 1real, 1real, one);
    lemma_pinned_times(ar, t2, t, 1real, 1real, one);
    lemma_pinned_times(ar, two, t3, 2real, 1real, Double { bits: TWO });
    lemma_pinned_times(ar, three, t2, 3real, 1real, Double { bits: THREE });
    lemma_pinned_times(ar, two, t2, 2real, 1real, Double { bits: TWO });
    lemma_pinned_times(ar, back, t3, -2real, 1real, Double { bits: MINUS_TWO });
    lemma_pinned_minus(ar, times(two, t3), times(three, t2), 2real, 3real, less);
    lemma_pinned_plus(
        ar,
        minus(times(two, t3), times(three, t2)),
        constant(ONE),
        -1real,
        1real,
        none,
    );
    lemma_pinned_minus(ar, t3, times(two, t2), 1real, 2real, less);
    lemma_pinned_plus(ar, minus(t3, times(two, t2)), t, -1real, 1real, none);
    lemma_pinned_plus(ar, times(back, t3), times(three, t2), -2real, 3real, one);
    lemma_pinned_minus(ar, t3, t2, 1real, 1real, none);
}

/// A number with one value is of its size.
proof fn lemma_pinned_size<A: Arithmetic>(ar: &A, f: Formula, v: real)
    requires
        pinned(ar, f, v),
    ensures
        bounded(ar, f, size_of_real(v)),
{
}

/// A cubic gives the sample of the end that it is read at, rounding included.
proof fn lemma_hermite_pinned<A: Arithmetic>(
    ar: &A,
    y0: Formula,
    y1: Formula,
    m0: Formula,
    m1: Formula,
    t: Formula,
    low: bool,
    z0: Double,
    z1: Double,
    most: real,
)
    requires
        sound(ar),
        pinned(ar, t, if low {
            0real
        } else {
            1real
        }),
        stands_for(z0, double_value(z0)),
        stands_for(z1, double_value(z1)),
        pinned(ar, y0, double_value(z0)),
        pinned(ar, y1, double_value(z1)),
        bounded(ar, m0, most),
        bounded(ar, m1, most),
    ensures
        pinned(ar, hermite(y0, y1, m0, m1, t), if low {
            double_value(z0)
        } else {
            double_value(z1)
        }),
{
    lemma_small_doubles();
    let none = Double { bits: 0 };
    let t2 = times(t, t);
    let t3 = times(t2, t);
    let h00 = plus(
        minus(times(constant(TWO), t3), times(constant(THREE), t2)),
        constant(ONE),
    );
    let h10 = plus(minus(t3, times(constant(TWO), t2)), t);
    let h01 = plus(times(constant(MINUS_TWO), t3), times(constant(THREE), t2));
    let h11 = minus(t3, t2);
    let (a, b, c, d) = (times(h00, y0), times(h10, m0), times(h01, y1), times(h11, m1));
    let (v0, v1) = (double_value(z0), double_value(z1));
    lemma_pinned_size(ar, y0, v0);
    lemma_pinned_size(ar, y1, v1);
    if low {
        lemma_low_weights(ar, t);
        lemma_once(v0);
        lemma_pinned_times(ar, h00, y0, 1real, v0, z0);
        lemma_pinned_nothing(ar, h01, y1, size_of_real(v1));
        lemma_pinned_nothing(ar, h10, m0, most);
        lemma_pinned_nothing(ar, h11, m1, most);
        lemma_pinned_plus(ar, a, b, v0, 0real, z0);
        lemma_pinned_plus(ar, plus(a, b), c, v0, 0real, z0);
        lemma_pinned_plus(ar, plus(plus(a, b), c), d, v0, 0real, z0);
    } else {
        lemma_high_weights(ar, t);
        lemma_once(v1);
        lemma_pinned_nothing(ar, h00, y0, size_of_real(v0));
        lemma_pinned_times(ar, h01, y1, 1real, v1, z1);
        lemma_pinned_nothing(ar, h10, m0, most);
        lemma_pinned_nothing(ar, h11, m1, most);
        lemma_pinned_plus(ar, a, b, 0real, 0real, none);
        lemma_pinned_plus(ar, plus(a, b), c, 0real, v1, z1);
        lemma_pinned_plus(ar, plus(plus(a, b), c), d, v1, 0real, z1);
    }
}

proof fn lemma_once(x: real)
    by (nonlinear_arith)
    ensures
        1real * x == x,
{
}

/// The size up to which slopes are taken here.
pub open spec fn steep() -> real {
    huge() / 1000000real
}

/// A number of a limited size.
pub open spec fn is_moderate(x: Double) -> bool {
    x.finite() && size_of_real(double_value(x)) <= steep()
}

pub open spec fn are_moderate(v: Corners<Double>) -> bool {
    &&& is_moderate(v.c000)
    &&& is_moderate(v.c100)
    &&& is_moderate(v.c010)
    &&& is_moderate(v.c110)
    &&& is_moderate(v.c001)
    &&& is_moderate(v.c101)
    &&& is_moderate(v.c011)
    &&& is_moderate(v.c111)
}

proof fn lemma_blend_bounded<A: Arithmetic>(
    ar: &A,
    a: Formula,
    t: Formula,
    b: Formula,
    v: real,
    most: real,
)
    requires
        sound(ar),
        pinned(ar, t, v),
        v == 0real || v == 1real,
        bounded(ar, a, most),
        bounded(ar, b, most),
        1real <= most <= huge() / 100real,
    ensures
        bounded(ar, blend(a, t, b), 30real * most),
{
    lemma_bounded_minus(ar, b, a, most, most);
    lemma_bounded_switch(ar, t, minus(b, a), v, 4real * most + 1real);
    lemma_bounded_plus(ar, a, times(t, minus(b, a)), most, 8real * most + 3real);
}

proof fn lemma_leaf_bounded<A: Arithmetic>(ar: &A, x: Double)
    requires
        is_moderate(x),
    ensures
        bounded(ar, double(x), steep()),
        pinned(ar, double(x), double_value(x)),
{
}

proof fn lemma_slopes_bounded<A: Arithmetic>(ar: &A, p: PchipCell, tr: Double, tg: Double)
    requires
        sound(ar),
        are_moderate(p.slope_x),
        are_moderate(p.slope_y),
        are_moderate(p.slope_z),
        at_end(tr),
        at_end(tg),
    ensures
        ({
            let x = double(tr);
            let y = double(tg);
            let sy = p.slope_y;
            let sz = p.slope_z;
            let most = 900real * steep();
            &&& bounded(ar, blend(double(sy.c000), x, double(sy.c100)), most)
            &&& bounded(ar, blend(double(sy.c010), x, double(sy.c110)), most)
            &&& bounded(ar, blend(double(sy.c001), x, double(sy.c101)), most)
            &&& bounded(ar, blend(double(sy.c011), x, double(sy.c111)), most)
            &&& bounded(
                ar,
                bilinear(
                    double(sz.c000),
                    double(sz.c100),
                    double(sz.c010),
                    double(sz.c110),
                    x,
                    y,
                ),
                most,
            )
            &&& bounded(
                ar,
                bilinear(
                    double(sz.c001),
                    double(sz.c101),
                    double(sz.c011),
                    double(sz.c111),
                    x,
                    y,
                ),
                most,
            )
        }),
{
    lemma_huge();
    let x = double(tr);
    let y = double(tg);
    let (vx, vy) = (double_value(tr), double_value(tg));
    let s = steep();
    let sy = p.slope_y;
    let sz = p.slope_z;
    assert(pinned(ar, x, vx));
    assert(pinned(ar, y, vy));
    lemma_corners_bounded(ar, sy);
    lemma_corners_bounded(ar, sz);
    lemma_blend_bounded(ar, double(sy.c000), x, double(sy.c100), vx, s);
    lemma_blend_bounded(ar, double(sy.c010), x, double(sy.c110), vx, s);
    lemma_blend_bounded(ar, double(sy.c001), x, double(sy.c101), vx, s);
    lemma_blend_bounded(ar, double(sy.c011), x, double(sy.c111), vx, s);
    lemma_blend_bounded(ar, double(sz.c000), x, double(sz.c100), vx, s);
    lemma_blend_bounded(ar, double(sz.c010), x, double(sz.c110), vx, s);
    lemma_blend_bounded(ar, double(sz.c001), x, double(sz.c101), vx, s);
    lemma_blend_bounded(ar, double(sz.c011), x, double(sz.c111), vx, s);
    lemma_blend_bounded(
        ar,
        blend(double(sz.c000), x, double(sz.c100)),
        y,
        blend(double(sz.c010), x, double(sz.c110)),
        vy,
        30real * s,
    );
    lemma_blend_bounded(
        ar,
        blend(double(sz.c001), x, double(sz.c101)),
        y,
        blend(double(sz.c011), x, double(sz.c111)),
        vy,
        30real * s,
    );
}

proof fn lemma_corners_bounded<A: Arithmetic>(ar: &A, v: Corners<Double>)
    requires
        are_moderate(v),
    ensures
        bounded(ar, double(v.c000), steep()),
        bounded(ar, double(v.c100), steep()),
        bounded(ar, double(v.c010), steep()),
        bounded(ar, double(v.c110), steep()),
        bounded(ar, double(v.c001), steep()),
        bounded(ar, double(v.c101), steep()),
        bounded(ar, double(v.c011), steep()),
        bounded(ar, double(v.c111), steep()),
{
    lemma_leaf_bounded(ar, v.c000);
    lemma_leaf_bounded(ar, v.c100);
    lemma_leaf_bounded(ar, v.c010);
    lemma_leaf_bounded(ar, v.c110);
    lemma_leaf_bounded(ar, v.c001);
    lemma_leaf_bounded(ar, v.c101);
    lemma_leaf_bounded(ar, v.c011);
    lemma_leaf_bounded(ar, v.c111);
}

/// Of two samples the one of the end.
pub open spec fn end_of(t: Double, a: Double, b: Double) -> Double {
    if at_low(t) {
        a
    } else {
        b
    }
}

/// One cubic along x.
proof fn lemma_along<A: Arithmetic>(ar: &A, a: Double, b: Double, m: Double, q: Double, t: Double)
    requires
        sound(ar),
        is_moderate(a),
        is_moderate(b),
        is_moderate(m),
        is_moderate(q),
        at_end(t),
    ensures
        pinned(
            ar,
            hermite(double(a), double(b), double(m), double(q), double(t)),
            double_value(end_of(t, a, b)),
        ),
{
    lemma_huge();
    lemma_leaf_bounded(ar, a);
    lemma_leaf_bounded(ar, b);
    lemma_leaf_bounded(ar, m);
    lemma_leaf_bounded(ar, q);
    assert(pinned(ar, double(t), double_value(t)));
    lemma_hermite_pinned(
        ar,
        double(a),
        double(b),
        double(m),
        double(q),
        double(t),
        at_low(t),
        a,
        b,
        steep(),
    );
}

/// Where the arithmetic rounds as it should, the value of a cell at one of its
/// corners is the sample there.
proof fn lemma_corner_rounded<A: Arithmetic>(
    ar: &A,
    p: PchipCell,
    tr: Double,
    tg: Double,
    tb: Double,
)
    requires
        sound(ar),
        are_moderate(p.value),
        are_moderate(p.slope_x),
        are_moderate(p.slope_y),
        are_moderate(p.slope_z),
        at_end(tr),
        at_end(tg),
        at_end(tb),
    ensures
        pinned(ar, cell_value(p, tr, tg, tb), double_value(met(p.value, tr, tg, tb))),
{
    lemma_huge();
    let x = double(tr);
    let y = double(tg);
    let z = double(tb);
    let v = p.value;
    let sx = p.slope_x;
    let sy = p.slope_y;
    let sz = p.slope_z;
    let v000 = hermite(double(v.c000), double(v.c100), double(sx.c000), double(sx.c100), x);
    let v010 = hermite(double(v.c010), double(v.c110), double(sx.c010), double(sx.c110), x);
    let v001 = hermite(double(v.c001), double(v.c101), double(sx.c001), double(sx.c101), x);
    let v011 = hermite(double(v.c011), double(v.c111), double(sx.c011), double(sx.c111), x);
    let sy00 = blend(double(sy.c000), x, double(sy.c100));
    let sy10 = blend(double(sy.c010), x, double(sy.c110));
    let sy01 = blend(double(sy.c001), x, double(sy.c101));
    let sy11 = blend(double(sy.c011), x, double(sy.c111));
    let sz0 = bilinear(double(sz.c000), double(sz.c100), double(sz.c010), double(sz.c110), x, y);
    let sz1 = bilinear(double(sz.c001), double(sz.c101), double(sz.c011), double(sz.c111), x, y);
    let most = 900real * steep();
    lemma_slopes_bounded(ar, p, tr, tg);
    lemma_along(ar, v.c000, v.c100, sx.c000, sx.c100, tr);
    lemma_along(ar, v.c010, v.c110, sx.c010, sx.c110, tr);
    lemma_along(ar, v.c001, v.c101, sx.c001, sx.c101, tr);
    lemma_along(ar, v.c011, v.c111, sx.c011, sx.c111, tr);
    let e00 = end_of(tr, v.c000, v.c100);
    let e10 = end_of(tr, v.c010, v.c110);
    let e01 = end_of(tr, v.c001, v.c101);
    let e11 = end_of(tr, v.c011, v.c111);
    assert(pinned(ar, y, double_value(tg)));
    assert(pinned(ar, z, double_value(tb)));
    lemma_hermite_pinned(ar, v000, v010, sy00, sy10, y, at_low(tg), e00, e10, most);
    lemma_hermite_pinned(ar, v001, v011, sy01, sy11, y, at_low(tg), e01, e11, most);
    let e0 = end_of(tg, e00, e10);
    let e1 = end_of(tg, e01, e11);
    lemma_hermite_pinned(
        ar,
        hermite(v000, v010, sy00, sy10, y),
        hermite(v001, v011, sy01, sy11, y),
        sz0,
        sz1,
        z,
        at_low(tb),
        e0,
        e1,
        most,
    );
}

/// A coordinate that is a whole number falls on the node of this number.
proof fn lemma_node_place<A: Arithmetic>(ar: &A, coord: Double, size: nat, i: int, p: Place)
    requires
        sound(ar),
        2 <= size <= 0x20_0000_0000_0000,
        0 <= i < size,
        coord.finite(),
        double_value(coord) == i as real,
        is_place(ar, coord, size, p),
    ensures
        at_end(p.fraction),
        node(p) == i,
        0 <= p.base < size - 1,
{
    lemma_small_numbers();
    lemma_huge();
    let none = Double { bits: 0 };
    assert(none.finite());
    let upper = choose|upper: Double| #[trigger]
        is_double(ar, Formula::Whole((size - 1) as u64), upper) && placed(
            ar,
            on_axis(coord, upper),
            upper,
            size,
            p,
        );
    assert(upper.finite() && double_value(upper) == (size - 1) as real);
    lemma_order(coord, none);
    lemma_order(upper, coord);
    let c = on_axis(coord, upper);
    assert(c.finite() && double_value(c) == i as real);
    lemma_order(upper, c);
    if !upper.at_most(c) {
        let n = choose|n: i64| #[trigger]
            rounds_to(ar, Rounding::Down, double(c), n) && p.base == (if n < 0 {
                0
            } else if n > size - 2 {
                size - 2
            } else {
                n as int
            }) && is_double(ar, minus(double(c), Formula::Whole(p.base as u64)), p.fraction);
        let c0 = lemma_floor(ar, double(c), n);
        assert((i as real).floor() == i);
        assert(n == i);
        let (c1, w) = lemma_binary(
            ar,
            Binary::Minus,
            double(c),
            Formula::Whole(p.base as u64),
            p.fraction,
        );
        assert(w.finite() && double_value(w) == i as real);
    }
}

/// Where the arithmetic rounds as it should, interpolating at a node of the
/// cube gives the node's own value. Samples and slopes are of sizes up to
/// 1e294, beyond which their differences may have no numbers.
pub proof fn lemma_node_interpolated<A: Arithmetic>(
    ar: &A,
    p: PreparedPchip3d,
    coords: (Double, Double, Double),
    nodes: (int, int, int),
    x: Place,
    y: Place,
    z: Place,
    c: int,
    r: Double,
)
    requires
        sound(ar),
        2 <= p.size <= 0x20_0000_0000_0000,
        0 <= c < 3,
        0 <= nodes.0 < p.size,
        0 <= nodes.1 < p.size,
        0 <= nodes.2 < p.size,
        coords.0.finite() && double_value(coords.0) == nodes.0 as real,
        coords.1.finite() && double_value(coords.1) == nodes.1 as real,
        coords.2.finite() && double_value(coords.2) == nodes.2 as real,
        p.valid(),
        forall|i: int| 0 <= i < p.lut@.len() ==> is_moderate(#[trigger] p.lut@[i]),
        forall|i: int| 0 <= i < p.slope_x@.len() ==> is_moderate(#[trigger] p.slope_x@[i]),
        forall|i: int| 0 <= i < p.slope_y@.len() ==> is_moderate(#[trigger] p.slope_y@[i]),
        forall|i: int| 0 <= i < p.slope_z@.len() ==> is_moderate(#[trigger] p.slope_z@[i]),
        is_place(ar, coords.0, p.size as nat, x),
        is_place(ar, coords.1, p.size as nat, y),
        is_place(ar, coords.2, p.size as nat, z),
        is_interpolated(ar, p, x, y, z, c, r),
    ensures
        r.finite(),
        double_value(r) == double_value(
            p.lut@[entry_index(p.size as int, nodes.0, nodes.1, nodes.2, c)],
        ),
{
    let (i, j, k) = (x.base as int, y.base as int, z.base as int);
    let s = p.size as int;
    lemma_node_place(ar, coords.0, p.size as nat, nodes.0, x);
    lemma_node_place(ar, coords.1, p.size as nat, nodes.1, y);
    lemma_node_place(ar, coords.2, p.size as nat, nodes.2, z);
    let (cell, v) = choose|cell: PchipCell, v: Double|
        {
            &&& #[trigger] p.is_cell(i, j, k, c, cell)
            &&& #[trigger] is_double(
                ar,
                cell_value(cell, x.fraction, y.fraction, z.fraction),
                v,
            )
            &&& r == v.limited(cell.min, cell.max)
        };
    lemma_entry_bound(s, i, j, k, c);
    lemma_entry_bound(s, i + 1, j, k, c);
    lemma_entry_bound(s, i, j + 1, k, c);
    lemma_entry_bound(s, i + 1, j + 1, k, c);
    lemma_entry_bound(s, i, j, k + 1, c);
    lemma_entry_bound(s, i + 1, j, k + 1, c);
    lemma_entry_bound(s, i, j + 1, k + 1, c);
    lemma_entry_bound(s, i + 1, j + 1, k + 1, c);
    assert(are_moderate(cell.value));
    assert(are_moderate(cell.slope_x));
    assert(are_moderate(cell.slope_y));
    assert(are_moderate(cell.slope_z));
    lemma_corner_rounded(ar, cell, x.fraction, y.fraction, z.fraction);
    let none = Functions { unary: |op: Unary, v: real| 0real, power: |a: real, b: real| 0real };
    assert forall|q: int| 0 <= q < p.lut@.len() implies !(#[trigger] p.lut@[q]).nan() by {
        assert(is_moderate(p.lut@[q]));
    }
    lemma_node_value(none, p, x, y, z, c, cell);
    let own = p.lut@[entry_index(s, nodes.0, nodes.1, nodes.2, c)];
    lemma_corner(none, cell, x.fraction, y.fraction, z.fraction);
    assert(own.finite());
    lemma_order(v, own);
    lemma_order(own, v);
}

} // verus!
