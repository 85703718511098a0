//! Positions in colour tables: cube corners and reflected stencils.

use vstd::prelude::*;

use crate::arith::{is_single, minus, narrow, rounds_to, single, smaller, times, widen};
use crate::arith::{Arithmetic, Formula, Rounding, Traced};
use crate::bits::{Double, Single};
use crate::index::{lemma_row_major_bound, lemma_row_major_injective};
use crate::interp::blend;
use crate::scanning::{unit, unit_of};

verus! {

// ── Cubes ────────────────────────────────────────────────────────────────

/// Position of channel `c` of entry `(r, g, b)` of a cube of edge `size`.
pub open spec fn cube_index(size: int, r: int, g: int, b: int, c: int) -> int {
    (r * size * size + g * size + b) * 3 + c
}

/// Numbers in a cube of edge `size`, three to an entry.
pub open spec fn cube_len(size: int) -> int {
    size * size * size * 3
}

/// The entry after `i`, or the last one.
pub open spec fn next_in(i: int, size: int) -> int {
    if i + 1 < size {
        i + 1
    } else {
        size - 1
    }
}

/// An entry of the cube lies inside its data.
pub proof fn lemma_cube_bound(size: int, r: int, g: int, b: int, c: int)
    requires
        0 <= r < size,
        0 <= g < size,
        0 <= b < size,
        0 <= c < 3,
    ensures
        0 <= cube_index(size, r, g, b, c) < cube_len(size),
        0 <= g * size,
        0 <= r * size,
        0 <= r * size * size,
        r * size * size + g * size + b < size * size * size,
{
    lemma_row_major_bound(r, size, g, size);
    lemma_row_major_bound(r * size + g, size * size, b, size);
    assert((r * size + g) * size + b == r * size * size + g * size + b) by (nonlinear_arith);
    assert(0 <= g * size) by (nonlinear_arith)
        requires
            0 <= g,
            0 < size,
    ;
    assert(0 <= r * size * size) by (nonlinear_arith)
        requires
            0 <= r,
            0 < size,
    ;
}

/// Different entries or channels of the cube have different positions.
pub proof fn lemma_cube_injective(
    size: int,
    r: int,
    g: int,
    b: int,
    c: int,
    r2: int,
    g2: int,
    b2: int,
    c2: int,
)
    requires
        0 <= g < size,
        0 <= b < size,
        0 <= c < 3,
        0 <= g2 < size,
        0 <= b2 < size,
        0 <= c2 < 3,
        cube_index(size, r, g, b, c) == cube_index(size, r2, g2, b2, c2),
    ensures
        r == r2,
        g == g2,
        b == b2,
        c == c2,
{
    assert((r * size + g) * size + b == r * size * size + g * size + b) by (nonlinear_arith);
    assert((r2 * size + g2) * size + b2 == r2 * size * size + g2 * size + b2) by (nonlinear_arith);
    lemma_row_major_injective(
        r * size * size + g * size + b,
        c,
        r2 * size * size + g2 * size + b2,
        c2,
        3,
    );
    lemma_row_major_injective(r * size + g, b, r2 * size + g2, b2, size);
    lemma_row_major_injective(r, g, r2, g2, size);
}

/// The eight corners, in one channel, of the cell that begins at an entry.
pub struct Corners<T> {
    pub c000: T,
    pub c100: T,
    pub c010: T,
    pub c110: T,
    pub c001: T,
    pub c101: T,
    pub c011: T,
    pub c111: T,
}

fn cube_at<T: Copy>(data: &[T], size: usize, r: usize, g: usize, b: usize, c: usize) -> (v: T)
    requires
        r < size,
        g < size,
        b < size,
        c < 3,
        data@.len() == cube_len(size as int),
    ensures
        v == data@[cube_index(size as int, r as int, g as int, b as int, c as int)],
{
    let total: usize = data.len();
    proof {
        lemma_cube_bound(size as int, r as int, g as int, b as int, c as int);
        assert(r * size <= r * size * size) by (nonlinear_arith)
            requires
                0 <= r,
                0 < size,
        ;
    }
    data[(r * size * size + g * size + b) * 3 + c]
}

/// The values that trilinear interpolation mixes for a point whose base
/// entry is `(r0, g0, b0)`: the entries there and one further along each
/// axis, where the last entry stands for what would lie beyond it.
pub fn trilinear_corners<T: Copy>(
    data: &[T],
    size: usize,
    r0: usize,
    g0: usize,
    b0: usize,
    c: usize,
) -> (v: Corners<T>)
    requires
        r0 < size,
        g0 < size,
        b0 < size,
        c < 3,
        data@.len() == cube_len(size as int),
    ensures
        ({
            let s = size as int;
            let (r0, g0, b0, c) = (r0 as int, g0 as int, b0 as int, c as int);
            let (r1, g1, b1) = (next_in(r0, s), next_in(g0, s), next_in(b0, s));
            &&& v.c000 == data@[cube_index(s, r0, g0, b0, c)]
            &&& v.c100 == data@[cube_index(s, r1, g0, b0, c)]
            &&& v.c010 == data@[cube_index(s, r0, g1, b0, c)]
            &&& v.c110 == data@[cube_index(s, r1, g1, b0, c)]
            &&& v.c001 == data@[cube_index(s, r0, g0, b1, c)]
            &&& v.c101 == data@[cube_index(s, r1, g0, b1, c)]
            &&& v.c011 == data@[cube_index(s, r0, g1, b1, c)]
            &&& v.c111 == data@[cube_index(s, r1, g1, b1, c)]
        }),
{
    let r1: usize = if r0 + 1 < size {
        r0 + 1
    } else {
        size - 1
    };
    let g1: usize = if g0 + 1 < size {
        g0 + 1
    } else {
        size - 1
    };
    let b1: usize = if b0 + 1 < size {
        b0 + 1
    } else {
        size - 1
    };
    Corners {
        c000: cube_at(data, size, r0, g0, b0, c),
        c100: cube_at(data, size, r1, g0, b0, c),
        c010: cube_at(data, size, r0, g1, b0, c),
        c110: cube_at(data, size, r1, g1, b0, c),
        c001: cube_at(data, size, r0, g0, b1, c),
        c101: cube_at(data, size, r1, g0, b1, c),
        c011: cube_at(data, size, r0, g1, b1, c),
        c111: cube_at(data, size, r1, g1, b1, c),
    }
}

// ── Reflected stencils ───────────────────────────────────────────────────

/// Position `idx` of a row of `len` samples, reflected at its ends.
pub open spec fn reflected(idx: int, len: int) -> int {
    if idx < 0 {
        -idx
    } else if idx >= len {
        2 * (len - 1) - idx
    } else {
        idx
    }
}

/// The unsigned number that a conversion from a signed one gives: a negative
/// number counts down from the end of the range.
pub open spec fn as_unsigned(v: int) -> int {
    if v < 0 {
        v + usize::MAX + 1
    } else {
        v
    }
}

/// Reflects a position at the ends of a row of `len` samples. One reflection
/// brings back what lies less than a row beyond an end.
pub fn reflect_index(idx: isize, len: usize) -> (r: usize)
    requires
        isize::MIN < idx,
        len <= isize::MAX,
        idx >= len ==> 2 * (len - 1) <= isize::MAX,
        len > 0 || idx < isize::MAX,
    ensures
        r == as_unsigned(reflected(idx as int, len as int)),
        -len < idx < 2 * len - 1 ==> r == reflected(idx as int, len as int) && r < len,
{
    if idx < 0 {
        (-idx) as usize
    } else if idx >= len as isize {
        let v: isize = 2 * (len as isize - 1) - idx;
        if v < 0 {
            usize::MAX - ((-(v + 1)) as usize)
        } else {
            v as usize
        }
    } else {
        idx as usize
    }
}

/// Within a row the reflection of a near position
/// is a position of the row, a position of the row is its own reflection,
/// and reflecting twice changes nothing more.
pub proof fn lemma_reflect(idx: int, len: int)
    requires
        1 <= len,
        -len < idx < 2 * len - 1,
    ensures
        0 <= reflected(idx, len) < len,
        0 <= idx < len ==> reflected(idx, len) == idx,
        reflected(reflected(idx, len), len) == reflected(idx, len),
{
}

/// A mirror image at either end: samples at equal distances from an end
/// coincide.
pub proof fn lemma_reflect_symmetric(d: int, len: int)
    requires
        0 <= d < len,
    ensures
        0 <= reflected(d, len) < len,
        reflected(-d, len) == reflected(d, len),
        reflected(len - 1 + d, len) == reflected(len - 1 - d, len),
{
}

/// The four positions that a cubic stencil reads along an axis of `len`
/// samples, for a point in the cell that begins at sample `base`.
pub fn stencil(base: usize, len: usize) -> (r: [usize; 4])
    requires
        2 <= len,
        2 * (len - 1) <= isize::MAX,
        base <= len - 2,
    ensures
        forall|i: int|
            0 <= i < 4 ==> #[trigger] r@[i] == reflected(base + i - 1, len as int) && r@[i] < len,
{
    let b: isize = base as isize;
    [
        reflect_index(b - 1, len),
        reflect_index(b, len),
        reflect_index(b + 1, len),
        reflect_index(b + 2, len),
    ]
}

/// Position of channel `c` of entry `(i, j)` of a table with `second`
/// entries to a row.
pub open spec fn table_index(second: int, channels: int, i: int, j: int, c: int) -> int {
    (i * second + j) * channels + c
}

/// An entry of the table lies inside its data.
pub proof fn lemma_table_bound(
    first: int,
    second: int,
    channels: int,
    i: int,
    j: int,
    c: int,
)
    requires
        0 <= i < first,
        0 <= j < second,
        0 <= c < channels,
    ensures
        0 <= table_index(second, channels, i, j, c) < first * second * channels,
        0 <= i * second,
        0 <= (i * second + j) * channels,
        i * second + j < first * second,
{
    lemma_row_major_bound(i, first, j, second);
    lemma_row_major_bound(i * second + j, first * second, c, channels);
}

// ── Values between the entries of a cube ─────────────────────────────────

/// Position on an axis of a cube of a number between 0 and 1.
pub open spec fn axis_position(x: Single, size: int) -> Formula {
    let last = narrow(Formula::Whole((size - 1) as u64));
    smaller(times(single(unit(x)), last), last)
}

/// A cell kept within a cube.
pub open spec fn kept_cell(n: i64, size: int) -> int {
    if n < 0 {
        0
    } else if n > size - 1 {
        size - 1
    } else {
        n as int
    }
}

/// Where a number falls on an axis of a cube: a cell, and the share of the
/// next one.
#[derive(Clone, Copy)]
pub struct AxisSpot {
    pub cell: usize,
    pub share: Single,
}

/// `s` is where a number falls on an axis.
pub open spec fn is_axis_spot<A: Arithmetic>(ar: &A, x: Single, size: int, s: AxisSpot) -> bool {
    exists|f: Single, n: i64|
        {
            &&& #[trigger] is_single(ar, axis_position(x, size), f)
            &&& #[trigger] rounds_to(ar, Rounding::Down, widen(single(f)), n)
            &&& s.cell == kept_cell(n, size)
            &&& is_single(
                ar,
                minus(single(f), narrow(Formula::Whole(s.cell as u64))),
                s.share,
            )
        }
}

fn axis_spot<A: Arithmetic>(ar: &A, x: Single, size: usize) -> (s: AxisSpot)
    requires
        size > 0,
    ensures
        is_axis_spot(ar, x, size as int, s),
        s.cell < size,
{
    let end: Traced<Double> = Traced::whole(ar, (size - 1) as u64);
    let last = end.narrow(ar);
    let inside: Traced<Single> = Traced::new(ar, unit_of(x));
    let f = inside.times(ar, last).smaller(ar, last).value;
    assert(is_single(ar, axis_position(x, size as int), f));
    let ft: Traced<Single> = Traced::new(ar, f);
    let n: i64 = ft.widen(ar).rounded(ar, Rounding::Down);
    assert(rounds_to(ar, Rounding::Down, widen(single(f)), n));
    let cell: usize = if n < 0 {
        0
    } else if n as u64 > (size - 1) as u64 {
        size - 1
    } else {
        n as usize
    };
    let at: Traced<Double> = Traced::whole(ar, cell as u64);
    AxisSpot { cell, share: ft.minus(ar, at.narrow(ar)).value }
}

/// The value within a cell: its corners mixed along red, green and blue.
pub open spec fn mixed_corners(v: Corners<Single>, r: Single, g: Single, b: Single) -> Formula {
    let (fr, fg, fb) = (single(r), single(g), single(b));
    let c00 = blend(single(v.c000), fr, single(v.c100));
    let c10 = blend(single(v.c010), fr, single(v.c110));
    let c01 = blend(single(v.c001), fr, single(v.c101));
    let c11 = blend(single(v.c011), fr, single(v.c111));
    blend(blend(c00, fg, c10), fb, blend(c01, fg, c11))
}

fn lerp<A: Arithmetic>(ar: &A, a: Traced<Single>, t: Traced<Single>, b: Traced<Single>) -> (r:
    Traced<Single>)
    requires
        a.holds(ar),
        t.holds(ar),
        b.holds(ar),
    ensures
        r.holds(ar),
        r.formula@ == blend(a.formula@, t.formula@, b.formula@),
{
    a.plus(ar, t.times(ar, b.minus(ar, a)))
}

fn mix_corners<A: Arithmetic>(ar: &A, v: &Corners<Single>, r: Single, g: Single, b: Single) -> (o:
    Single)
    ensures
        is_single(ar, mixed_corners(*v, r, g, b), o),
{
    let fr: Traced<Single> = Traced::new(ar, r);
    let fg: Traced<Single> = Traced::new(ar, g);
    let fb: Traced<Single> = Traced::new(ar, b);
    let c00 = lerp(ar, Traced::new(ar, v.c000), fr, Traced::new(ar, v.c100));
    let c10 = lerp(ar, Traced::new(ar, v.c010), fr, Traced::new(ar, v.c110));
    let c01 = lerp(ar, Traced::new(ar, v.c001), fr, Traced::new(ar, v.c101));
    let c11 = lerp(ar, Traced::new(ar, v.c011), fr, Traced::new(ar, v.c111));
    let c0 = lerp(ar, c00, fg, c10);
    let c1 = lerp(ar, c01, fg, c11);
    lerp(ar, c0, fb, c1).value
}

/// `v` is the corners of a cell of a cube in channel `c`.
pub open spec fn are_corners<T>(
    data: Seq<T>,
    s: int,
    r0: int,
    g0: int,
    b0: int,
    c: int,
    v: Corners<T>,
) -> bool {
    let (r1, g1, b1) = (next_in(r0, s), next_in(g0, s), next_in(b0, s));
    &&& v.c000 == data[cube_index(s, r0, g0, b0, c)]
    &&& v.c100 == data[cube_index(s, r1, g0, b0, c)]
    &&& v.c010 == data[cube_index(s, r0, g1, b0, c)]
    &&& v.c110 == data[cube_index(s, r1, g1, b0, c)]
    &&& v.c001 == data[cube_index(s, r0, g0, b1, c)]
    &&& v.c101 == data[cube_index(s, r1, g0, b1, c)]
    &&& v.c011 == data[cube_index(s, r0, g1, b1, c)]
    &&& v.c111 == data[cube_index(s, r1, g1, b1, c)]
}

/// `o` is a cube at three spots, in channel `c`.
pub open spec fn is_cube_value<A: Arithmetic>(
    ar: &A,
    data: Seq<Single>,
    size: int,
    r: AxisSpot,
    g: AxisSpot,
    b: AxisSpot,
    c: int,
    o: Single,
) -> bool {
    exists|v: Corners<Single>| #[trigger]
        are_corners(data, size, r.cell as int, g.cell as int, b.cell as int, c, v) && is_single(
            ar,
            mixed_corners(v, r.share, g.share, b.share),
            o,
        )
}

fn cube_value<A: Arithmetic>(
    ar: &A,
    data: &[Single],
    size: usize,
    r: AxisSpot,
    g: AxisSpot,
    b: AxisSpot,
    c: usize,
) -> (o: Single)
    requires
        r.cell < size,
        g.cell < size,
        b.cell < size,
        c < 3,
        data@.len() == cube_len(size as int),
    ensures
        is_cube_value(ar, data@, size as int, r, g, b, c as int, o),
{
    let v = trilinear_corners(data, size, r.cell, g.cell, b.cell, c);
    proof {
        assert(are_corners(
            data@,
            size as int,
            r.cell as int,
            g.cell as int,
            b.cell as int,
            c as int,
            v,
        ));
    }
    mix_corners(ar, &v, r.share, g.share, b.share)
}

/// A cube at a colour whose numbers are between 0 and 1.
pub fn trilinear_3d<A: Arithmetic>(
    ar: &A,
    data: &[Single],
    size: usize,
    r: Single,
    g: Single,
    b: Single,
) -> (o: [Single; 3])
    requires
        size > 0,
        data@.len() == cube_len(size as int),
    ensures
        exists|x: AxisSpot, y: AxisSpot, z: AxisSpot|
            {
                &&& #[trigger] is_axis_spot(ar, r, size as int, x)
                &&& #[trigger] is_axis_spot(ar, g, size as int, y)
                &&& #[trigger] is_axis_spot(ar, b, size as int, z)
                &&& forall|c: int|
                    0 <= c < 3 ==> is_cube_value(
                        ar,
                        data@,
                        size as int,
                        x,
                        y,
                        z,
                        c,
                        #[trigger] o@[c],
                    )
            },
{
    let x = axis_spot(ar, r, size);
    let y = axis_spot(ar, g, size);
    let z = axis_spot(ar, b, size);
    proof {
        assert(is_axis_spot(ar, r, size as int, x));
        assert(is_axis_spot(ar, g, size as int, y));
        assert(is_axis_spot(ar, b, size as int, z));
    }
    [
        cube_value(ar, data, size, x, y, z, 0),
        cube_value(ar, data, size, x, y, z, 1),
        cube_value(ar, data, size, x, y, z, 2),
    ]
}

} // verus!
