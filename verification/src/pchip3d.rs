//! Cubes prepared for monotone cubic interpolation: slopes along each axis
//! and bounds of each cell.

use vstd::prelude::*;

use crate::bits::Double;
use crate::index::{lemma_row_major_bound, lemma_row_major_injective};
use crate::lut::Corners;

verus! {

/// Position of channel `c` of entry `(i, j, k)` of a cube of edge `size`.
pub open spec fn entry_index(size: int, i: int, j: int, k: int, c: int) -> int {
    ((i * size + j) * size + k) * 3 + c
}

/// Numbers in a cube of edge `size`.
pub open spec fn entries(size: int) -> int {
    size * size * size * 3
}

/// An entry lies inside the cube's data.
pub proof fn lemma_entry_bound(size: int, i: int, j: int, k: int, c: int)
    requires
        0 <= i < size,
        0 <= j < size,
        0 <= k < size,
        0 <= c < 3,
    ensures
        0 <= entry_index(size, i, j, k, c) < entries(size),
        0 <= i * size,
        0 <= (i * size + j) * size,
        (i * size + j) * size + k < size * size * size,
        i * size + j <= (i * size + j) * size,
{
    lemma_row_major_bound(i, size, j, size);
    lemma_row_major_bound(i * size + j, size * size, k, size);
    assert(i * size + j <= (i * size + j) * size) by (nonlinear_arith)
        requires
            0 <= i * size + j,
            1 <= size,
    ;
}

/// Different entries or channels have different positions.
pub proof fn lemma_entry_injective(
    size: int,
    i: int,
    j: int,
    k: int,
    c: int,
    i2: int,
    j2: int,
    k2: int,
    c2: int,
)
    requires
        0 <= j < size,
        0 <= k < size,
        0 <= c < 3,
        0 <= j2 < size,
        0 <= k2 < size,
        0 <= c2 < 3,
        entry_index(size, i, j, k, c) == entry_index(size, i2, j2, k2, c2),
    ensures
        i == i2,
        j == j2,
        k == k2,
        c == c2,
{
    lemma_row_major_injective(
        (i * size + j) * size + k,
        c,
        (i2 * size + j2) * size + k2,
        c2,
        3,
    );
    lemma_row_major_injective(i * size + j, k, i2 * size + j2, k2, size);
    lemma_row_major_injective(i, j, i2, j2, size);
}

/// Position of channel `c` of an entry.
pub fn idx4(size: usize, i: usize, j: usize, k: usize, c: usize) -> (r: usize)
    requires
        entry_index(size as int, i as int, j as int, k as int, c as int) <= usize::MAX,
    ensures
        r == entry_index(size as int, i as int, j as int, k as int, c as int),
{
    proof {
        lemma_position_parts(size as int, i as int, j as int, k as int);
    }
    ((i * size + j) * size + k) * 3 + c
}

/// Position of channel `c` of a cell, in a cube with `size_m1` cells along
/// each edge.
pub fn idx4_cell(size_m1: usize, i: usize, j: usize, k: usize, c: usize) -> (r: usize)
    requires
        entry_index(size_m1 as int, i as int, j as int, k as int, c as int) <= usize::MAX,
    ensures
        r == entry_index(size_m1 as int, i as int, j as int, k as int, c as int),
{
    idx4(size_m1, i, j, k, c)
}

proof fn lemma_position_parts(size: int, i: int, j: int, k: int)
    requires
        0 <= size,
        0 <= i,
        0 <= j,
        0 <= k,
    ensures
        0 <= i * size,
        0 <= (i * size + j) * size,
        size > 0 ==> i * size + j <= (i * size + j) * size,
        size == 0 ==> i * size == 0,
{
    assert(0 <= i * size) by (nonlinear_arith)
        requires
            0 <= i,
            0 <= size,
    ;
    assert(0 <= (i * size + j) * size) by (nonlinear_arith)
        requires
            0 <= i * size,
            0 <= j,
            0 <= size,
    ;
    if size > 0 {
        assert(i * size + j <= (i * size + j) * size) by (nonlinear_arith)
            requires
                0 <= i * size + j,
                1 <= size,
        ;
    } else {
        assert(i * size == 0) by (nonlinear_arith)
            requires
                size == 0,
        ;
    }
}

// ── Slopes ───────────────────────────────────────────────────────────────

/// An axis of the cube.
#[derive(Clone, Copy, Debug, PartialEq, Eq, Structural)]
pub enum Axis {
    X,
    Y,
    Z,
}

/// Position of sample `t` of the line along `axis` that crosses the other
/// two axes, in their order, at `a` and `b`.
pub open spec fn on_line(size: int, axis: Axis, t: int, a: int, b: int, c: int) -> int {
    match axis {
        Axis::X => entry_index(size, t, a, b, c),
        Axis::Y => entry_index(size, a, t, b, c),
        Axis::Z => entry_index(size, a, b, t, c),
    }
}

/// The samples of a line.
pub open spec fn line_of(lut: Seq<Double>, size: nat, axis: Axis, a: int, b: int, c: int) -> Seq<
    Double,
> {
    Seq::new(size, |t: int| lut[on_line(size as int, axis, t, a, b, c)])
}

/// The entries of `out` on a line are what `slopes_of` gives for the line's
/// samples.
pub open spec fn line_done<F: Fn(&Vec<Double>) -> Vec<Double>>(
    slopes_of: F,
    lut: Seq<Double>,
    size: nat,
    axis: Axis,
    a: int,
    b: int,
    c: int,
    out: Seq<Double>,
) -> bool {
    exists|line: Vec<Double>, slopes: Vec<Double>| #[trigger]
        call_ensures(slopes_of, (&line,), slopes) && line@ == line_of(lut, size, axis, a, b, c)
            && slopes@.len() == size && forall|t: int|
            0 <= t < size ==> out[#[trigger] on_line(size as int, axis, t, a, b, c)] == slopes@[t]
}

/// `slopes_of` takes every line of `size` samples and gives as many slopes.
pub open spec fn fills_lines<F: Fn(&Vec<Double>) -> Vec<Double>>(slopes_of: F, size: nat) -> bool {
    &&& forall|line: Vec<Double>|
        line@.len() == size ==> #[trigger] call_requires(slopes_of, (&line,))
    &&& forall|line: Vec<Double>, slopes: Vec<Double>|
        line@.len() == size && #[trigger] call_ensures(slopes_of, (&line,), slopes)
            ==> slopes@.len() == size
}

proof fn lemma_on_line_bound(size: int, axis: Axis, t: int, a: int, b: int, c: int)
    requires
        0 <= t < size,
        0 <= a < size,
        0 <= b < size,
        0 <= c < 3,
    ensures
        0 <= on_line(size, axis, t, a, b, c) < entries(size),
{
    match axis {
        Axis::X => lemma_entry_bound(size, t, a, b, c),
        Axis::Y => lemma_entry_bound(size, a, t, b, c),
        Axis::Z => lemma_entry_bound(size, a, b, t, c),
    }
}

proof fn lemma_on_line_injective(
    size: int,
    axis: Axis,
    t: int,
    a: int,
    b: int,
    c: int,
    t2: int,
    a2: int,
    b2: int,
    c2: int,
)
    requires
        0 <= t < size,
        0 <= a < size,
        0 <= b < size,
        0 <= c < 3,
        0 <= t2 < size,
        0 <= a2 < size,
        0 <= b2 < size,
        0 <= c2 < 3,
        on_line(size, axis, t, a, b, c) == on_line(size, axis, t2, a2, b2, c2),
    ensures
        t == t2,
        a == a2,
        b == b2,
        c == c2,
{
    match axis {
        Axis::X => lemma_entry_injective(size, t, a, b, c, t2, a2, b2, c2),
        Axis::Y => lemma_entry_injective(size, a, t, b, c, a2, t2, b2, c2),
        Axis::Z => lemma_entry_injective(size, a, b, t, c, a2, b2, t2, c2),
    }
}

fn line_position(size: usize, axis: Axis, t: usize, a: usize, b: usize, c: usize) -> (r: usize)
    requires
        on_line(size as int, axis, t as int, a as int, b as int, c as int) <= usize::MAX,
    ensures
        r == on_line(size as int, axis, t as int, a as int, b as int, c as int),
{
    match axis {
        Axis::X => idx4(size, t, a, b, c),
        Axis::Y => idx4(size, a, t, b, c),
        Axis::Z => idx4(size, a, b, t, c),
    }
}

/// Fills one line of `out` and leaves the other entries alone.
fn sweep_line<F: Fn(&Vec<Double>) -> Vec<Double>>(
    lut: &[Double],
    size: usize,
    axis: Axis,
    a: usize,
    b: usize,
    c: usize,
    slopes_of: &F,
    out: &mut Vec<Double>,
)
    requires
        lut@.len() == entries(size as int),
        old(out)@.len() == lut@.len(),
        a < size,
        b < size,
        c < 3,
        fills_lines(*slopes_of, size as nat),
    ensures
        final(out)@.len() == old(out)@.len(),
        line_done(
            *slopes_of,
            lut@,
            size as nat,
            axis,
            a as int,
            b as int,
            c as int,
            final(out)@,
        ),
        forall|p: int|
            0 <= p < final(out)@.len() && (forall|t: int|
                0 <= t < size ==> p != #[trigger] on_line(
                    size as int,
                    axis,
                    t,
                    a as int,
                    b as int,
                    c as int,
                )) ==> #[trigger] final(out)@[p] == old(out)@[p],
{
    let total: usize = lut.len();
    let ghost want = line_of(lut@, size as nat, axis, a as int, b as int, c as int);
    let mut line: Vec<Double> = Vec::new();
    let mut t: usize = 0;
    while t < size
        invariant
            t <= size,
            a < size,
            b < size,
            c < 3,
            total == lut@.len(),
            total == entries(size as int),
            want == line_of(lut@, size as nat, axis, a as int, b as int, c as int),
            line@ == want.subrange(0, t as int),
        decreases size - t,
    {
        proof {
            lemma_on_line_bound(size as int, axis, t as int, a as int, b as int, c as int);
        }
        line.push(lut[line_position(size, axis, t, a, b, c)]);
        t += 1;
        assert(line@ =~= want.subrange(0, t as int));
    }
    assert(line@ =~= want);
    let slopes = slopes_of(&line);
    let mut t: usize = 0;
    while t < size
        invariant
            t <= size,
            a < size,
            b < size,
            c < 3,
            total == entries(size as int),
            out@.len() == total,
            old(out)@.len() == total,
            slopes@.len() == size,
            forall|u: int|
                0 <= u < t ==> out@[#[trigger] on_line(
                    size as int,
                    axis,
                    u,
                    a as int,
                    b as int,
                    c as int,
                )] == slopes@[u],
            forall|p: int|
                0 <= p < out@.len() && (forall|u: int|
                    0 <= u < size ==> p != #[trigger] on_line(
                        size as int,
                        axis,
                        u,
                        a as int,
                        b as int,
                        c as int,
                    )) ==> #[trigger] out@[p] == old(out)@[p],
        decreases size - t,
    {
        proof {
            lemma_on_line_bound(size as int, axis, t as int, a as int, b as int, c as int);
            assert forall|u: int| 0 <= u < t implies 0 <= #[trigger] on_line(
                size as int,
                axis,
                u,
                a as int,
                b as int,
                c as int,
            ) < total && on_line(size as int, axis, u, a as int, b as int, c as int) != on_line(
                size as int,
                axis,
                t as int,
                a as int,
                b as int,
                c as int,
            ) by {
                lemma_on_line_bound(size as int, axis, u, a as int, b as int, c as int);
                if on_line(size as int, axis, u, a as int, b as int, c as int) == on_line(
                    size as int,
                    axis,
                    t as int,
                    a as int,
                    b as int,
                    c as int,
                ) {
                    lemma_on_line_injective(
                        size as int,
                        axis,
                        u,
                        a as int,
                        b as int,
                        c as int,
                        t as int,
                        a as int,
                        b as int,
                        c as int,
                    );
                }
            }
        }
        let p: usize = line_position(size, axis, t, a, b, c);
        out.set(p, slopes[t]);
        t += 1;
    }
    assert(call_ensures(*slopes_of, (&line,), slopes));
}

proof fn lemma_line_kept<F: Fn(&Vec<Double>) -> Vec<Double>>(
    slopes_of: F,
    lut: Seq<Double>,
    size: nat,
    axis: Axis,
    a: int,
    b: int,
    c: int,
    before: Seq<Double>,
    after: Seq<Double>,
    a2: int,
    b2: int,
    c2: int,
)
    requires
        0 <= a < size,
        0 <= b < size,
        0 <= c < 3,
        0 <= a2 < size,
        0 <= b2 < size,
        0 <= c2 < 3,
        (a, b, c) != (a2, b2, c2),
        before.len() == entries(size as int),
        after.len() == before.len(),
        line_done(slopes_of, lut, size, axis, a, b, c, before),
        forall|p: int|
            0 <= p < after.len() && (forall|t: int|
                0 <= t < size ==> p != #[trigger] on_line(size as int, axis, t, a2, b2, c2))
                ==> #[trigger] after[p] == before[p],
    ensures
        line_done(slopes_of, lut, size, axis, a, b, c, after),
{
    let (line, slopes) = choose|line: Vec<Double>, slopes: Vec<Double>| #[trigger]
        call_ensures(slopes_of, (&line,), slopes) && line@ == line_of(lut, size, axis, a, b, c)
            && slopes@.len() == size && forall|t: int|
            0 <= t < size ==> before[#[trigger] on_line(size as int, axis, t, a, b, c)]
                == slopes@[t];
    assert forall|t: int| 0 <= t < size implies after[#[trigger] on_line(
        size as int,
        axis,
        t,
        a,
        b,
        c,
    )] == slopes@[t] by {
        let p = on_line(size as int, axis, t, a, b, c);
        lemma_on_line_bound(size as int, axis, t, a, b, c);
        assert forall|u: int| 0 <= u < size implies p != #[trigger] on_line(
            size as int,
            axis,
            u,
            a2,
            b2,
            c2,
        ) by {
            if p == on_line(size as int, axis, u, a2, b2, c2) {
                lemma_on_line_injective(size as int, axis, t, a, b, c, u, a2, b2, c2);
            }
        }
    }
    assert(call_ensures(slopes_of, (&line,), slopes));
}

/// Every line along the axis is done.
pub open spec fn axis_done<F: Fn(&Vec<Double>) -> Vec<Double>>(
    slopes_of: F,
    lut: Seq<Double>,
    size: nat,
    axis: Axis,
    out: Seq<Double>,
) -> bool {
    forall|a: int, b: int, c: int|
        0 <= a < size && 0 <= b < size && 0 <= c < 3 ==> #[trigger] line_done(
            slopes_of,
            lut,
            size,
            axis,
            a,
            b,
            c,
            out,
        )
}

/// The slopes along one axis: for every line of the cube along it, and every
/// channel, what `slopes_of` gives for the line's samples.
pub fn sweep_axis<F: Fn(&Vec<Double>) -> Vec<Double>>(
    lut: &[Double],
    size: usize,
    axis: Axis,
    slopes_of: &F,
) -> (out: Vec<Double>)
    requires
        lut@.len() == entries(size as int),
        fills_lines(*slopes_of, size as nat),
    ensures
        out@.len() == lut@.len(),
        axis_done(*slopes_of, lut@, size as nat, axis, out@),
{
    let mut out: Vec<Double> = zeros(lut.len());
    let mut a: usize = 0;
    while a < size
        invariant
            a <= size,
            lut@.len() == entries(size as int),
            out@.len() == lut@.len(),
            fills_lines(*slopes_of, size as nat),
            forall|p: int, q: int, r: int|
                0 <= p < a && 0 <= q < size && 0 <= r < 3 ==> #[trigger] line_done(
                    *slopes_of,
                    lut@,
                    size as nat,
                    axis,
                    p,
                    q,
                    r,
                    out@,
                ),
        decreases size - a,
    {
        let mut b: usize = 0;
        while b < size
            invariant
                a < size,
                b <= size,
                lut@.len() == entries(size as int),
                out@.len() == lut@.len(),
                fills_lines(*slopes_of, size as nat),
                forall|p: int, q: int, r: int|
                    0 <= q < size && 0 <= r < 3 && (0 <= p < a || p == a && q < b)
                        ==> #[trigger] line_done(
                        *slopes_of,
                        lut@,
                        size as nat,
                        axis,
                        p,
                        q,
                        r,
                        out@,
                    ),
            decreases size - b,
        {
            let mut c: usize = 0;
            while c < 3
                invariant
                    a < size,
                    b < size,
                    c <= 3,
                    lut@.len() == entries(size as int),
                    out@.len() == lut@.len(),
                    fills_lines(*slopes_of, size as nat),
                    forall|p: int, q: int, r: int|
                        0 <= q < size && 0 <= r < 3 && (0 <= p < a || p == a && q < b || p == a
                            && q == b && r < c) ==> #[trigger] line_done(
                            *slopes_of,
                            lut@,
                            size as nat,
                            axis,
                            p,
                            q,
                            r,
                            out@,
                        ),
                decreases 3 - c,
            {
                let ghost before = out@;
                sweep_line(lut, size, axis, a, b, c, slopes_of, &mut out);
                proof {
                    assert forall|p: int, q: int, r: int|
                        0 <= q < size && 0 <= r < 3 && (0 <= p < a || p == a && q < b || p == a
                            && q == b && r < c) implies #[trigger] line_done(
                        *slopes_of,
                        lut@,
                        size as nat,
                        axis,
                        p,
                        q,
                        r,
                        out@,
                    ) by {
                        lemma_line_kept(
                            *slopes_of,
                            lut@,
                            size as nat,
                            axis,
                            p,
                            q,
                            r,
                            before,
                            out@,
                            a as int,
                            b as int,
                            c as int,
                        );
                    }
                }
                c += 1;
            }
            b += 1;
        }
        a += 1;
    }
    out
}

fn zeros(n: usize) -> (r: Vec<Double>)
    ensures
        r@.len() == n,
        forall|i: int| 0 <= i < n ==> #[trigger] r@[i] == (Double { bits: 0 }),
{
    let mut r: Vec<Double> = Vec::new();
    let mut i: usize = 0;
    while i < n
        invariant
            i <= n,
            r@.len() == i,
            forall|k: int| 0 <= k < i ==> #[trigger] r@[k] == (Double { bits: 0 }),
        decreases n - i,
    {
        r.push(Double { bits: 0 });
        i += 1;
    }
    r
}

// ── Cells ────────────────────────────────────────────────────────────────

/// Corner `q` of a cell, counted with the last axis fastest.
pub open spec fn corner(
    lut: Seq<Double>,
    size: int,
    i: int,
    j: int,
    k: int,
    c: int,
    q: int,
) -> Double {
    lut[entry_index(size, i + q / 4, j + q / 2 % 2, k + q % 2, c)]
}

/// The eight corners of a cell.
pub open spec fn corners_of(lut: Seq<Double>, size: int, i: int, j: int, k: int, c: int) -> Seq<
    Double,
> {
    Seq::new(8, |q: int| corner(lut, size, i, j, k, c, q))
}

/// `v` is the lowest of the samples, which count only where they are
/// numbers; a NaN in the first place stands.
pub open spec fn is_lowest(v: Double, samples: Seq<Double>) -> bool {
    if samples[0].nan() {
        v == samples[0]
    } else {
        &&& samples.contains(v)
        &&& !v.nan()
        &&& forall|q: int|
            0 <= q < samples.len() && !(#[trigger] samples[q]).nan() ==> v.rank()
                <= samples[q].rank()
    }
}

/// `v` is the highest of the samples, in the same sense.
pub open spec fn is_highest(v: Double, samples: Seq<Double>) -> bool {
    if samples[0].nan() {
        v == samples[0]
    } else {
        &&& samples.contains(v)
        &&& !v.nan()
        &&& forall|q: int|
            0 <= q < samples.len() && !(#[trigger] samples[q]).nan() ==> samples[q].rank()
                <= v.rank()
    }
}

fn bounds_of(samples: &Vec<Double>) -> (r: (Double, Double))
    requires
        samples@.len() > 0,
    ensures
        is_lowest(r.0, samples@),
        is_highest(r.1, samples@),
{
    let mut mn = samples[0];
    let mut mx = samples[0];
    let mut q: usize = 0;
    assert(samples@.contains(samples@[0]));
    while q < samples.len()
        invariant
            q <= samples@.len(),
            samples@.len() > 0,
            samples@[0].nan() ==> mn == samples@[0] && mx == samples@[0],
            !samples@[0].nan() ==> {
                &&& samples@.contains(mn)
                &&& samples@.contains(mx)
                &&& !mn.nan()
                &&& !mx.nan()
                &&& mn.rank() <= mx.rank()
                &&& forall|p: int|
                    0 <= p < q && !(#[trigger] samples@[p]).nan() ==> mn.rank()
                        <= samples@[p].rank() <= mx.rank()
            },
        decreases samples.len() - q,
    {
        let v = samples[q];
        assert(samples@.contains(samples@[q as int]));
        if v.is_below(mn) {
            mn = v;
        } else if mx.is_below(v) {
            mx = v;
        }
        q += 1;
    }
    (mn, mx)
}

fn gather_corners(lut: &[Double], size: usize, i: usize, j: usize, k: usize, c: usize) -> (r: Vec<
    Double,
>)
    requires
        lut@.len() == entries(size as int),
        i + 1 < size,
        j + 1 < size,
        k + 1 < size,
        c < 3,
    ensures
        r@ == corners_of(lut@, size as int, i as int, j as int, k as int, c as int),
{
    let total: usize = lut.len();
    let mut r: Vec<Double> = Vec::new();
    let mut q: usize = 0;
    while q < 8
        invariant
            q <= 8,
            total == lut@.len(),
            total == entries(size as int),
            i + 1 < size,
            j + 1 < size,
            k + 1 < size,
            c < 3,
            r@.len() == q,
            forall|p: int|
                0 <= p < q ==> #[trigger] r@[p] == corner(
                    lut@,
                    size as int,
                    i as int,
                    j as int,
                    k as int,
                    c as int,
                    p,
                ),
        decreases 8 - q,
    {
        let di: usize = q / 4;
        let dj: usize = q / 2 % 2;
        let dk: usize = q % 2;
        proof {
            lemma_entry_bound(size as int, i + di, j + dj, k + dk, c as int);
        }
        r.push(lut[idx4(size, i + di, j + dj, k + dk, c)]);
        q += 1;
    }
    assert(r@ =~= corners_of(lut@, size as int, i as int, j as int, k as int, c as int));
    r
}

/// Cells along an edge of a cube of edge `size`; an array of cells is never
/// empty.
pub open spec fn cells(size: nat) -> nat {
    if size <= 2 {
        1
    } else {
        (size - 1) as nat
    }
}

/// Every cell's entry of `low` is the lowest of its corners, and of `high`
/// the highest.
pub open spec fn cells_done(
    lut: Seq<Double>,
    size: nat,
    low: Seq<Double>,
    high: Seq<Double>,
) -> bool {
    &&& low.len() == entries(cells(size) as int)
    &&& high.len() == low.len()
    &&& size >= 2 ==> forall|i: int, j: int, k: int, c: int|
        0 <= i < size - 1 && 0 <= j < size - 1 && 0 <= k < size - 1 && 0 <= c < 3
            ==> #[trigger] cell_done(lut, size, low, high, i, j, k, c)
    &&& size < 2 ==> forall|p: int|
        0 <= p < low.len() ==> #[trigger] low[p] == (Double { bits: 0 }) && high[p] == (Double {
            bits: 0,
        })
}

pub open spec fn cell_done(
    lut: Seq<Double>,
    size: nat,
    low: Seq<Double>,
    high: Seq<Double>,
    i: int,
    j: int,
    k: int,
    c: int,
) -> bool {
    let p = entry_index(size - 1, i, j, k, c);
    let corners = corners_of(lut, size as int, i, j, k, c);
    is_lowest(low[p], corners) && is_highest(high[p], corners)
}

proof fn lemma_cells_fit(size: int)
    requires
        2 <= size,
    ensures
        entries(size - 1) <= entries(size),
        (size - 1) * (size - 1) <= size * size,
        (size - 1) * (size - 1) * (size - 1) <= size * size * size,
        0 <= (size - 1) * (size - 1),
        0 <= (size - 1) * (size - 1) * (size - 1),
        size * size <= size * size * size,
{
    let m = size - 1;
    assert(m * m <= size * size) by (nonlinear_arith)
        requires
            1 <= m == size - 1,
    ;
    assert(0 <= m * m) by (nonlinear_arith);
    assert(m * m * m <= size * size * size) by (nonlinear_arith)
        requires
            0 <= m * m <= size * size,
            0 <= m <= size,
    ;
    assert(0 <= m * m * m) by (nonlinear_arith)
        requires
            0 <= m * m,
            0 <= m,
    ;
    assert(size * size <= size * size * size) by (nonlinear_arith)
        requires
            1 <= size,
            0 <= size * size,
    ;
}

/// The lowest and the highest corner of every cell, by channel.
pub fn cell_bounds(lut: &[Double], size: usize) -> (r: (Vec<Double>, Vec<Double>))
    requires
        lut@.len() == entries(size as int),
    ensures
        cells_done(lut@, size as nat, r.0@, r.1@),
{
    if size < 2 {
        assert(entries(1) == 3);
        return (zeros(3), zeros(3));
    }
    let m: usize = size - 1;
    proof {
        lemma_cells_fit(size as int);
        assert(cells(size as nat) == m);
    }
    let mut low: Vec<Double> = Vec::new();
    let mut high: Vec<Double> = Vec::new();
    let mut i: usize = 0;
    assert(entry_index(m as int, 0, 0, 0, 0) == 0);
    while i < m
        invariant
            i <= m,
            m == size - 1,
            size >= 2,
            lut@.len() == entries(size as int),
            low@.len() == entry_index(m as int, i as int, 0, 0, 0),
            high@.len() == low@.len(),
            forall|p: int, q: int, s: int, d: int|
                0 <= p < i && 0 <= q < m && 0 <= s < m && 0 <= d < 3 ==> #[trigger] cell_done(
                    lut@,
                    size as nat,
                    low@,
                    high@,
                    p,
                    q,
                    s,
                    d,
                ),
        decreases m - i,
    {
        let mut j: usize = 0;
        while j < m
            invariant
                i < m,
                j <= m,
                m == size - 1,
                size >= 2,
                lut@.len() == entries(size as int),
                low@.len() == entry_index(m as int, i as int, j as int, 0, 0),
                high@.len() == low@.len(),
                forall|p: int, q: int, s: int, d: int|
                    0 <= q < m && 0 <= s < m && 0 <= d < 3 && (0 <= p < i || p == i && q < j)
                        ==> #[trigger] cell_done(
                        lut@,
                        size as nat,
                        low@,
                        high@,
                        p,
                        q,
                        s,
                        d,
                    ),
            decreases m - j,
        {
            let mut k: usize = 0;
            while k < m
                invariant
                    i < m,
                    j < m,
                    k <= m,
                    m == size - 1,
                    size >= 2,
                    lut@.len() == entries(size as int),
                    low@.len() == entry_index(m as int, i as int, j as int, k as int, 0),
                    high@.len() == low@.len(),
                    forall|p: int, q: int, s: int, d: int|
                        0 <= q < m && 0 <= s < m && 0 <= d < 3 && (0 <= p < i || p == i && q < j
                            || p == i && q == j && s < k) ==> #[trigger] cell_done(
                            lut@,
                            size as nat,
                            low@,
                            high@,
                            p,
                            q,
                            s,
                            d,
                        ),
                decreases m - k,
            {
                let mut c: usize = 0;
                while c < 3
                    invariant
                        i < m,
                        j < m,
                        k < m,
                        c <= 3,
                        m == size - 1,
                        size >= 2,
                        lut@.len() == entries(size as int),
                        low@.len() == entry_index(
                            m as int,
                            i as int,
                            j as int,
                            k as int,
                            c as int,
                        ),
                        high@.len() == low@.len(),
                        forall|p: int, q: int, s: int, d: int|
                            0 <= q < m && 0 <= s < m && 0 <= d < 3 && (0 <= p < i || p == i && q
                                < j || p == i && q == j && s < k || p == i && q == j && s == k
                                && d < c) ==> #[trigger] cell_done(
                                lut@,
                                size as nat,
                                low@,
                                high@,
                                p,
                                q,
                                s,
                                d,
                            ),
                    decreases 3 - c,
                {
                    let samples = gather_corners(lut, size, i, j, k, c);
                    let (mn, mx) = bounds_of(&samples);
                    let ghost low0 = low@;
                    let ghost high0 = high@;
                    low.push(mn);
                    high.push(mx);
                    proof {
                        assert forall|p: int, q: int, s: int, d: int|
                            0 <= q < m && 0 <= s < m && 0 <= d < 3 && (0 <= p < i || p == i && q
                                < j || p == i && q == j && s < k || p == i && q == j && s == k
                                && d < c) implies #[trigger] cell_done(
                            lut@,
                            size as nat,
                            low@,
                            high@,
                            p,
                            q,
                            s,
                            d,
                        ) by {
                            assert(cell_done(lut@, size as nat, low0, high0, p, q, s, d));
                            lemma_earlier(
                                m as int,
                                p,
                                q,
                                s,
                                d,
                                i as int,
                                j as int,
                                k as int,
                                c as int,
                            );
                        }
                    }
                    c += 1;
                }
                k += 1;
            }
            assert(entry_index(m as int, i as int, j as int, m as int, 0) == entry_index(
                m as int,
                i as int,
                j + 1,
                0,
                0,
            )) by (nonlinear_arith);
            j += 1;
        }
        assert(entry_index(m as int, i as int, m as int, 0, 0) == entry_index(
            m as int,
            i + 1,
            0,
            0,
            0,
        )) by (nonlinear_arith);
        i += 1;
    }
    assert(entry_index(m as int, m as int, 0, 0, 0) == entries(m as int)) by (nonlinear_arith);
    (low, high)
}

proof fn lemma_earlier(
    m: int,
    p: int,
    q: int,
    s: int,
    d: int,
    i: int,
    j: int,
    k: int,
    c: int,
)
    requires
        0 <= p < m,
        0 <= q < m,
        0 <= s < m,
        0 <= d < 3,
        0 <= j < m,
        0 <= k < m,
        0 <= c < 3,
        p < i || p == i && q < j || p == i && q == j && s < k || p == i && q == j && s == k && d
            < c,
    ensures
        0 <= entry_index(m, p, q, s, d) < entry_index(m, i, j, k, c),
{
    lemma_entry_bound(m, p, q, s, d);
    let x = p * m + q;
    let y = i * m + j;
    if p < i {
        assert(p * m + m <= i * m) by (nonlinear_arith)
            requires
                p < i,
                0 < m,
        ;
    }
    assert(x <= y);
    if x < y {
        assert(x * m + m <= y * m) by (nonlinear_arith)
            requires
                x < y,
                0 < m,
        ;
    }
}

/// A cube with its slopes along each axis and the bounds of its cells.
pub struct PreparedPchip3d {
    pub size: usize,
    pub lut: Vec<Double>,
    pub slope_x: Vec<Double>,
    pub slope_y: Vec<Double>,
    pub slope_z: Vec<Double>,
    pub cell_min: Vec<Double>,
    pub cell_max: Vec<Double>,
}

impl PreparedPchip3d {
    /// The arrays have the sizes that the edge calls for.
    pub open spec fn valid(&self) -> bool {
        let n = entries(self.size as int);
        &&& self.lut@.len() == n
        &&& self.slope_x@.len() == n
        &&& self.slope_y@.len() == n
        &&& self.slope_z@.len() == n
        &&& cells_done(self.lut@, self.size as nat, self.cell_min@, self.cell_max@)
    }
}

/// Prepares a cube: slopes along the three axes from `slopes_of`, and the
/// bounds of every cell.
pub fn prepare_with<F: Fn(&Vec<Double>) -> Vec<Double>>(
    lut: Vec<Double>,
    size: usize,
    slopes_of: F,
) -> (r: PreparedPchip3d)
    requires
        lut@.len() == entries(size as int),
        fills_lines(slopes_of, size as nat),
    ensures
        r.size == size,
        r.lut == lut,
        r.valid(),
        axis_done(slopes_of, lut@, size as nat, Axis::X, r.slope_x@),
        axis_done(slopes_of, lut@, size as nat, Axis::Y, r.slope_y@),
        axis_done(slopes_of, lut@, size as nat, Axis::Z, r.slope_z@),
{
    let slope_x = sweep_axis(lut.as_slice(), size, Axis::X, &slopes_of);
    let slope_y = sweep_axis(lut.as_slice(), size, Axis::Y, &slopes_of);
    let slope_z = sweep_axis(lut.as_slice(), size, Axis::Z, &slopes_of);
    let (cell_min, cell_max) = cell_bounds(lut.as_slice(), size);
    PreparedPchip3d { size, lut, slope_x, slope_y, slope_z, cell_min, cell_max }
}

/// What interpolation inside one cell reads, in one channel.
pub struct PchipCell {
    pub value: Corners<Double>,
    pub slope_x: Corners<Double>,
    pub slope_y: Corners<Double>,
    pub slope_z: Corners<Double>,
    pub min: Double,
    pub max: Double,
}

/// The corners of a cell in an array of the cube's shape.
pub open spec fn corners_match(
    v: Corners<Double>,
    data: Seq<Double>,
    size: int,
    i: int,
    j: int,
    k: int,
    c: int,
) -> bool {
    &&& v.c000 == data[entry_index(size, i, j, k, c)]
    &&& v.c100 == data[entry_index(size, i + 1, j, k, c)]
    &&& v.c010 == data[entry_index(size, i, j + 1, k, c)]
    &&& v.c110 == data[entry_index(size, i + 1, j + 1, k, c)]
    &&& v.c001 == data[entry_index(size, i, j, k + 1, c)]
    &&& v.c101 == data[entry_index(size, i + 1, j, k + 1, c)]
    &&& v.c011 == data[entry_index(size, i, j + 1, k + 1, c)]
    &&& v.c111 == data[entry_index(size, i + 1, j + 1, k + 1, c)]
}

fn cell_corners(data: &[Double], size: usize, i: usize, j: usize, k: usize, c: usize) -> (r: Corners<
    Double,
>)
    requires
        data@.len() == entries(size as int),
        i + 1 < size,
        j + 1 < size,
        k + 1 < size,
        c < 3,
    ensures
        corners_match(r, data@, size as int, i as int, j as int, k as int, c as int),
{
    let total: usize = data.len();
    proof {
        let (s, i, j, k, c) = (size as int, i as int, j as int, k as int, c as int);
        lemma_entry_bound(s, i, j, k, c);
        lemma_entry_bound(s, i + 1, j, k, c);
        lemma_entry_bound(s, i, j + 1, k, c);
        lemma_entry_bound(s, i + 1, j + 1, k, c);
        lemma_entry_bound(s, i, j, k + 1, c);
        lemma_entry_bound(s, i + 1, j, k + 1, c);
        lemma_entry_bound(s, i, j + 1, k + 1, c);
        lemma_entry_bound(s, i + 1, j + 1, k + 1, c);
    }
    Corners {
        c000: data[idx4(size, i, j, k, c)],
        c100: data[idx4(size, i + 1, j, k, c)],
        c010: data[idx4(size, i, j + 1, k, c)],
        c110: data[idx4(size, i + 1, j + 1, k, c)],
        c001: data[idx4(size, i, j, k + 1, c)],
        c101: data[idx4(size, i + 1, j, k + 1, c)],
        c011: data[idx4(size, i, j + 1, k + 1, c)],
        c111: data[idx4(size, i + 1, j + 1, k + 1, c)],
    }
}

impl PreparedPchip3d {
    /// `r` holds the samples, slopes and bounds of a cell.
    pub open spec fn is_cell(&self, i: int, j: int, k: int, c: int, r: PchipCell) -> bool {
        let s = self.size as int;
        &&& corners_match(r.value, self.lut@, s, i, j, k, c)
        &&& corners_match(r.slope_x, self.slope_x@, s, i, j, k, c)
        &&& corners_match(r.slope_y, self.slope_y@, s, i, j, k, c)
        &&& corners_match(r.slope_z, self.slope_z@, s, i, j, k, c)
        &&& is_lowest(r.min, corners_of(self.lut@, s, i, j, k, c))
        &&& is_highest(r.max, corners_of(self.lut@, s, i, j, k, c))
    }

    /// The samples, slopes and bounds of the cell that begins at `(i, j, k)`.
    pub fn cell(&self, i: usize, j: usize, k: usize, c: usize) -> (r: PchipCell)
        requires
            self.valid(),
            i + 1 < self.size,
            j + 1 < self.size,
            k + 1 < self.size,
            c < 3,
        ensures
            self.is_cell(i as int, j as int, k as int, c as int, r),
    {
        let m: usize = self.size - 1;
        let total: usize = self.cell_min.len();
        proof {
            lemma_entry_bound(m as int, i as int, j as int, k as int, c as int);
            assert(cell_done(
                self.lut@,
                self.size as nat,
                self.cell_min@,
                self.cell_max@,
                i as int,
                j as int,
                k as int,
                c as int,
            ));
        }
        let p: usize = idx4_cell(m, i, j, k, c);
        PchipCell {
            value: cell_corners(self.lut.as_slice(), self.size, i, j, k, c),
            slope_x: cell_corners(self.slope_x.as_slice(), self.size, i, j, k, c),
            slope_y: cell_corners(self.slope_y.as_slice(), self.size, i, j, k, c),
            slope_z: cell_corners(self.slope_z.as_slice(), self.size, i, j, k, c),
            min: self.cell_min[p],
            max: self.cell_max[p],
        }
    }
}

/// In a cell of numbers the bounds are in order and every corner lies
/// between them, so a value clamped to them stays within what the corners
/// span.
pub proof fn lemma_cell_hull(corners: Seq<Double>, low: Double, high: Double)
    requires
        corners.len() == 8,
        forall|q: int| 0 <= q < 8 ==> !(#[trigger] corners[q]).nan(),
        is_lowest(low, corners),
        is_highest(high, corners),
    ensures
        low.at_most(high),
        forall|q: int|
            0 <= q < 8 ==> low.at_most(#[trigger] corners[q]) && corners[q].at_most(high),
{
    assert(!corners[0].nan());
    assert forall|q: int| 0 <= q < 8 implies low.at_most(#[trigger] corners[q])
        && corners[q].at_most(high) by {
        assert(!corners[q].nan());
    }
}

} // verus!
