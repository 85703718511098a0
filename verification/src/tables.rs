//! Tables that stand in for a function of three densities.

use vstd::prelude::*;

use crate::arith::{double, evaluates, is_double, minus, over, plus, times};
use crate::arith::{Arithmetic, Formula, Sample, Traced};
use crate::bits::Double;
use crate::image::ImageBuf;
use crate::pchip::{is_interpolated, is_place, pchip_interp, Place};
use crate::pchip3d::{entries, entry_index, lemma_entry_bound, lemma_entry_injective};
use crate::pchip3d::PreparedPchip3d;

verus! {

/// Coordinate `i` of an axis of `steps` samples from `low` to `high`.
pub open spec fn grid_coordinate(low: Double, high: Double, i: int, steps: int) -> Formula {
    plus(
        double(low),
        over(
            times(minus(double(high), double(low)), Formula::Whole(i as u64)),
            Formula::Whole((steps - 1) as u64),
        ),
    )
}

fn coordinate<T: Sample, A: Arithmetic>(
    ar: &A,
    low: Double,
    high: Double,
    i: usize,
    steps: usize,
) -> (r: T)
    requires
        steps >= 1,
    ensures
        evaluates(
            ar,
            T::stored(grid_coordinate(low, high, i as int, steps as int)),
            r.number(),
        ),
{
    let a: Traced<Double> = Traced::new(ar, low);
    let b: Traced<Double> = Traced::new(ar, high);
    let at: Traced<Double> = Traced::whole(ar, i as u64);
    let last: Traced<Double> = Traced::whole(ar, (steps - 1) as u64);
    let v = a.plus(ar, b.minus(ar, a).times(ar, at).over(ar, last));
    T::store(ar, v).value
}

/// `r` is the grid of the densities between `low` and `high`, laid out as an
/// image so that the entry of a cube at `(i, j, k)` holds the coordinates
/// `i`, `j` and `k` of the three channels.
pub open spec fn is_grid<T: Sample, A: Arithmetic>(
    ar: &A,
    steps: nat,
    low: [Double; 3],
    high: [Double; 3],
    r: ImageBuf<T>,
) -> bool {
    &&& r.width == steps
    &&& r.height == steps * steps
    &&& r.valid()
    &&& r.data@.len() == entries(steps as int)
    &&& forall|i: int, j: int, k: int|
        0 <= i < steps && 0 <= j < steps && 0 <= k < steps ==> #[trigger] holds_coordinates(
            ar,
            steps,
            low,
            high,
            r.data@,
            i,
            j,
            k,
        )
}

/// The entry at `(i, j, k)` holds its coordinates.
pub open spec fn holds_coordinates<T: Sample, A: Arithmetic>(
    ar: &A,
    steps: nat,
    low: [Double; 3],
    high: [Double; 3],
    data: Seq<T>,
    i: int,
    j: int,
    k: int,
) -> bool {
    let s = steps as int;
    &&& evaluates(
        ar,
        T::stored(grid_coordinate(low@[0], high@[0], i, s)),
        data[entry_index(s, i, j, k, 0)].number(),
    )
    &&& evaluates(
        ar,
        T::stored(grid_coordinate(low@[1], high@[1], j, s)),
        data[entry_index(s, i, j, k, 1)].number(),
    )
    &&& evaluates(
        ar,
        T::stored(grid_coordinate(low@[2], high@[2], k, s)),
        data[entry_index(s, i, j, k, 2)].number(),
    )
}

proof fn lemma_entry_split(s: int, m: int)
    requires
        0 < s,
        0 <= m < s * s * s,
    ensures
        0 <= m / s / s < s,
        0 <= m / s % s < s,
        0 <= m % s < s,
        forall|c: int|
            #[trigger] entry_index(s, m / s / s, m / s % s, m % s, c) == 3 * m + c,
{
    vstd::arithmetic::div_mod::lemma_fundamental_div_mod(m, s);
    vstd::arithmetic::div_mod::lemma_fundamental_div_mod(m / s, s);
    assert(m / s < s * s) by (nonlinear_arith)
        requires
            0 <= m < s * s * s,
            0 < s,
    ;
    assert(0 <= m / s) by (nonlinear_arith)
        requires
            0 <= m,
            0 < s,
    ;
    let q = m / s;
    assert(q / s < s) by (nonlinear_arith)
        requires
            0 <= q < s * s,
            0 < s,
    ;
    assert(0 <= q / s) by (nonlinear_arith)
        requires
            0 <= q,
            0 < s,
    ;
    assert forall|c: int|
        #[trigger] entry_index(s, m / s / s, m / s % s, m % s, c) == 3 * m + c by {
        assert((q / s) * s == s * (q / s)) by (nonlinear_arith);
        assert(q * s == s * q) by (nonlinear_arith);
    }
}

/// The grid of the densities between `low` and `high`.
pub fn build_lut_grid<T: Sample, A: Arithmetic>(
    ar: &A,
    steps: usize,
    data_min: [Double; 3],
    data_max: [Double; 3],
) -> (r: ImageBuf<T>)
    requires
        1 <= steps,
        steps * steps <= u32::MAX,
        steps * steps * steps * 3 <= usize::MAX,
    ensures
        is_grid(ar, steps as nat, data_min, data_max, r),
{
    proof {
        assert(steps <= steps * steps) by (nonlinear_arith)
            requires
                1 <= steps,
        ;
        assert(steps * steps <= steps * steps * steps) by (nonlinear_arith)
            requires
                1 <= steps,
        ;
    }
    let square: usize = steps * steps;
    let count: usize = square * steps;
    let mut pixels: Vec<[T; 3]> = Vec::new();
    let mut m: usize = 0;
    while m < count
        invariant
            m <= count,
            count == steps * steps * steps,
            1 <= steps,
            pixels@.len() == m,
            forall|q: int|
                0 <= q < m ==> #[trigger] pixel_holds(
                    ar,
                    steps as nat,
                    data_min,
                    data_max,
                    pixels@[q],
                    q,
                ),
        decreases count - m,
    {
        proof {
            lemma_entry_split(steps as int, m as int);
        }
        let i: usize = m / steps / steps;
        let j: usize = m / steps % steps;
        let k: usize = m % steps;
        let px: [T; 3] = [
            coordinate(ar, data_min[0], data_max[0], i, steps),
            coordinate(ar, data_min[1], data_max[1], j, steps),
            coordinate(ar, data_min[2], data_max[2], k, steps),
        ];
        let ghost before = pixels@;
        pixels.push(px);
        proof {
            assert forall|q: int| 0 <= q < m + 1 implies #[trigger] pixel_holds(
                ar,
                steps as nat,
                data_min,
                data_max,
                pixels@[q],
                q,
            ) by {
                if q < m {
                    assert(pixels@[q] == before[q]);
                    assert(pixel_holds(
                        ar,
                        steps as nat,
                        data_min,
                        data_max,
                        before[q],
                        q,
                    ));
                }
            }
        }
        m += 1;
    }
    assert(steps as u32 * square as u32 == count) by (nonlinear_arith)
        requires
            count == steps * steps * steps,
            square == steps * steps,
            steps <= u32::MAX,
            square <= u32::MAX,
    ;
    let r = ImageBuf::from_pixels(steps as u32, square as u32, pixels.as_slice());
    proof {
        let s = steps as int;
        assert(entries(s) == s * s * s * 3) by (nonlinear_arith);
        assert forall|i: int, j: int, k: int|
            0 <= i < s && 0 <= j < s && 0 <= k < s implies #[trigger] holds_coordinates(
            ar,
            steps as nat,
            data_min,
            data_max,
            r.data@,
            i,
            j,
            k,
        ) by {
            let q = (i * s + j) * s + k;
            lemma_entry_bound(s, i, j, k, 0);
            lemma_entry_bound(s, i, j, k, 2);
            assert(entry_index(s, i, j, k, 0) == 3 * q);
            lemma_entry_split(s, q);
            assert(entry_index(s, q / s / s, q / s % s, q % s, 0) == 3 * q + 0);
            lemma_entry_injective(s, i, j, k, 0, q / s / s, q / s % s, q % s, 0);
            assert(pixel_holds(ar, steps as nat, data_min, data_max, pixels@[q], q));
        }
    }
    r
}

/// A pixel of the grid holds the coordinates of its entry.
spec fn pixel_holds<T: Sample, A: Arithmetic>(
    ar: &A,
    steps: nat,
    low: [Double; 3],
    high: [Double; 3],
    px: [T; 3],
    q: int,
) -> bool {
    let s = steps as int;
    &&& evaluates(
        ar,
        T::stored(grid_coordinate(low@[0], high@[0], q / s / s, s)),
        px@[0].number(),
    )
    &&& evaluates(
        ar,
        T::stored(grid_coordinate(low@[1], high@[1], q / s % s, s)),
        px@[1].number(),
    )
    &&& evaluates(
        ar,
        T::stored(grid_coordinate(low@[2], high@[2], q % s, s)),
        px@[2].number(),
    )
}

// ── Reading a table ──────────────────────────────────────────────────────

/// What a distance from the lower bound is multiplied by to count samples.
pub open spec fn axis_scale(low: Double, high: Double, size: int) -> Formula {
    over(Formula::Whole((size - 1) as u64), minus(double(high), double(low)))
}

/// The scales of the three axes.
pub open spec fn are_scales<A: Arithmetic>(
    ar: &A,
    low: [Double; 3],
    high: [Double; 3],
    size: int,
    inv: [Double; 3],
) -> bool {
    &&& is_double(ar, axis_scale(low@[0], high@[0], size), inv@[0])
    &&& is_double(ar, axis_scale(low@[1], high@[1], size), inv@[1])
    &&& is_double(ar, axis_scale(low@[2], high@[2], size), inv@[2])
}

fn scale_of<A: Arithmetic>(ar: &A, low: Double, high: Double, size: usize) -> (r: Double)
    requires
        size >= 1,
    ensures
        is_double(ar, axis_scale(low, high, size as int), r),
{
    let a: Traced<Double> = Traced::new(ar, low);
    let b: Traced<Double> = Traced::new(ar, high);
    let last: Traced<Double> = Traced::whole(ar, (size - 1) as u64);
    last.over(ar, b.minus(ar, a)).value
}

/// The scales of the three axes.
pub fn scales<A: Arithmetic>(ar: &A, low: [Double; 3], high: [Double; 3], size: usize) -> (r: [Double;
    3])
    requires
        size >= 1,
    ensures
        are_scales(ar, low, high, size as int, r),
{
    [
        scale_of(ar, low[0], high[0], size),
        scale_of(ar, low[1], high[1], size),
        scale_of(ar, low[2], high[2], size),
    ]
}

/// A density as a coordinate of the table.
pub open spec fn table_coordinate<T: Sample>(x: T, low: Double, inv: Double) -> Formula {
    times(minus(x.fetched(), double(low)), double(inv))
}

fn coordinate_of<T: Sample, A: Arithmetic>(ar: &A, x: T, low: Double, inv: Double) -> (r: Double)
    ensures
        is_double(ar, table_coordinate(x, low, inv), r),
{
    let v = x.fetch(ar);
    v.minus(ar, Traced::new(ar, low)).times(ar, Traced::new(ar, inv)).value
}

/// `out` is the table at the densities of a pixel.
pub open spec fn is_table_value<T: Sample, A: Arithmetic>(
    ar: &A,
    p: PreparedPchip3d,
    low: [Double; 3],
    inv: [Double; 3],
    p0: T,
    p1: T,
    p2: T,
    out: [Double; 3],
) -> bool {
    exists|r: Double, g: Double, b: Double, x: Place, y: Place, z: Place|
        {
            &&& #[trigger] is_double(ar, table_coordinate(p0, low@[0], inv@[0]), r)
            &&& #[trigger] is_double(ar, table_coordinate(p1, low@[1], inv@[1]), g)
            &&& #[trigger] is_double(ar, table_coordinate(p2, low@[2], inv@[2]), b)
            &&& #[trigger] is_place(ar, r, p.size as nat, x)
            &&& #[trigger] is_place(ar, g, p.size as nat, y)
            &&& #[trigger] is_place(ar, b, p.size as nat, z)
            &&& forall|c: int|
                0 <= c < 3 ==> is_interpolated(ar, p, x, y, z, c, #[trigger] out@[c])
        }
}

/// The table at the densities of a pixel.
pub fn table_value<T: Sample, A: Arithmetic>(
    ar: &A,
    p: &PreparedPchip3d,
    low: [Double; 3],
    inv: [Double; 3],
    p0: T,
    p1: T,
    p2: T,
) -> (out: [Double; 3])
    requires
        p.valid(),
        p.size >= 2,
    ensures
        is_table_value(ar, *p, low, inv, p0, p1, p2, out),
{
    let r = coordinate_of(ar, p0, low[0], inv[0]);
    let g = coordinate_of(ar, p1, low[1], inv[1]);
    let b = coordinate_of(ar, p2, low[2], inv[2]);
    let out = pchip_interp(ar, p, r, g, b);
    proof {
        assert(is_double(ar, table_coordinate(p0, low@[0], inv@[0]), r));
        assert(is_double(ar, table_coordinate(p1, low@[1], inv@[1]), g));
        assert(is_double(ar, table_coordinate(p2, low@[2], inv@[2]), b));
    }
    out
}

} // verus!
