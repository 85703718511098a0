//! The commands: which paper a film is printed on, the parameters of a run,
//! and tables for other programs.

use vstd::prelude::*;

use crate::arith::{evaluates, narrow, over, Arithmetic, Formula, Sample, Traced};
use crate::backend::ComputeBackend;
use crate::bits::Double;
use crate::catalog::text_in;
use crate::files::{set_for_input, set_input_of};
use crate::glare::draws_counted;
use crate::image::{pixels_of, ImageBuf};
use crate::params::{CameraParams, DirCouplersParams, FilmRenderingParams, GrainParams};
use crate::params::{HalationParams, IoParams, RuntimeParams};
use crate::pipeline::Pipeline;
use crate::text::{decimal, decimal_string, lowercase, lowercase_of, same};

verus! {

// ── The paper of a film ──────────────────────────────────────────────────

/// The stock that a film is printed on: itself where it is scanned, the
/// paper that is asked for, or the one that it was made for.
pub open spec fn stock_for(
    film: Seq<char>,
    paper: Option<Seq<char>>,
    scan_film: bool,
    target: Option<Seq<char>>,
) -> Option<Seq<char>> {
    if scan_film {
        Some(film)
    } else if paper is Some {
        paper
    } else {
        target
    }
}

/// The stock that a film is printed on, or a message where none is given.
pub fn print_stock(
    film_name: &str,
    paper_name: Option<&str>,
    scan_film: bool,
    target_print: Option<&str>,
) -> (r: Result<String, String>)
    ensures
        match stock_for(film_name@, text_in(paper_name), scan_film, text_in(target_print)) {
            Some(s) => r matches Ok(t) && t@ == s,
            None => r matches Err(m) && m@
                == "no paper specified and film has no target_print — use --paper or --scan-film"@,
        },
{
    if scan_film {
        return Ok(film_name.to_owned());
    }
    match paper_name {
        Some(p) => Ok(p.to_owned()),
        None => match target_print {
            Some(t) => Ok(t.to_owned()),
            None => Err(
                "no paper specified and film has no target_print — use --paper or --scan-film".to_owned(),
            ),
        },
    }
}

/// The stock that a table is made for, or a message where none is given.
pub fn lut_stock(paper_name: Option<&str>, target_print: Option<&str>) -> (r: Result<String, String>)
    ensures
        match stock_for(Seq::empty(), text_in(paper_name), false, text_in(target_print)) {
            Some(s) => r matches Ok(t) && t@ == s,
            None => r matches Err(m) && m@ == "no paper specified and film has no target_print"@,
        },
{
    match paper_name {
        Some(p) => Ok(p.to_owned()),
        None => match target_print {
            Some(t) => Ok(t.to_owned()),
            None => Err("no paper specified and film has no target_print".to_owned()),
        },
    }
}

// ── Parameters ───────────────────────────────────────────────────────────

/// The parameters of a run on a file with an extension in lower case.
pub open spec fn are_run_params(
    before: RuntimeParams,
    scan_film: bool,
    ext: Seq<char>,
    after: RuntimeParams,
) -> bool {
    &&& after == (RuntimeParams { io: after.io, ..before })
    &&& set_for_input((IoParams { scan_film, ..before.io }), ext, after.io)
}

/// Sets the parameters of a run on a file with this extension.
pub fn set_run_params(params: &mut RuntimeParams, scan_film: bool, ext: &str)
    ensures
        are_run_params(*old(params), scan_film, lowercase(ext@), *final(params)),
{
    let lower = lowercase_of(ext);
    set_run_params_of(params, scan_film, lower.as_str());
}

/// Sets the parameters of a run on a file with an extension in lower case.
pub fn set_run_params_of(params: &mut RuntimeParams, scan_film: bool, ext: &str)
    ensures
        are_run_params(*old(params), scan_film, ext@, *final(params)),
{
    params.io.scan_film = scan_film;
    set_input_of(&mut params.io, ext);
}

/// The parameters of a run without spectral tables.
pub open spec fn are_plain_params(scan_film: bool, ext: Seq<char>, r: RuntimeParams) -> bool {
    exists|d: RuntimeParams| #[trigger]
        d.is_default() && r == (RuntimeParams {
            io: IoParams { scan_film, input_color_space: r.io.input_color_space, ..d.io },
            ..d
        }) && if ext == "png"@ {
            r.io.input_color_space@ == "sRGB"@
        } else {
            r.io.input_color_space == d.io.input_color_space
        }
}

/// The parameters of a run without spectral tables, on a file with an
/// extension in lower case.
pub fn plain_params(scan_film: bool, ext: &str) -> (r: RuntimeParams)
    ensures
        are_plain_params(scan_film, ext@, r),
{
    let mut p = RuntimeParams::default();
    let ghost d = p;
    p.io.scan_film = scan_film;
    if same(ext, "png") {
        p.io.input_color_space = "sRGB".to_owned();
    }
    assert(d.is_default());
    p
}

/// The parameters of a table: the defaults without what depends on place.
pub open spec fn are_lut_params(r: RuntimeParams) -> bool {
    exists|d: RuntimeParams| #[trigger]
        d.is_default() && r == (RuntimeParams {
            camera: CameraParams { auto_exposure: false, ..d.camera },
            film_render: FilmRenderingParams {
                grain: GrainParams { active: false, ..d.film_render.grain },
                halation: HalationParams { active: false, ..d.film_render.halation },
                dir_couplers: DirCouplersParams { active: false, ..d.film_render.dir_couplers },
                ..d.film_render
            },
            ..d
        })
}

/// The parameters of a table.
pub fn lut_params() -> (r: RuntimeParams)
    ensures
        are_lut_params(r),
{
    let mut p = RuntimeParams::default();
    let ghost d = p;
    p.film_render.grain.active = false;
    p.film_render.halation.active = false;
    p.film_render.dir_couplers.active = false;
    p.camera.auto_exposure = false;
    assert(d.is_default());
    p
}

/// How often a run is repeated.
pub fn run_count(iters: usize) -> (r: usize)
    ensures
        r == if iters > 1 {
            iters
        } else {
            1
        },
{
    if iters > 1 {
        iters
    } else {
        1
    }
}

// ── Tables ───────────────────────────────────────────────────────────────

/// Points of a table.
pub open spec fn cube_points(size: int) -> int {
    size * size * size
}

/// Steps of point `k` of a table in red, green and blue; red goes fastest.
pub open spec fn cube_steps(size: int, k: int) -> (int, int, int) {
    (k % size, k / size % size, k / size / size)
}

/// `v` is step `i` of `size` between 0 and 1.
pub open spec fn is_step<T: Sample, A: Arithmetic>(ar: &A, i: int, size: int, v: T) -> bool {
    evaluates(
        ar,
        T::extended(
            over(narrow(Formula::Whole(i as u64)), narrow(Formula::Whole((size - 1) as u64))),
        ),
        v.number(),
    )
}

fn step_value<T: Sample, A: Arithmetic>(ar: &A, i: usize, size: usize) -> (r: T)
    requires
        size > 0,
    ensures
        is_step(ar, i as int, size as int, r),
{
    let at: Traced<Double> = Traced::whole(ar, i as u64);
    let end: Traced<Double> = Traced::whole(ar, (size - 1) as u64);
    let share = at.narrow(ar).over(ar, end.narrow(ar));
    T::extend(ar, share).value
}

/// `image` is the one pixel of point `k` of a table.
pub open spec fn is_cube_point<T: Sample, A: Arithmetic>(
    ar: &A,
    size: int,
    k: int,
    image: ImageBuf<T>,
) -> bool {
    &&& image.width == 1
    &&& image.height == 1
    &&& image.data@.len() == 3
    &&& is_step(ar, cube_steps(size, k).0, size, image.data@[0])
    &&& is_step(ar, cube_steps(size, k).1, size, image.data@[1])
    &&& is_step(ar, cube_steps(size, k).2, size, image.data@[2])
}

/// The one pixel of a point of a table.
pub fn cube_point<T: Sample, A: Arithmetic>(ar: &A, size: usize, k: usize) -> (r: ImageBuf<T>)
    requires
        size > 0,
    ensures
        is_cube_point(ar, size as int, k as int, r),
        r.valid(),
{
    let ri: usize = k % size;
    let gi: usize = k / size % size;
    let bi: usize = k / size / size;
    let mut data: Vec<T> = Vec::new();
    data.push(step_value(ar, ri, size));
    data.push(step_value(ar, gi, size));
    data.push(step_value(ar, bi, size));
    assert(pixels_of(1, 1) == 1);
    ImageBuf { width: 1, height: 1, data }
}

/// `r` is what a pipeline makes of point `k` of a table.
pub open spec fn is_cube_sample<
    T: Sample,
    A: Arithmetic,
    B: ComputeBackend<T>,
    D: Fn(Double, Double, u64, usize) -> Vec<Double>,
>(
    ar: &A,
    pipeline: Pipeline,
    backend: &B,
    draw: D,
    size: int,
    k: int,
    r: [T; 3],
) -> bool {
    exists|image: ImageBuf<T>, out: ImageBuf<T>|
        {
            &&& #[trigger] is_cube_point(ar, size, k, image)
            &&& #[trigger] pipeline.is_render(ar, backend, image, draw, Some(out))
            &&& r@[0] == out.data@[0]
            &&& r@[1] == out.data@[1]
            &&& r@[2] == out.data@[2]
        }
}

fn cube_sample<
    T: Sample,
    A: Arithmetic,
    B: ComputeBackend<T>,
    D: Fn(Double, Double, u64, usize) -> Vec<Double>,
>(
    ar: &A,
    pipeline: &Pipeline,
    backend: &B,
    draw: &D,
    size: usize,
    k: usize,
) -> (r: [T; 3])
    requires
        size > 0,
        pipeline.ready(),
        !pipeline.params.film_render.grain.active,
        draws_counted(*draw),
    ensures
        is_cube_sample(ar, *pipeline, backend, *draw, size as int, k as int, r),
{
    let image: ImageBuf<T> = cube_point(ar, size, k);
    match pipeline.process(ar, backend, &image, draw) {
        Some(out) => {
            proof {
                assert(pixels_of(1, 1) == 1);
                assert(is_cube_point(ar, size as int, k as int, image));
                assert(pipeline.is_render(ar, backend, image, *draw, Some(out)));
            }
            [out.data[0], out.data[1], out.data[2]]
        },
        None => [T::zero(), T::zero(), T::zero()],
    }
}

/// The colours of a table, red going fastest.
pub fn sample_cube<
    T: Sample,
    A: Arithmetic,
    B: ComputeBackend<T>,
    D: Fn(Double, Double, u64, usize) -> Vec<Double>,
>(ar: &A, pipeline: &Pipeline, backend: &B, draw: &D, size: usize) -> (r: Vec<[T; 3]>)
    requires
        cube_points(size as int) <= usize::MAX,
        pipeline.ready(),
        !pipeline.params.film_render.grain.active,
        draws_counted(*draw),
    ensures
        r@.len() == cube_points(size as int),
        forall|k: int|
            0 <= k < r@.len() ==> is_cube_sample(
                ar,
                *pipeline,
                backend,
                *draw,
                size as int,
                k,
                #[trigger] r@[k],
            ),
{
    proof {
        assert(size * size <= size * size * size) by (nonlinear_arith)
            requires
                size >= 0,
        ;
        assert(0 <= size * size) by (nonlinear_arith);
        assert(size * size * size >= 0) by (nonlinear_arith);
        assert(size == 0 ==> size * size * size == 0) by (nonlinear_arith);
    }
    let square: usize = size * size;
    let total: usize = square * size;
    let mut r: Vec<[T; 3]> = Vec::new();
    let mut k: usize = 0;
    while k < total
        invariant
            k <= total,
            total == cube_points(size as int),
            size == 0 ==> total == 0,
            pipeline.ready(),
            !pipeline.params.film_render.grain.active,
            draws_counted(*draw),
            r@.len() == k,
            forall|j: int|
                0 <= j < k ==> is_cube_sample(
                    ar,
                    *pipeline,
                    backend,
                    *draw,
                    size as int,
                    j,
                    #[trigger] r@[j],
                ),
        decreases total - k,
    {
        let v: [T; 3] = cube_sample(ar, pipeline, backend, draw, size, k);
        r.push(v);
        k += 1;
    }
    r
}

/// The head of a table's file.
pub open spec fn cube_head(film: Seq<char>, print: Seq<char>, size: u32) -> Seq<char> {
    "# Created by spektrafilm-rs\nTITLE \"spektrafilm "@ + film + " → "@ + print
        + "\"\nLUT_3D_SIZE "@ + decimal(size as nat) + "\n\n"@
}

/// The first `n` lines of a table's file.
pub open spec fn cube_lines(rows: Seq<[String; 3]>, n: int) -> Seq<char>
    decreases n,
{
    if n <= 0 {
        Seq::empty()
    } else {
        cube_lines(rows, n - 1) + rows[n - 1]@[0]@ + " "@ + rows[n - 1]@[1]@ + " "@
            + rows[n - 1]@[2]@ + "\n"@
    }
}

/// The file of a table, from its numbers in decimal notation.
pub fn cube_file(film: &str, print: &str, size: u32, rows: &Vec<[String; 3]>) -> (r: String)
    ensures
        r@ == cube_head(film@, print@, size) + cube_lines(rows@, rows@.len() as int),
{
    let mut r = String::new();
    r.append("# Created by spektrafilm-rs\nTITLE \"spektrafilm ");
    r.append(film);
    r.append(" → ");
    r.append(print);
    r.append("\"\nLUT_3D_SIZE ");
    r.append(decimal_string(size as u64).as_str());
    r.append("\n\n");
    assert(r@ =~= cube_head(film@, print@, size) + cube_lines(rows@, 0));
    let mut i: usize = 0;
    while i < rows.len()
        invariant
            i <= rows@.len(),
            r@ == cube_head(film@, print@, size) + cube_lines(rows@, i as int),
        decreases rows.len() - i,
    {
        r.append(rows[i][0].as_str());
        r.append(" ");
        r.append(rows[i][1].as_str());
        r.append(" ");
        r.append(rows[i][2].as_str());
        r.append("\n");
        i += 1;
        assert(r@ =~= cube_head(film@, print@, size) + cube_lines(rows@, i as int));
    }
    r
}

// ── Laws ─────────────────────────────────────────────────────────────────

/// Every colour of a table stands at one point: the steps of different
/// points differ.
pub proof fn lemma_cube_steps_distinct(size: int, j: int, k: int)
    requires
        size > 0,
        0 <= j,
        0 <= k,
        cube_steps(size, j) == cube_steps(size, k),
    ensures
        j == k,
{
    vstd::arithmetic::div_mod::lemma_fundamental_div_mod(j, size);
    vstd::arithmetic::div_mod::lemma_fundamental_div_mod(k, size);
    vstd::arithmetic::div_mod::lemma_fundamental_div_mod(j / size, size);
    vstd::arithmetic::div_mod::lemma_fundamental_div_mod(k / size, size);
}

/// The point of given steps is blue by blue, green by green, red by red.
pub proof fn lemma_cube_order(size: int, r: int, g: int, b: int)
    requires
        0 <= r < size,
        0 <= g < size,
        0 <= b,
    ensures
        cube_steps(size, (b * size + g) * size + r) == (r, g, b),
{
    let outer = b * size + g;
    assert(0 <= b * size) by (nonlinear_arith)
        requires
            0 <= b,
            0 < size,
    ;
    assert(0 <= outer * size) by (nonlinear_arith)
        requires
            0 <= outer,
            0 < size,
    ;
    vstd::arithmetic::div_mod::lemma_fundamental_div_mod_converse(
        outer * size + r,
        size,
        outer,
        r,
    );
    vstd::arithmetic::div_mod::lemma_fundamental_div_mod_converse(outer, size, b, g);
}

} // verus!
