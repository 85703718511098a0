//! What the film chain computes: the value left in the image that is read
//! back, as an expression over the passes.
//!
//! The passes share two images and reuse them for unrelated purposes, so
//! their order alone does not say what feeds what. Here every pass is run
//! symbolically. The laws state, for each stage and for the whole chain,
//! which expression of the uploaded image ends up where.

use vstd::prelude::*;

use crate::film_chain::{
    blur_steps, bounce_steps, bounce_tail_steps, dir_steps, glare_steps, grain_steps,
    halation_steps, scatter_steps, unsharp_steps, BlurId, Buffer, FilmChainParams, Step,
};
use crate::film_passes::{bindings_of, route_of};

verus! {

/// A value of an image buffer.
pub enum Term {
    /// What the buffer held when the chain began.
    Initial(Buffer),
    /// What a pass wrote, given the images that it read.
    Written(Step, Seq<Term>),
}

/// The buffer is uploaded once and bound read-only everywhere.
pub open spec fn is_table(b: Buffer) -> bool {
    match b {
        Buffer::ImageA => false,
        Buffer::ImageB => false,
        Buffer::HalationC => false,
        Buffer::HalationD => false,
        Buffer::DirCorrection => false,
        Buffer::DirGaussian => false,
        Buffer::DirMix => false,
        Buffer::GlareScratch => false,
        Buffer::UnsharpBlurred => false,
        Buffer::UnsharpOut => false,
        _ => true,
    }
}

/// Images whose contents decide what the step writes. A pass that updates
/// its target lists it last; a pass that overwrites it does not list it.
pub open spec fn image_inputs(step: Step) -> Seq<Buffer> {
    match step {
        Step::Hanatos => seq![Buffer::ImageA],
        Step::BlurH(id) => seq![route_of(id).src],
        Step::BlurV(id) => seq![route_of(id).mid],
        Step::ScatterMix => seq![Buffer::HalationC, Buffer::HalationD, Buffer::ImageB],
        Step::Accumulate(k) => if k == 0 {
            seq![Buffer::HalationC]
        } else {
            seq![Buffer::HalationC, Buffer::HalationD]
        },
        Step::FinalAdd => seq![Buffer::HalationD, Buffer::ImageB],
        Step::Renormalize => seq![Buffer::ImageB],
        Step::Log10 => seq![Buffer::ImageB],
        Step::FilmDensity => seq![Buffer::ImageB],
        Step::DirMatmul => seq![Buffer::ImageA],
        Step::DirLerpClear => seq![Buffer::DirGaussian],
        Step::DirLerpAccumulate => seq![Buffer::DirCorrection, Buffer::DirMix],
        Step::DirSubtract => seq![Buffer::DirMix, Buffer::ImageB],
        Step::DirDensity => seq![Buffer::ImageB],
        Step::Grain => seq![Buffer::ImageA],
        Step::PrintSpectral => seq![Buffer::ImageA],
        Step::PrintDensity => seq![Buffer::ImageB],
        Step::ScanSpectral => seq![Buffer::ImageA],
        Step::GlareGen => seq![],
        Step::GlareApply => seq![Buffer::GlareScratch, Buffer::ImageB],
        Step::UnsharpCombine => seq![Buffer::ImageB, Buffer::UnsharpBlurred],
        Step::UnsharpCopy => seq![Buffer::UnsharpOut],
    }
}

/// The buffer that the step writes.
pub open spec fn target(step: Step) -> Buffer {
    bindings_of(step).last()
}

/// What the buffers hold after the step.
pub open spec fn apply(m: Map<Buffer, Term>, step: Step) -> Map<Buffer, Term> {
    let value = if step == Step::UnsharpCopy {
        m[Buffer::UnsharpOut]
    } else {
        Term::Written(step, image_inputs(step).map_values(|b: Buffer| m[b]))
    };
    m.insert(target(step), value)
}

/// What the buffers hold after the first `k` steps.
pub open spec fn run(m: Map<Buffer, Term>, steps: Seq<Step>, k: nat) -> Map<Buffer, Term>
    decreases k,
{
    if k == 0 {
        m
    } else {
        apply(run(m, steps, (k - 1) as nat), steps[k - 1])
    }
}

/// What the buffers hold after all the steps.
pub open spec fn after(m: Map<Buffer, Term>, steps: Seq<Step>) -> Map<Buffer, Term> {
    run(m, steps, steps.len())
}

/// The buffers before the first step.
pub open spec fn fresh() -> Map<Buffer, Term> {
    Map::new(|b: Buffer| true, |b: Buffer| Term::Initial(b))
}

// ── The expressions ──────────────────────────────────────────────────────

/// Both passes of a blur.
pub open spec fn blurred(id: BlurId, x: Term) -> Term {
    Term::Written(Step::BlurV(id), seq![Term::Written(Step::BlurH(id), seq![x])])
}

/// Exposure with its scatter mixed in: core, tail and the exposure itself.
pub open spec fn scattered(raw: Term) -> Term {
    Term::Written(
        Step::ScatterMix,
        seq![blurred(BlurId::ScatterCore, raw), blurred(BlurId::ScatterTail, raw), raw],
    )
}

/// Sum of the first `n` bounces, each a blur of the same exposure.
pub open spec fn bounce_sum(n: nat, x: Term) -> Term
    decreases n,
{
    if n <= 1 {
        Term::Written(Step::Accumulate(0), seq![blurred(BlurId::Bounce(0), x)])
    } else {
        let k = (n - 1) as u32;
        Term::Written(
            Step::Accumulate(k),
            seq![blurred(BlurId::Bounce(k), x), bounce_sum((n - 1) as nat, x)],
        )
    }
}

/// Halated exposure.
pub open spec fn halated(bounces: nat, renormalize: bool, raw: Term) -> Term {
    let x = scattered(raw);
    if bounces == 0 {
        x
    } else {
        let summed = Term::Written(Step::FinalAdd, seq![bounce_sum(bounces, x), x]);
        if renormalize {
            Term::Written(Step::Renormalize, seq![summed])
        } else {
            summed
        }
    }
}

/// Inhibition of the log exposure, from the density.
pub open spec fn inhibition(density: Term) -> Term {
    let raw = Term::Written(Step::DirMatmul, seq![density]);
    Term::Written(
        Step::DirLerpAccumulate,
        seq![
            blurred(BlurId::DirTail, raw),
            Term::Written(Step::DirLerpClear, seq![blurred(BlurId::DirGaussian, raw)]),
        ],
    )
}

/// Density read again, from the log exposure less its inhibition.
pub open spec fn inhibited(density: Term, log_raw: Term) -> Term {
    Term::Written(
        Step::DirDensity,
        seq![Term::Written(Step::DirSubtract, seq![inhibition(density), log_raw])],
    )
}

/// Density with grain.
pub open spec fn grained(blur: bool, density: Term) -> Term {
    let g = Term::Written(Step::Grain, seq![density]);
    if blur {
        blurred(BlurId::Grain, g)
    } else {
        g
    }
}

/// Glare, which depends on nothing but its seed.
pub open spec fn glare_noise(blur: bool) -> Term {
    let g = Term::Written(Step::GlareGen, seq![]);
    if blur {
        blurred(BlurId::Glare, g)
    } else {
        g
    }
}

/// An image with glare.
pub open spec fn glared(blur: bool, rgb: Term) -> Term {
    Term::Written(Step::GlareApply, seq![glare_noise(blur), rgb])
}

/// A sharpened image.
pub open spec fn sharpened(rgb: Term) -> Term {
    Term::Written(Step::UnsharpCombine, seq![rgb, blurred(BlurId::Unsharp, rgb)])
}

/// Log exposure of the film.
pub open spec fn chain_log_raw(p: &FilmChainParams, rgb: Term) -> Term {
    let raw = Term::Written(Step::Hanatos, seq![rgb]);
    let exposed = match p.halation {
        Some(h) => halated(h.bounces(), h.halation_renormalize, raw),
        None => raw,
    };
    Term::Written(Step::Log10, seq![exposed])
}

/// Density of the developed film.
pub open spec fn chain_film(p: &FilmChainParams, rgb: Term) -> Term {
    let log_raw = chain_log_raw(p, rgb);
    let density = Term::Written(Step::FilmDensity, seq![log_raw]);
    let coupled = if p.dir_couplers is Some {
        inhibited(density, log_raw)
    } else {
        density
    };
    match p.grain {
        Some(g) => grained(g.blurred(), coupled),
        None => coupled,
    }
}

/// The scanned print of a developed film.
pub open spec fn chain_scan(p: &FilmChainParams, film: Term) -> Term {
    let print = Term::Written(
        Step::PrintDensity,
        seq![Term::Written(Step::PrintSpectral, seq![film])],
    );
    let scan = Term::Written(Step::ScanSpectral, seq![print]);
    let veiled = match p.glare {
        Some(g) => glared(g.blurred(), scan),
        None => scan,
    };
    if p.unsharp is Some {
        sharpened(veiled)
    } else {
        veiled
    }
}

// ── Laws ─────────────────────────────────────────────────────────────────

/// The images that a step reads are among its bindings, and every image
/// bound read-only is read.
pub proof fn lemma_inputs_are_bindings(step: Step)
    ensures
        forall|i: int|
            0 <= i < image_inputs(step).len() ==> bindings_of(step).contains(
                #[trigger] image_inputs(step)[i],
            ),
        forall|i: int|
            0 <= i < bindings_of(step).len() - 1 && !is_table(
                #[trigger] bindings_of(step)[i],
            ) ==> image_inputs(step).contains(bindings_of(step)[i]),
{
    let b = bindings_of(step);
    let a = image_inputs(step);
    assert forall|i: int| 0 <= i < a.len() implies b.contains(#[trigger] a[i]) by {
        assert(a[i] == b[0] || a[i] == b[1] || a[i] == b[2]);
    }
    assert forall|i: int| 0 <= i < b.len() - 1 && !is_table(#[trigger] b[i]) implies a.contains(
        b[i],
    ) by {
        assert(i < a.len() && b[i] == a[i]);
    }
}

/// No step writes an uploaded table.
pub proof fn lemma_tables_kept(step: Step)
    ensures
        !is_table(target(step)),
{
    match step {
        Step::BlurH(id) => {
            assert(target(step) == route_of(id).mid);
        },
        Step::BlurV(id) => {
            assert(target(step) == route_of(id).dst);
        },
        _ => {},
    }
}

proof fn lemma_run_concat(m: Map<Buffer, Term>, s: Seq<Step>, t: Seq<Step>, k: nat)
    requires
        k <= t.len(),
    ensures
        run(m, s + t, (s.len() + k) as nat) == run(after(m, s), t, k),
    decreases k,
{
    if k == 0 {
        lemma_run_prefix(m, s, t, s.len());
    } else {
        lemma_run_concat(m, s, t, (k - 1) as nat);
        assert((s + t)[s.len() + k - 1] == t[k - 1]);
        assert((s.len() + k - 1) as nat == (s.len() + (k - 1)) as nat);
    }
}

proof fn lemma_run_prefix(m: Map<Buffer, Term>, s: Seq<Step>, t: Seq<Step>, k: nat)
    requires
        k <= s.len(),
    ensures
        run(m, s + t, k) == run(m, s, k),
    decreases k,
{
    if k > 0 {
        lemma_run_prefix(m, s, t, (k - 1) as nat);
        assert((s + t)[k - 1] == s[k - 1]);
    }
}

/// Running two lists of steps one after the other is running their
/// concatenation.
pub proof fn lemma_after_concat(m: Map<Buffer, Term>, s: Seq<Step>, t: Seq<Step>)
    ensures
        after(m, s + t) == after(after(m, s), t),
{
    lemma_run_concat(m, s, t, t.len());
}

proof fn lemma_apply(m: Map<Buffer, Term>, step: Step)
    requires
        step != Step::UnsharpCopy,
    ensures
        forall|b: Buffer| b != target(step) ==> #[trigger] apply(m, step)[b] == m[b],
        image_inputs(step).len() == 0 ==> apply(m, step)[target(step)] == Term::Written(
            step,
            seq![],
        ),
        image_inputs(step).len() == 1 ==> apply(m, step)[target(step)] == Term::Written(
            step,
            seq![m[image_inputs(step)[0]]],
        ),
        image_inputs(step).len() == 2 ==> apply(m, step)[target(step)] == Term::Written(
            step,
            seq![m[image_inputs(step)[0]], m[image_inputs(step)[1]]],
        ),
        image_inputs(step).len() == 3 ==> apply(m, step)[target(step)] == Term::Written(
            step,
            seq![m[image_inputs(step)[0]], m[image_inputs(step)[1]], m[image_inputs(step)[2]]],
        ),
{
    let a = image_inputs(step);
    let v = a.map_values(|b: Buffer| m[b]);
    if a.len() == 0 {
        assert(v =~= seq![]);
    } else if a.len() == 1 {
        assert(v =~= seq![m[a[0]]]);
    } else if a.len() == 2 {
        assert(v =~= seq![m[a[0]], m[a[1]]]);
    } else if a.len() == 3 {
        assert(v =~= seq![m[a[0]], m[a[1]], m[a[2]]]);
    }
}

/// A blur leaves its result in its destination and disturbs only its
/// intermediate image besides.
pub proof fn lemma_blur(m: Map<Buffer, Term>, id: BlurId)
    ensures
        after(m, blur_steps(id))[route_of(id).dst] == blurred(id, m[route_of(id).src]),
        forall|b: Buffer|
            b != route_of(id).mid && b != route_of(id).dst ==> #[trigger] after(
                m,
                blur_steps(id),
            )[b] == m[b],
{
    reveal_with_fuel(run, 3);
    let m1 = apply(m, Step::BlurH(id));
    lemma_apply(m, Step::BlurH(id));
    lemma_apply(m1, Step::BlurV(id));
    assert(target(Step::BlurH(id)) == route_of(id).mid);
    assert(target(Step::BlurV(id)) == route_of(id).dst);
    assert(after(m, blur_steps(id)) == apply(m1, Step::BlurV(id)));
}

proof fn lemma_scatter(m: Map<Buffer, Term>)
    ensures
        after(m, scatter_steps())[Buffer::ImageB] == scattered(m[Buffer::ImageB]),
{
    let core = blur_steps(BlurId::ScatterCore);
    let tail = blur_steps(BlurId::ScatterTail);
    let mix = seq![Step::ScatterMix];
    assert(scatter_steps() =~= core + tail + mix);
    lemma_after_concat(m, core, tail);
    lemma_after_concat(m, core + tail, mix);
    lemma_blur(m, BlurId::ScatterCore);
    let m1 = after(m, core);
    lemma_blur(m1, BlurId::ScatterTail);
    let m2 = after(m1, tail);
    lemma_apply(m2, Step::ScatterMix);
    reveal_with_fuel(run, 2);
    assert(after(m2, mix) == apply(m2, Step::ScatterMix));
    assert(target(Step::ScatterMix) == Buffer::ImageB);
}

proof fn lemma_bounces(m: Map<Buffer, Term>, n: nat)
    requires
        n <= u32::MAX,
    ensures
        after(m, bounce_steps(n))[Buffer::ImageB] == m[Buffer::ImageB],
        n > 0 ==> after(m, bounce_steps(n))[Buffer::HalationD] == bounce_sum(n, m[Buffer::ImageB]),
    decreases n,
{
    if n > 0 {
        let before = (n - 1) as nat;
        let k = before as u32;
        lemma_bounces(m, before);
        let head = bounce_steps(before);
        let blur = blur_steps(BlurId::Bounce(k));
        let sum = seq![Step::Accumulate(k)];
        assert(bounce_steps(n) =~= head + blur + sum);
        lemma_after_concat(m, head, blur);
        lemma_after_concat(m, head + blur, sum);
        let m1 = after(m, head);
        lemma_blur(m1, BlurId::Bounce(k));
        let m2 = after(m1, blur);
        lemma_apply(m2, Step::Accumulate(k));
        reveal_with_fuel(run, 2);
        assert(after(m2, sum) == apply(m2, Step::Accumulate(k)));
        assert(target(Step::Accumulate(k)) == Buffer::HalationD);
        assert(m2[Buffer::HalationC] == blurred(BlurId::Bounce(k), m[Buffer::ImageB]));
        assert(m2[Buffer::HalationD] == m1[Buffer::HalationD]);
    }
}

/// The halation stage replaces the exposure by the halated exposure.
pub proof fn lemma_halation(m: Map<Buffer, Term>, bounces: nat, renormalize: bool)
    requires
        bounces <= u32::MAX,
    ensures
        after(m, halation_steps(bounces, renormalize))[Buffer::ImageB] == halated(
            bounces,
            renormalize,
            m[Buffer::ImageB],
        ),
{
    let tail = bounce_tail_steps(bounces, renormalize);
    let s = scatter_steps();
    let b = bounce_steps(bounces);
    lemma_after_concat(m, s, b);
    lemma_after_concat(m, s + b, tail);
    lemma_scatter(m);
    let m1 = after(m, s);
    lemma_bounces(m1, bounces);
    let m2 = after(m1, b);
    reveal_with_fuel(run, 3);
    if bounces > 0 {
        let m3 = apply(m2, Step::FinalAdd);
        lemma_apply(m2, Step::FinalAdd);
        lemma_apply(m3, Step::Renormalize);
        assert(target(Step::FinalAdd) == Buffer::ImageB);
        assert(target(Step::Renormalize) == Buffer::ImageB);
        if renormalize {
            assert(after(m2, tail) == apply(m3, Step::Renormalize));
        } else {
            assert(after(m2, tail) == m3);
        }
    } else {
        assert(after(m2, tail) == m2);
    }
}

/// The DIR stage replaces the density by the inhibited density.
pub proof fn lemma_dir(m: Map<Buffer, Term>)
    ensures
        after(m, dir_steps())[Buffer::ImageA] == inhibited(m[Buffer::ImageA], m[Buffer::ImageB]),
{
    let a = seq![Step::DirMatmul];
    let b = blur_steps(BlurId::DirGaussian);
    let c = blur_steps(BlurId::DirTail);
    let d = seq![
        Step::DirLerpClear,
        Step::DirLerpAccumulate,
        Step::DirSubtract,
        Step::DirDensity,
    ];
    assert(dir_steps() =~= a + b + c + d);
    lemma_after_concat(m, a, b);
    lemma_after_concat(m, a + b, c);
    lemma_after_concat(m, a + b + c, d);
    let m1 = apply(m, Step::DirMatmul);
    lemma_apply(m, Step::DirMatmul);
    assert(after(m, a) == m1) by {
        reveal_with_fuel(run, 2);
    }
    let m2 = after(m1, b);
    lemma_blur(m1, BlurId::DirGaussian);
    let m3 = after(m2, c);
    lemma_blur(m2, BlurId::DirTail);
    let m4 = apply(m3, Step::DirLerpClear);
    let m5 = apply(m4, Step::DirLerpAccumulate);
    let m6 = apply(m5, Step::DirSubtract);
    let m7 = apply(m6, Step::DirDensity);
    assert(after(m3, d) == m7) by {
        reveal_with_fuel(run, 5);
    }
    lemma_apply(m3, Step::DirLerpClear);
    lemma_apply(m4, Step::DirLerpAccumulate);
    lemma_apply(m5, Step::DirSubtract);
    lemma_apply(m6, Step::DirDensity);
    assert(target(Step::DirMatmul) == Buffer::DirCorrection);
    assert(target(Step::DirLerpClear) == Buffer::DirMix);
    assert(target(Step::DirLerpAccumulate) == Buffer::DirMix);
    assert(target(Step::DirSubtract) == Buffer::ImageB);
    assert(target(Step::DirDensity) == Buffer::ImageA);
}

/// The grain stage replaces the density by the grained density.
pub proof fn lemma_grain(m: Map<Buffer, Term>, blur: bool)
    ensures
        after(m, grain_steps(blur))[Buffer::ImageA] == grained(blur, m[Buffer::ImageA]),
{
    let a = seq![Step::Grain];
    let m1 = apply(m, Step::Grain);
    lemma_apply(m, Step::Grain);
    assert(target(Step::Grain) == Buffer::ImageA);
    assert(after(m, a) == m1) by {
        reveal_with_fuel(run, 2);
    }
    if blur {
        lemma_after_concat(m, a, blur_steps(BlurId::Grain));
        lemma_blur(m1, BlurId::Grain);
    }
}

/// The glare stage replaces the image by the image with glare.
pub proof fn lemma_glare(m: Map<Buffer, Term>, blur: bool)
    ensures
        after(m, glare_steps(blur))[Buffer::ImageB] == glared(blur, m[Buffer::ImageB]),
{
    let a = seq![Step::GlareGen];
    let b = blur_steps(BlurId::Glare);
    let c = seq![Step::GlareApply];
    let m1 = apply(m, Step::GlareGen);
    lemma_apply(m, Step::GlareGen);
    assert(target(Step::GlareGen) == Buffer::GlareScratch);
    assert(target(Step::GlareApply) == Buffer::ImageB);
    assert(after(m, a) == m1) by {
        reveal_with_fuel(run, 2);
    }
    let m2 = if blur {
        after(m1, b)
    } else {
        m1
    };
    if blur {
        lemma_after_concat(m, a, b);
        lemma_after_concat(m, a + b, c);
        lemma_blur(m1, BlurId::Glare);
    } else {
        assert(glare_steps(blur) =~= a + c);
        lemma_after_concat(m, a, c);
    }
    lemma_apply(m2, Step::GlareApply);
    assert(after(m2, c) == apply(m2, Step::GlareApply)) by {
        reveal_with_fuel(run, 2);
    }
}

/// The unsharp mask replaces the image by the sharpened image.
pub proof fn lemma_unsharp(m: Map<Buffer, Term>)
    ensures
        after(m, unsharp_steps())[Buffer::ImageB] == sharpened(m[Buffer::ImageB]),
{
    let a = blur_steps(BlurId::Unsharp);
    let b = seq![Step::UnsharpCombine, Step::UnsharpCopy];
    assert(unsharp_steps() =~= a + b);
    lemma_after_concat(m, a, b);
    lemma_blur(m, BlurId::Unsharp);
    let m1 = after(m, a);
    let m2 = apply(m1, Step::UnsharpCombine);
    lemma_apply(m1, Step::UnsharpCombine);
    assert(target(Step::UnsharpCombine) == Buffer::UnsharpOut);
    assert(target(Step::UnsharpCopy) == Buffer::ImageB);
    assert(after(m1, b) == apply(m2, Step::UnsharpCopy)) by {
        reveal_with_fuel(run, 3);
    }
}

proof fn lemma_filming(m: Map<Buffer, Term>, p: &FilmChainParams)
    requires
        p.valid(),
    ensures
        after(m, p.filming_steps())[Buffer::ImageA] == chain_film(p, m[Buffer::ImageA]),
{
    let a = seq![Step::Hanatos];
    let b = p.halation_part();
    let c = seq![Step::Log10, Step::FilmDensity];
    let d = p.dir_part();
    let e = p.grain_part();
    lemma_after_concat(m, a, b);
    lemma_after_concat(m, a + b, c);
    lemma_after_concat(m, a + b + c, d);
    lemma_after_concat(m, a + b + c + d, e);
    let m1 = apply(m, Step::Hanatos);
    lemma_apply(m, Step::Hanatos);
    assert(target(Step::Hanatos) == Buffer::ImageB);
    assert(after(m, a) == m1) by {
        reveal_with_fuel(run, 2);
    }
    let m2 = after(m1, b);
    if let Some(h) = p.halation {
        lemma_halation(m1, h.bounces(), h.halation_renormalize);
    } else {
        assert(m2 == m1);
    }
    let m3 = apply(m2, Step::Log10);
    let m4 = apply(m3, Step::FilmDensity);
    lemma_apply(m2, Step::Log10);
    lemma_apply(m3, Step::FilmDensity);
    assert(target(Step::Log10) == Buffer::ImageB);
    assert(target(Step::FilmDensity) == Buffer::ImageA);
    assert(after(m2, c) == m4) by {
        reveal_with_fuel(run, 3);
    }
    assert(m4[Buffer::ImageB] == chain_log_raw(p, m[Buffer::ImageA]));
    let m5 = after(m4, d);
    if p.dir_couplers is Some {
        lemma_dir(m4);
    } else {
        assert(m5 == m4);
    }
    let m6 = after(m5, e);
    if let Some(g) = p.grain {
        lemma_grain(m5, g.blurred());
    } else {
        assert(m6 == m5);
    }
}

proof fn lemma_printing(m: Map<Buffer, Term>, p: &FilmChainParams)
    ensures
        after(m, p.printing_steps())[Buffer::ImageB] == chain_scan(p, m[Buffer::ImageA]),
{
    let a = seq![Step::PrintSpectral, Step::PrintDensity, Step::ScanSpectral];
    let b = p.glare_part();
    let c = p.unsharp_part();
    lemma_after_concat(m, a, b);
    lemma_after_concat(m, a + b, c);
    let m1 = apply(m, Step::PrintSpectral);
    let m2 = apply(m1, Step::PrintDensity);
    let m3 = apply(m2, Step::ScanSpectral);
    lemma_apply(m, Step::PrintSpectral);
    lemma_apply(m1, Step::PrintDensity);
    lemma_apply(m2, Step::ScanSpectral);
    assert(target(Step::PrintSpectral) == Buffer::ImageB);
    assert(target(Step::PrintDensity) == Buffer::ImageA);
    assert(target(Step::ScanSpectral) == Buffer::ImageB);
    assert(after(m, a) == m3) by {
        reveal_with_fuel(run, 4);
    }
    let m4 = after(m3, b);
    if let Some(g) = p.glare {
        lemma_glare(m3, g.blurred());
    } else {
        assert(m4 == m3);
    }
    let m5 = after(m4, c);
    if p.unsharp is Some {
        lemma_unsharp(m4);
    } else {
        assert(m5 == m4);
    }
}

/// The image read back is the scanned print of the developed film of the
/// uploaded image, with exactly the stages that were asked for.
pub proof fn lemma_film_chain(p: &FilmChainParams)
    requires
        p.valid(),
    ensures
        after(fresh(), p.steps())[Buffer::ImageB] == chain_scan(
            p,
            chain_film(p, Term::Initial(Buffer::ImageA)),
        ),
{
    lemma_after_concat(fresh(), p.filming_steps(), p.printing_steps());
    lemma_filming(fresh(), p);
    lemma_printing(after(fresh(), p.filming_steps()), p);
}

} // verus!
