//! What each pass of the film chain binds, launches and reads from its
//! uniform block.

use vstd::prelude::*;

use crate::film_chain::{BindingKind, BlurId, Buffer, Shader, Step, BLUR_TILE, WORKGROUP_SIZE};

verus! {

// ── Shaders and their binding layouts ────────────────────────────────────

pub open spec fn shader_of(step: Step) -> Option<Shader> {
    match step {
        Step::Hanatos => Some(Shader::Hanatos),
        Step::BlurH(_) => Some(Shader::BlurH),
        Step::BlurV(_) => Some(Shader::BlurV),
        Step::ScatterMix => Some(Shader::ScatterMix),
        Step::Accumulate(_) => Some(Shader::AddScaled),
        Step::FinalAdd => Some(Shader::AddScaledPerChannel),
        Step::Renormalize => Some(Shader::HalationRenormalize),
        Step::Log10 => Some(Shader::Log10),
        Step::FilmDensity => Some(Shader::DensityCurve),
        Step::DirMatmul => Some(Shader::DirMatmul),
        Step::DirLerpClear => Some(Shader::AddScaled),
        Step::DirLerpAccumulate => Some(Shader::AddScaled),
        Step::DirSubtract => Some(Shader::AddScaled),
        Step::DirDensity => Some(Shader::DensityCurve),
        Step::Grain => Some(Shader::Grain),
        Step::PrintSpectral => Some(Shader::PrintSpectral),
        Step::PrintDensity => Some(Shader::DensityCurve),
        Step::ScanSpectral => Some(Shader::ScanSpectral),
        Step::GlareGen => Some(Shader::GlareGen),
        Step::GlareApply => Some(Shader::GlareApply),
        Step::UnsharpCombine => Some(Shader::UnsharpCombine),
        Step::UnsharpCopy => None,
    }
}

impl Step {
    /// The shader that the step dispatches; the copy dispatches none.
    pub fn shader(self) -> (r: Option<Shader>)
        ensures
            r == shader_of(self),
    {
        match self {
            Step::Hanatos => Some(Shader::Hanatos),
            Step::BlurH(_) => Some(Shader::BlurH),
            Step::BlurV(_) => Some(Shader::BlurV),
            Step::ScatterMix => Some(Shader::ScatterMix),
            Step::Accumulate(_) => Some(Shader::AddScaled),
            Step::FinalAdd => Some(Shader::AddScaledPerChannel),
            Step::Renormalize => Some(Shader::HalationRenormalize),
            Step::Log10 => Some(Shader::Log10),
            Step::FilmDensity => Some(Shader::DensityCurve),
            Step::DirMatmul => Some(Shader::DirMatmul),
            Step::DirLerpClear => Some(Shader::AddScaled),
            Step::DirLerpAccumulate => Some(Shader::AddScaled),
            Step::DirSubtract => Some(Shader::AddScaled),
            Step::DirDensity => Some(Shader::DensityCurve),
            Step::Grain => Some(Shader::Grain),
            Step::PrintSpectral => Some(Shader::PrintSpectral),
            Step::PrintDensity => Some(Shader::DensityCurve),
            Step::ScanSpectral => Some(Shader::ScanSpectral),
            Step::GlareGen => Some(Shader::GlareGen),
            Step::GlareApply => Some(Shader::GlareApply),
            Step::UnsharpCombine => Some(Shader::UnsharpCombine),
            Step::UnsharpCopy => None,
        }
    }
}

/// How many read-only storage buffers the shader takes.
pub open spec fn read_only_bindings(shader: Shader) -> nat {
    match shader {
        Shader::Log10 => 0,
        Shader::HalationRenormalize => 0,
        Shader::GlareGen => 0,
        Shader::Grain => 0,
        Shader::AddScaled => 1,
        Shader::AddScaledPerChannel => 1,
        Shader::DirMatmul => 1,
        Shader::GlareApply => 1,
        Shader::Hanatos => 2,
        Shader::BlurH => 2,
        Shader::BlurV => 2,
        Shader::ScatterMix => 2,
        Shader::UnsharpCombine => 2,
        Shader::DensityCurve => 3,
        Shader::PrintSpectral => 5,
        Shader::ScanSpectral => 7,
    }
}

/// A layout is the uniform block, the read-only buffers, and one buffer that
/// the shader writes.
pub open spec fn layout_of(shader: Shader) -> Seq<BindingKind> {
    seq![BindingKind::Uniform] + Seq::new(
        read_only_bindings(shader),
        |i: int| BindingKind::ReadOnly,
    ) + seq![BindingKind::ReadWrite]
}

impl Shader {
    /// File name of the shader source.
    pub fn file_name(self) -> (r: &'static str)
        ensures
            r@ == match self {
                Shader::Hanatos => "hanatos2025_rgb_to_raw.wgsl"@,
                Shader::Log10 => "log10_inplace.wgsl"@,
                Shader::DensityCurve => "density_curve_interp.wgsl"@,
                Shader::PrintSpectral => "print_spectral.wgsl"@,
                Shader::ScanSpectral => "scan_spectral.wgsl"@,
                Shader::BlurH => "gaussian_blur_h.wgsl"@,
                Shader::BlurV => "gaussian_blur_v.wgsl"@,
                Shader::ScatterMix => "scatter_mix.wgsl"@,
                Shader::AddScaled => "add_scaled.wgsl"@,
                Shader::AddScaledPerChannel => "add_scaled_per_channel.wgsl"@,
                Shader::HalationRenormalize => "halation_renormalize.wgsl"@,
                Shader::DirMatmul => "dir_matmul.wgsl"@,
                Shader::Grain => "grain.wgsl"@,
                Shader::GlareGen => "glare_gen.wgsl"@,
                Shader::GlareApply => "glare_apply.wgsl"@,
                Shader::UnsharpCombine => "unsharp_combine.wgsl"@,
            },
    {
        match self {
            Shader::Hanatos => "hanatos2025_rgb_to_raw.wgsl",
            Shader::Log10 => "log10_inplace.wgsl",
            Shader::DensityCurve => "density_curve_interp.wgsl",
            Shader::PrintSpectral => "print_spectral.wgsl",
            Shader::ScanSpectral => "scan_spectral.wgsl",
            Shader::BlurH => "gaussian_blur_h.wgsl",
            Shader::BlurV => "gaussian_blur_v.wgsl",
            Shader::ScatterMix => "scatter_mix.wgsl",
            Shader::AddScaled => "add_scaled.wgsl",
            Shader::AddScaledPerChannel => "add_scaled_per_channel.wgsl",
            Shader::HalationRenormalize => "halation_renormalize.wgsl",
            Shader::DirMatmul => "dir_matmul.wgsl",
            Shader::Grain => "grain.wgsl",
            Shader::GlareGen => "glare_gen.wgsl",
            Shader::GlareApply => "glare_apply.wgsl",
            Shader::UnsharpCombine => "unsharp_combine.wgsl",
        }
    }

    /// The kinds of the shader's bindings, in binding order.
    pub fn layout(self) -> (r: Vec<BindingKind>)
        ensures
            r@ == layout_of(self),
    {
        let n: usize = match self {
            Shader::Log10 => 0,
            Shader::HalationRenormalize => 0,
            Shader::GlareGen => 0,
            Shader::Grain => 0,
            Shader::AddScaled => 1,
            Shader::AddScaledPerChannel => 1,
            Shader::DirMatmul => 1,
            Shader::GlareApply => 1,
            Shader::Hanatos => 2,
            Shader::BlurH => 2,
            Shader::BlurV => 2,
            Shader::ScatterMix => 2,
            Shader::UnsharpCombine => 2,
            Shader::DensityCurve => 3,
            Shader::PrintSpectral => 5,
            Shader::ScanSpectral => 7,
        };
        let mut r: Vec<BindingKind> = Vec::new();
        r.push(BindingKind::Uniform);
        let mut i: usize = 0;
        while i < n
            invariant
                i <= n,
                r@ == seq![BindingKind::Uniform] + Seq::new(
                    i as nat,
                    |k: int| BindingKind::ReadOnly,
                ),
            decreases n - i,
        {
            r.push(BindingKind::ReadOnly);
            i += 1;
            assert(r@ =~= seq![BindingKind::Uniform] + Seq::new(
                i as nat,
                |k: int| BindingKind::ReadOnly,
            ));
        }
        r.push(BindingKind::ReadWrite);
        assert(r@ =~= layout_of(self));
        r
    }
}

// ── Buffers ──────────────────────────────────────────────────────────────

/// What a blur reads, keeps between its two passes, and writes.
pub struct BlurRoute {
    pub src: Buffer,
    pub mid: Buffer,
    pub dst: Buffer,
}

pub open spec fn route_of(id: BlurId) -> BlurRoute {
    match id {
        BlurId::ScatterCore => BlurRoute {
            src: Buffer::ImageB,
            mid: Buffer::ImageA,
            dst: Buffer::HalationC,
        },
        BlurId::ScatterTail => BlurRoute {
            src: Buffer::ImageB,
            mid: Buffer::ImageA,
            dst: Buffer::HalationD,
        },
        BlurId::Bounce(_) => BlurRoute {
            src: Buffer::ImageB,
            mid: Buffer::ImageA,
            dst: Buffer::HalationC,
        },
        BlurId::DirGaussian => BlurRoute {
            src: Buffer::DirCorrection,
            mid: Buffer::ImageA,
            dst: Buffer::DirGaussian,
        },
        BlurId::DirTail => BlurRoute {
            src: Buffer::DirCorrection,
            mid: Buffer::ImageA,
            dst: Buffer::DirCorrection,
        },
        BlurId::Grain => BlurRoute {
            src: Buffer::ImageA,
            mid: Buffer::ImageB,
            dst: Buffer::ImageA,
        },
        BlurId::Glare => BlurRoute {
            src: Buffer::GlareScratch,
            mid: Buffer::ImageA,
            dst: Buffer::GlareScratch,
        },
        BlurId::Unsharp => BlurRoute {
            src: Buffer::ImageB,
            mid: Buffer::ImageA,
            dst: Buffer::UnsharpBlurred,
        },
    }
}

impl BlurId {
    /// The buffers that the blur goes through.
    pub fn route(self) -> (r: BlurRoute)
        ensures
            r == route_of(self),
    {
        let (src, mid, dst) = match self {
            BlurId::ScatterCore => (Buffer::ImageB, Buffer::ImageA, Buffer::HalationC),
            BlurId::ScatterTail => (Buffer::ImageB, Buffer::ImageA, Buffer::HalationD),
            BlurId::Bounce(_) => (Buffer::ImageB, Buffer::ImageA, Buffer::HalationC),
            BlurId::DirGaussian => (Buffer::DirCorrection, Buffer::ImageA, Buffer::DirGaussian),
            BlurId::DirTail => (Buffer::DirCorrection, Buffer::ImageA, Buffer::DirCorrection),
            BlurId::Grain => (Buffer::ImageA, Buffer::ImageB, Buffer::ImageA),
            BlurId::Glare => (Buffer::GlareScratch, Buffer::ImageA, Buffer::GlareScratch),
            BlurId::Unsharp => (Buffer::ImageB, Buffer::ImageA, Buffer::UnsharpBlurred),
        };
        BlurRoute { src, mid, dst }
    }
}

/// Storage buffers bound by a step, in binding order after the uniform
/// block; the last is the one that is written. The copy lists its source and
/// its destination.
pub open spec fn bindings_of(step: Step) -> Seq<Buffer> {
    match step {
        Step::Hanatos => seq![Buffer::ImageA, Buffer::TcLut, Buffer::ImageB],
        Step::BlurH(id) => seq![route_of(id).src, Buffer::Weights(id), route_of(id).mid],
        Step::BlurV(id) => seq![route_of(id).mid, Buffer::Weights(id), route_of(id).dst],
        Step::ScatterMix => seq![Buffer::HalationC, Buffer::HalationD, Buffer::ImageB],
        Step::Accumulate(_) => seq![Buffer::HalationC, Buffer::HalationD],
        Step::FinalAdd => seq![Buffer::HalationD, Buffer::ImageB],
        Step::Renormalize => seq![Buffer::ImageB],
        Step::Log10 => seq![Buffer::ImageB],
        Step::FilmDensity => seq![
            Buffer::ImageB,
            Buffer::FilmLogExposure,
            Buffer::FilmCurves,
            Buffer::ImageA,
        ],
        Step::DirMatmul => seq![Buffer::ImageA, Buffer::DirCorrection],
        Step::DirLerpClear => seq![Buffer::DirGaussian, Buffer::DirMix],
        Step::DirLerpAccumulate => seq![Buffer::DirCorrection, Buffer::DirMix],
        Step::DirSubtract => seq![Buffer::DirMix, Buffer::ImageB],
        Step::DirDensity => seq![
            Buffer::ImageB,
            Buffer::DirLogExposure,
            Buffer::DirCurves,
            Buffer::ImageA,
        ],
        Step::Grain => seq![Buffer::ImageA],
        Step::PrintSpectral => seq![
            Buffer::ImageA,
            Buffer::FilmChannelDensity,
            Buffer::FilmBaseDensity,
            Buffer::PrintIlluminant,
            Buffer::PrintSensitivity,
            Buffer::ImageB,
        ],
        Step::PrintDensity => seq![
            Buffer::ImageB,
            Buffer::PrintLogExposure,
            Buffer::PrintCurves,
            Buffer::ImageA,
        ],
        Step::ScanSpectral => seq![
            Buffer::ImageA,
            Buffer::PrintChannelDensity,
            Buffer::PrintBaseDensity,
            Buffer::ViewingIlluminant,
            Buffer::CmfX,
            Buffer::CmfY,
            Buffer::CmfZ,
            Buffer::ImageB,
        ],
        Step::GlareGen => seq![Buffer::GlareScratch],
        Step::GlareApply => seq![Buffer::GlareScratch, Buffer::ImageB],
        Step::UnsharpCombine => seq![
            Buffer::ImageB,
            Buffer::UnsharpBlurred,
            Buffer::UnsharpOut,
        ],
        Step::UnsharpCopy => seq![Buffer::UnsharpOut, Buffer::ImageB],
    }
}

impl Step {
    /// The step's storage buffers, in binding order.
    pub fn bindings(self) -> (r: Vec<Buffer>)
        ensures
            r@ == bindings_of(self),
    {
        let r: Vec<Buffer> = match self {
            Step::Hanatos => vec![Buffer::ImageA, Buffer::TcLut, Buffer::ImageB],
            Step::BlurH(id) => {
                let route = id.route();
                vec![route.src, Buffer::Weights(id), route.mid]
            },
            Step::BlurV(id) => {
                let route = id.route();
                vec![route.mid, Buffer::Weights(id), route.dst]
            },
            Step::ScatterMix => vec![Buffer::HalationC, Buffer::HalationD, Buffer::ImageB],
            Step::Accumulate(_) => vec![Buffer::HalationC, Buffer::HalationD],
            Step::FinalAdd => vec![Buffer::HalationD, Buffer::ImageB],
            Step::Renormalize => vec![Buffer::ImageB],
            Step::Log10 => vec![Buffer::ImageB],
            Step::FilmDensity => vec![
                Buffer::ImageB,
                Buffer::FilmLogExposure,
                Buffer::FilmCurves,
                Buffer::ImageA,
            ],
            Step::DirMatmul => vec![Buffer::ImageA, Buffer::DirCorrection],
            Step::DirLerpClear => vec![Buffer::DirGaussian, Buffer::DirMix],
            Step::DirLerpAccumulate => vec![Buffer::DirCorrection, Buffer::DirMix],
            Step::DirSubtract => vec![Buffer::DirMix, Buffer::ImageB],
            Step::DirDensity => vec![
                Buffer::ImageB,
                Buffer::DirLogExposure,
                Buffer::DirCurves,
                Buffer::ImageA,
            ],
            Step::Grain => vec![Buffer::ImageA],
            Step::PrintSpectral => vec![
                Buffer::ImageA,
                Buffer::FilmChannelDensity,
                Buffer::FilmBaseDensity,
                Buffer::PrintIlluminant,
                Buffer::PrintSensitivity,
                Buffer::ImageB,
            ],
            Step::PrintDensity => vec![
                Buffer::ImageB,
                Buffer::PrintLogExposure,
                Buffer::PrintCurves,
                Buffer::ImageA,
            ],
            Step::ScanSpectral => vec![
                Buffer::ImageA,
                Buffer::PrintChannelDensity,
                Buffer::PrintBaseDensity,
                Buffer::ViewingIlluminant,
                Buffer::CmfX,
                Buffer::CmfY,
                Buffer::CmfZ,
                Buffer::ImageB,
            ],
            Step::GlareGen => vec![Buffer::GlareScratch],
            Step::GlareApply => vec![Buffer::GlareScratch, Buffer::ImageB],
            Step::UnsharpCombine => vec![
                Buffer::ImageB,
                Buffer::UnsharpBlurred,
                Buffer::UnsharpOut,
            ],
            Step::UnsharpCopy => vec![Buffer::UnsharpOut, Buffer::ImageB],
        };
        assert(r@ =~= bindings_of(self));
        r
    }
}

/// A step binds one buffer for each storage entry of its shader's layout.
pub proof fn lemma_bindings_fit_layout(step: Step)
    requires
        step != Step::UnsharpCopy,
    ensures
        bindings_of(step).len() + 1 == layout_of(shader_of(step)->0).len(),
{
}

/// No pass reads, through a read-only binding, the buffer that it writes.
pub proof fn lemma_no_aliasing(step: Step)
    ensures
        forall|i: int|
            0 <= i < bindings_of(step).len() - 1 ==> #[trigger] bindings_of(step)[i]
                != bindings_of(step).last(),
{
    let b = bindings_of(step);
    match step {
        Step::BlurH(id) => {
            assert(b[0] == route_of(id).src && b[1] == Buffer::Weights(id) && b[2] == route_of(
                id,
            ).mid);
        },
        Step::BlurV(id) => {
            assert(b[0] == route_of(id).mid && b[1] == Buffer::Weights(id) && b[2] == route_of(
                id,
            ).dst);
        },
        _ => {},
    }
}

// ── Workgroups ───────────────────────────────────────────────────────────

/// Workgroups of `size` that cover `n` items.
pub fn workgroups_for(n: u32, size: u32) -> (r: u32)
    requires
        size > 0,
        n + size - 1 <= u32::MAX,
    ensures
        r == (n + size - 1) / (size as int),
        r * size >= n,
        r > 0 ==> (r - 1) * size < n,
{
    let r: u32 = (n + (size - 1)) / size;
    proof {
        let m = n + size - 1;
        vstd::arithmetic::div_mod::lemma_fundamental_div_mod(m, size as int);
        vstd::arithmetic::div_mod::lemma_mod_bound(m, size as int);
        assert(size * (m / (size as int)) == (m / (size as int)) * size) by (nonlinear_arith);
        assert((r - 1) * size == r * size - size) by (nonlinear_arith);
    }
    r
}

/// Blur tiles along an edge of `n` pixels.
pub fn blur_tiles(n: u32) -> (r: u32)
    ensures
        r == (n + BLUR_TILE - 1) / (BLUR_TILE as int),
        r * BLUR_TILE >= n,
        r > 0 ==> (r - 1) * BLUR_TILE < n,
{
    n / BLUR_TILE + if n % BLUR_TILE == 0 {
        0
    } else {
        1
    }
}

impl Step {
    pub open spec fn is_blur(self) -> bool {
        self is BlurH || self is BlurV
    }

    /// The grid of workgroups of a pass over an image of the given size.
    pub fn workgroups(self, width: u32, height: u32) -> (r: (u32, u32))
        requires
            width * height <= u32::MAX - (WORKGROUP_SIZE - 1),
        ensures
            self.is_blur() ==> r.0 == (width + 15) / 16 && r.1 == (height + 15) / 16,
            !self.is_blur() ==> r.0 == (width * height + 1023) / 1024 && r.1 == 1,
    {
        match self {
            Step::BlurH(_) => (blur_tiles(width), blur_tiles(height)),
            Step::BlurV(_) => (blur_tiles(width), blur_tiles(height)),
            _ => {
                assert(0 <= width * height) by (nonlinear_arith);
                (workgroups_for(width * height, WORKGROUP_SIZE), 1)
            },
        }
    }
}

/// Bytes of one resident image: three single-precision numbers per pixel.
pub fn image_bytes(width: u32, height: u32) -> (r: u64)
    requires
        width * height <= u32::MAX,
    ensures
        r == width * height * 12,
{
    assert(0 <= width * height) by (nonlinear_arith);
    (width as u64) * (height as u64) * 3 * 4
}

} // verus!
