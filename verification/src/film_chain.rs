//! The GPU-resident film chain.
//!
//! One command buffer takes an image from RGB to the scanned print. Its
//! compute passes share two resident images, A and B, and a few scratch
//! images of the optional stages. This module says which passes run, in which
//! order, what each binds, what its uniform block holds and how many
//! workgroups it launches.

use vstd::prelude::*;

use crate::bits::Single;

verus! {

/// Pixels handled by one workgroup of a per-pixel pass.
pub const WORKGROUP_SIZE: u32 = 1024;

/// Edge of the square tile handled by one workgroup of a blur pass.
pub const BLUR_TILE: u32 = 16;

/// Encoding of -1 in single precision.
pub const MINUS_ONE: u32 = 0xbf80_0000;

/// Encoding of 0.4 in single precision: grain is blurred only beyond it.
pub const GRAIN_BLUR_THRESHOLD: u32 = 0x3ecc_cccd;

/// A compute shader.
#[derive(Clone, Copy, Debug, PartialEq, Eq, Structural)]
pub enum Shader {
    Hanatos,
    Log10,
    DensityCurve,
    PrintSpectral,
    ScanSpectral,
    BlurH,
    BlurV,
    ScatterMix,
    AddScaled,
    AddScaledPerChannel,
    HalationRenormalize,
    DirMatmul,
    Grain,
    GlareGen,
    GlareApply,
    UnsharpCombine,
}

/// A separable Gaussian blur of the chain.
#[derive(Clone, Copy, Debug, PartialEq, Eq, Structural)]
pub enum BlurId {
    ScatterCore,
    ScatterTail,
    Bounce(u32),
    DirGaussian,
    DirTail,
    Grain,
    Glare,
    Unsharp,
}

/// A storage buffer of the chain.
#[derive(Clone, Copy, Debug, PartialEq, Eq, Structural)]
pub enum Buffer {
    ImageA,
    ImageB,
    HalationC,
    HalationD,
    DirCorrection,
    DirGaussian,
    DirMix,
    GlareScratch,
    UnsharpBlurred,
    UnsharpOut,
    TcLut,
    FilmLogExposure,
    FilmCurves,
    FilmChannelDensity,
    FilmBaseDensity,
    PrintIlluminant,
    PrintSensitivity,
    PrintLogExposure,
    PrintCurves,
    PrintChannelDensity,
    PrintBaseDensity,
    ViewingIlluminant,
    CmfX,
    CmfY,
    CmfZ,
    DirLogExposure,
    DirCurves,
    Weights(BlurId),
}

/// One command of the chain: a compute pass, or the copy that brings the
/// sharpened image back.
#[derive(Clone, Copy, Debug, PartialEq, Eq, Structural)]
pub enum Step {
    Hanatos,
    BlurH(BlurId),
    BlurV(BlurId),
    ScatterMix,
    Accumulate(u32),
    FinalAdd,
    Renormalize,
    Log10,
    FilmDensity,
    DirMatmul,
    DirLerpClear,
    DirLerpAccumulate,
    DirSubtract,
    DirDensity,
    Grain,
    PrintSpectral,
    PrintDensity,
    ScanSpectral,
    GlareGen,
    GlareApply,
    UnsharpCombine,
    UnsharpCopy,
}

/// How a shader sees one of its bindings.
#[derive(Clone, Copy, Debug, PartialEq, Eq, Structural)]
pub enum BindingKind {
    Uniform,
    ReadOnly,
    ReadWrite,
}

/// Scatter and multi-bounce halation on the raw film exposure.
pub struct HalationGpuParams {
    pub scatter_amount: Single,
    pub scatter_core_radius: u32,
    pub scatter_tail_radius: u32,
    pub scatter_tail_weight: [Single; 3],
    /// Per-channel strength of the summed bounces.
    pub halation_a_tot: [Single; 3],
    /// `1 / (1 + a_tot)` per channel.
    pub renormalize_factor: [Single; 3],
    /// Blur radius of each bounce.
    pub bounce_radius: Vec<u32>,
    /// Share of each bounce in the sum.
    pub bounce_weight: Vec<Single>,
    pub halation_renormalize: bool,
}

/// DIR couplers: inhibition computed from density, diffused, and taken off
/// the log exposure before the curves are read again.
pub struct DirCouplersGpuParams {
    /// Row-major, scaled by the amount.
    pub couplers_matrix_scaled: [[Single; 3]; 3],
    pub density_max: [Single; 3],
    pub is_positive: bool,
    pub diffusion_size_radius: u32,
    pub diffusion_tail_radius: u32,
    pub diffusion_tail_weight: Single,
    /// `1 - diffusion_tail_weight`.
    pub diffusion_core_weight: Single,
    pub curve_len: u32,
    pub uniform_grid: bool,
    pub gamma_inv: Single,
}

/// Particle grain on the film density.
pub struct GrainGpuParams {
    pub density_min: [Single; 3],
    pub density_max: [Single; 3],
    pub n_particles_per_pixel: [Single; 3],
    pub grain_uniformity: [Single; 3],
    pub n_sub_layers: u32,
    pub base_seed: u32,
    /// Blur after the grain, in pixels.
    pub grain_blur: Single,
    pub blur_radius: u32,
}

/// Viewing glare on the scanned image.
pub struct GlareGpuParams {
    pub mu: Single,
    pub sigma: Single,
    /// Blur of the glare, in pixels.
    pub blur_px: Single,
    pub blur_radius: u32,
    pub base_seed: u32,
    pub rgb_offset: [Single; 3],
}

/// Unsharp mask on the scanned image.
pub struct UnsharpGpuParams {
    pub radius: u32,
    pub amount: Single,
}

/// What the passes of one render depend on besides the uploaded tables.
pub struct FilmChainParams {
    pub width: u32,
    pub height: u32,
    pub lut_size: u32,
    pub rgb_to_adapted_xyz: [[Single; 3]; 3],
    pub film_curve_len: u32,
    pub film_uniform_grid: bool,
    pub film_gamma_inv: Single,
    pub film_wavelengths: u32,
    pub print_normalization_factor: Single,
    pub print_curve_len: u32,
    pub print_uniform_grid: bool,
    pub print_gamma_inv: Single,
    pub print_wavelengths: u32,
    pub scan_normalization: Single,
    pub scan_xyz_to_rgb: [[Single; 3]; 3],
    pub halation: Option<HalationGpuParams>,
    pub dir_couplers: Option<DirCouplersGpuParams>,
    pub grain: Option<GrainGpuParams>,
    pub glare: Option<GlareGpuParams>,
    pub unsharp: Option<UnsharpGpuParams>,
}

impl HalationGpuParams {
    /// Every bounce has a radius, and their number fits the pass index.
    pub open spec fn valid(&self) -> bool {
        self.bounce_radius@.len() == self.bounce_weight@.len() && self.bounce_weight@.len()
            <= u32::MAX
    }

    pub open spec fn bounces(&self) -> nat {
        self.bounce_weight@.len()
    }
}

impl FilmChainParams {
    /// The pixel count leaves room to round it up to whole workgroups.
    pub open spec fn valid(&self) -> bool {
        &&& self.width * self.height <= u32::MAX - (WORKGROUP_SIZE - 1)
        &&& self.halation matches Some(h) ==> h.valid()
    }

    pub open spec fn pixels(&self) -> u32 {
        (self.width * self.height) as u32
    }
}

// ── The order of the passes ──────────────────────────────────────────────

/// The two passes of a blur.
pub open spec fn blur_steps(id: BlurId) -> Seq<Step> {
    seq![Step::BlurH(id), Step::BlurV(id)]
}

/// The first `n` bounces: each blurs the exposure and adds it to the sum.
pub open spec fn bounce_steps(n: nat) -> Seq<Step>
    decreases n,
{
    if n == 0 {
        Seq::empty()
    } else {
        let k = (n - 1) as u32;
        bounce_steps((n - 1) as nat) + seq![
            Step::BlurH(BlurId::Bounce(k)),
            Step::BlurV(BlurId::Bounce(k)),
            Step::Accumulate(k),
        ]
    }
}

/// Scatter, which is always mixed in.
pub open spec fn scatter_steps() -> Seq<Step> {
    seq![
        Step::BlurH(BlurId::ScatterCore),
        Step::BlurV(BlurId::ScatterCore),
        Step::BlurH(BlurId::ScatterTail),
        Step::BlurV(BlurId::ScatterTail),
        Step::ScatterMix,
    ]
}

/// What follows the bounces; with no bounce there is nothing to add.
pub open spec fn bounce_tail_steps(bounces: nat, renormalize: bool) -> Seq<Step> {
    if bounces == 0 {
        Seq::empty()
    } else if renormalize {
        seq![Step::FinalAdd, Step::Renormalize]
    } else {
        seq![Step::FinalAdd]
    }
}

pub open spec fn halation_steps(bounces: nat, renormalize: bool) -> Seq<Step> {
    scatter_steps() + bounce_steps(bounces) + bounce_tail_steps(bounces, renormalize)
}

pub open spec fn dir_steps() -> Seq<Step> {
    seq![
        Step::DirMatmul,
        Step::BlurH(BlurId::DirGaussian),
        Step::BlurV(BlurId::DirGaussian),
        Step::BlurH(BlurId::DirTail),
        Step::BlurV(BlurId::DirTail),
        Step::DirLerpClear,
        Step::DirLerpAccumulate,
        Step::DirSubtract,
        Step::DirDensity,
    ]
}

pub open spec fn grain_steps(blurred: bool) -> Seq<Step> {
    if blurred {
        seq![Step::Grain] + blur_steps(BlurId::Grain)
    } else {
        seq![Step::Grain]
    }
}

pub open spec fn glare_steps(blurred: bool) -> Seq<Step> {
    if blurred {
        seq![Step::GlareGen] + blur_steps(BlurId::Glare) + seq![Step::GlareApply]
    } else {
        seq![Step::GlareGen, Step::GlareApply]
    }
}

pub open spec fn unsharp_steps() -> Seq<Step> {
    seq![
        Step::BlurH(BlurId::Unsharp),
        Step::BlurV(BlurId::Unsharp),
        Step::UnsharpCombine,
        Step::UnsharpCopy,
    ]
}

impl HalationGpuParams {
    pub open spec fn steps(&self) -> Seq<Step> {
        halation_steps(self.bounces(), self.halation_renormalize)
    }

    /// The passes of the halation stage.
    pub fn encode_passes(&self) -> (steps: Vec<Step>)
        requires
            self.valid(),
        ensures
            steps@ == self.steps(),
    {
        let mut steps: Vec<Step> = Vec::new();
        push_blur(&mut steps, BlurId::ScatterCore);
        push_blur(&mut steps, BlurId::ScatterTail);
        steps.push(Step::ScatterMix);
        assert(steps@ =~= scatter_steps());
        let n: usize = self.bounce_weight.len();
        let mut k: usize = 0;
        while k < n
            invariant
                k <= n,
                n == self.bounces(),
                n <= u32::MAX,
                steps@ == scatter_steps() + bounce_steps(k as nat),
            decreases n - k,
        {
            let ghost before = steps@;
            push_blur(&mut steps, BlurId::Bounce(k as u32));
            steps.push(Step::Accumulate(k as u32));
            k += 1;
            assert(steps@ =~= scatter_steps() + bounce_steps(k as nat));
        }
        if n > 0 {
            steps.push(Step::FinalAdd);
            if self.halation_renormalize {
                steps.push(Step::Renormalize);
            }
        }
        assert(steps@ =~= self.steps());
        steps
    }
}

impl DirCouplersGpuParams {
    /// The passes of the DIR coupler stage.
    pub fn encode_passes(&self) -> (steps: Vec<Step>)
        ensures
            steps@ == dir_steps(),
    {
        let mut steps: Vec<Step> = Vec::new();
        steps.push(Step::DirMatmul);
        push_blur(&mut steps, BlurId::DirGaussian);
        push_blur(&mut steps, BlurId::DirTail);
        steps.push(Step::DirLerpClear);
        steps.push(Step::DirLerpAccumulate);
        steps.push(Step::DirSubtract);
        steps.push(Step::DirDensity);
        assert(steps@ =~= dir_steps());
        steps
    }
}

impl GrainGpuParams {
    /// Grain is blurred where the blur is larger than the threshold.
    pub open spec fn blurred(&self) -> bool {
        (Single { bits: GRAIN_BLUR_THRESHOLD }).below(self.grain_blur)
    }

    /// The passes of the grain stage.
    pub fn encode_passes(&self) -> (steps: Vec<Step>)
        ensures
            steps@ == grain_steps(self.blurred()),
    {
        let mut steps: Vec<Step> = Vec::new();
        steps.push(Step::Grain);
        let threshold = Single { bits: GRAIN_BLUR_THRESHOLD };
        if threshold.is_below(self.grain_blur) {
            push_blur(&mut steps, BlurId::Grain);
        }
        assert(steps@ =~= grain_steps(self.blurred()));
        steps
    }
}

impl GlareGpuParams {
    /// Glare is blurred where the blur is positive.
    pub open spec fn blurred(&self) -> bool {
        !self.blur_px.nan() && self.blur_px.rank() > 0
    }

    /// The passes of the glare stage.
    pub fn encode_passes(&self) -> (steps: Vec<Step>)
        ensures
            steps@ == glare_steps(self.blurred()),
    {
        let mut steps: Vec<Step> = Vec::new();
        steps.push(Step::GlareGen);
        if self.blur_px.is_positive() {
            push_blur(&mut steps, BlurId::Glare);
        }
        steps.push(Step::GlareApply);
        assert(steps@ =~= glare_steps(self.blurred()));
        steps
    }
}

impl UnsharpGpuParams {
    /// The passes of the unsharp mask, and the copy back to the image.
    pub fn encode_passes(&self) -> (steps: Vec<Step>)
        ensures
            steps@ == unsharp_steps(),
    {
        let mut steps: Vec<Step> = Vec::new();
        push_blur(&mut steps, BlurId::Unsharp);
        steps.push(Step::UnsharpCombine);
        steps.push(Step::UnsharpCopy);
        assert(steps@ =~= unsharp_steps());
        steps
    }
}

fn push_blur(steps: &mut Vec<Step>, id: BlurId)
    ensures
        final(steps)@ == old(steps)@ + blur_steps(id),
{
    steps.push(Step::BlurH(id));
    steps.push(Step::BlurV(id));
    assert(steps@ =~= old(steps)@ + blur_steps(id));
}

impl FilmChainParams {
    pub open spec fn halation_part(&self) -> Seq<Step> {
        match self.halation {
            Some(h) => h.steps(),
            None => Seq::empty(),
        }
    }

    pub open spec fn dir_part(&self) -> Seq<Step> {
        if self.dir_couplers is Some {
            dir_steps()
        } else {
            Seq::empty()
        }
    }

    pub open spec fn grain_part(&self) -> Seq<Step> {
        match self.grain {
            Some(g) => grain_steps(g.blurred()),
            None => Seq::empty(),
        }
    }

    pub open spec fn glare_part(&self) -> Seq<Step> {
        match self.glare {
            Some(g) => glare_steps(g.blurred()),
            None => Seq::empty(),
        }
    }

    pub open spec fn unsharp_part(&self) -> Seq<Step> {
        if self.unsharp is Some {
            unsharp_steps()
        } else {
            Seq::empty()
        }
    }

    /// From RGB to film density.
    pub open spec fn filming_steps(&self) -> Seq<Step> {
        seq![Step::Hanatos] + self.halation_part() + seq![Step::Log10, Step::FilmDensity]
            + self.dir_part() + self.grain_part()
    }

    /// From film density to scanned RGB.
    pub open spec fn printing_steps(&self) -> Seq<Step> {
        seq![Step::PrintSpectral, Step::PrintDensity, Step::ScanSpectral] + self.glare_part()
            + self.unsharp_part()
    }

    /// The whole chain.
    pub open spec fn steps(&self) -> Seq<Step> {
        self.filming_steps() + self.printing_steps()
    }

    /// The commands of one render, in the order in which they are encoded.
    pub fn run_film_chain(&self) -> (steps: Vec<Step>)
        requires
            self.valid(),
        ensures
            steps@ == self.steps(),
    {
        let mut steps = self.encode_filming();
        let mut part = self.encode_printing();
        steps.append(&mut part);
        steps
    }

    fn encode_filming(&self) -> (steps: Vec<Step>)
        requires
            self.valid(),
        ensures
            steps@ == self.filming_steps(),
    {
        let mut steps: Vec<Step> = Vec::new();
        steps.push(Step::Hanatos);
        assert(steps@ =~= seq![Step::Hanatos]);
        match &self.halation {
            Some(h) => {
                let mut part = h.encode_passes();
                steps.append(&mut part);
            },
            None => {
                assert(steps@ =~= steps@ + Seq::<Step>::empty());
            },
        }
        let ghost exposed = seq![Step::Hanatos] + self.halation_part();
        assert(steps@ == exposed);
        steps.push(Step::Log10);
        steps.push(Step::FilmDensity);
        assert(steps@ =~= exposed + seq![Step::Log10, Step::FilmDensity]);
        let ghost developed = steps@;
        match &self.dir_couplers {
            Some(d) => {
                let mut part = d.encode_passes();
                steps.append(&mut part);
            },
            None => {
                assert(steps@ =~= steps@ + Seq::<Step>::empty());
            },
        }
        assert(steps@ == developed + self.dir_part());
        match &self.grain {
            Some(g) => {
                let mut part = g.encode_passes();
                steps.append(&mut part);
            },
            None => {
                assert(steps@ =~= steps@ + Seq::<Step>::empty());
            },
        }
        steps
    }

    fn encode_printing(&self) -> (steps: Vec<Step>)
        ensures
            steps@ == self.printing_steps(),
    {
        let mut steps: Vec<Step> = Vec::new();
        steps.push(Step::PrintSpectral);
        steps.push(Step::PrintDensity);
        steps.push(Step::ScanSpectral);
        assert(steps@ =~= seq![Step::PrintSpectral, Step::PrintDensity, Step::ScanSpectral]);
        let ghost scanned = steps@;
        match &self.glare {
            Some(g) => {
                let mut part = g.encode_passes();
                steps.append(&mut part);
            },
            None => {
                assert(steps@ =~= steps@ + Seq::<Step>::empty());
            },
        }
        assert(steps@ == scanned + self.glare_part());
        match &self.unsharp {
            Some(u) => {
                let mut part = u.encode_passes();
                steps.append(&mut part);
            },
            None => {
                assert(steps@ =~= steps@ + Seq::<Step>::empty());
            },
        }
        steps
    }
}

} // verus!
