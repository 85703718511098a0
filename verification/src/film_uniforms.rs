//! The uniform blocks of the film chain, word by word.
//!
//! A block is a row of 32-bit words: counts as they are, numbers by their
//! encodings, and zero words where the shader's layout leaves a gap.

use vstd::prelude::*;

use crate::bits::Single;
use crate::film_chain::{bounce_steps, BlurId, DirCouplersGpuParams, FilmChainParams};
use crate::film_chain::{GrainGpuParams, HalationGpuParams, Step, MINUS_ONE};

verus! {

/// One for true, zero for false.
pub open spec fn flag_word(b: bool) -> u32 {
    if b {
        1
    } else {
        0
    }
}

/// Three numbers and a gap.
pub open spec fn vec3_words(v: Seq<Single>) -> Seq<u32> {
    seq![v[0].bits, v[1].bits, v[2].bits, 0]
}

/// A row-major matrix as its three columns, each followed by a gap.
pub open spec fn column_words(m: Seq<[Single; 3]>) -> Seq<u32> {
    seq![
        m[0]@[0].bits, m[1]@[0].bits, m[2]@[0].bits, 0,
        m[0]@[1].bits, m[1]@[1].bits, m[2]@[1].bits, 0,
        m[0]@[2].bits, m[1]@[2].bits, m[2]@[2].bits, 0,
    ]
}

/// A row-major matrix as its three rows, each followed by a gap.
pub open spec fn row_words(m: Seq<[Single; 3]>) -> Seq<u32> {
    vec3_words(m[0]@) + vec3_words(m[1]@) + vec3_words(m[2]@)
}

/// Block of a pass that reads tabulated curves.
pub open spec fn density_words(
    width: u32,
    height: u32,
    len: u32,
    uniform_grid: bool,
    gamma_inv: Single,
) -> Seq<u32> {
    seq![
        width, height, len, flag_word(uniform_grid),
        gamma_inv.bits, gamma_inv.bits, gamma_inv.bits, 0,
    ]
}

/// Block of a pass that takes the pixel count, three gaps and one vector.
pub open spec fn counted_vec3_words(pixels: u32, v: Seq<Single>) -> Seq<u32> {
    seq![pixels, 0, 0, 0] + vec3_words(v)
}

/// Radius of a blur of the chain.
pub open spec fn radius_of(p: &FilmChainParams, id: BlurId) -> u32 {
    match id {
        BlurId::ScatterCore => p.halation->0.scatter_core_radius,
        BlurId::ScatterTail => p.halation->0.scatter_tail_radius,
        BlurId::Bounce(k) => p.halation->0.bounce_radius@[k as int],
        BlurId::DirGaussian => p.dir_couplers->0.diffusion_size_radius,
        BlurId::DirTail => p.dir_couplers->0.diffusion_tail_radius,
        BlurId::Grain => p.grain->0.blur_radius,
        BlurId::Glare => p.glare->0.blur_radius,
        BlurId::Unsharp => p.unsharp->0.radius,
    }
}

/// Sub-layers that the grain shader runs; at least one.
pub open spec fn grain_layers(n: u32) -> u32 {
    if n == 0 {
        1
    } else {
        n
    }
}

/// The stage that a blur belongs to takes part in the render.
pub open spec fn blur_active(p: &FilmChainParams, id: BlurId) -> bool {
    match id {
        BlurId::ScatterCore => p.halation is Some,
        BlurId::ScatterTail => p.halation is Some,
        BlurId::Bounce(k) => p.halation is Some && k < p.halation->0.bounces(),
        BlurId::DirGaussian => p.dir_couplers is Some,
        BlurId::DirTail => p.dir_couplers is Some,
        BlurId::Grain => p.grain is Some,
        BlurId::Glare => p.glare is Some,
        BlurId::Unsharp => p.unsharp is Some,
    }
}

/// The stage that a step belongs to takes part in the render.
pub open spec fn step_active(p: &FilmChainParams, step: Step) -> bool {
    match step {
        Step::BlurH(id) => blur_active(p, id),
        Step::BlurV(id) => blur_active(p, id),
        Step::ScatterMix => p.halation is Some,
        Step::Accumulate(k) => p.halation is Some && k < p.halation->0.bounces(),
        Step::FinalAdd => p.halation is Some,
        Step::Renormalize => p.halation is Some,
        Step::DirMatmul => p.dir_couplers is Some,
        Step::DirLerpClear => p.dir_couplers is Some,
        Step::DirLerpAccumulate => p.dir_couplers is Some,
        Step::DirSubtract => p.dir_couplers is Some,
        Step::DirDensity => p.dir_couplers is Some,
        Step::Grain => p.grain is Some,
        Step::GlareGen => p.glare is Some,
        Step::GlareApply => p.glare is Some,
        Step::UnsharpCombine => p.unsharp is Some,
        Step::UnsharpCopy => p.unsharp is Some,
        _ => true,
    }
}

/// The words of a step's uniform block; the copy has none.
pub open spec fn uniform_of(p: &FilmChainParams, step: Step) -> Seq<u32> {
    let w = p.width;
    let h = p.height;
    let n = p.pixels();
    match step {
        Step::Hanatos => seq![w, h, p.lut_size, 0] + column_words(p.rgb_to_adapted_xyz@),
        Step::BlurH(id) => seq![w, h, radius_of(p, id), 0],
        Step::BlurV(id) => seq![w, h, radius_of(p, id), 0],
        Step::ScatterMix => seq![n, p.halation->0.scatter_amount.bits, 0, 0] + vec3_words(
            p.halation->0.scatter_tail_weight@,
        ),
        Step::Accumulate(k) => seq![
            n,
            p.halation->0.bounce_weight@[k as int].bits,
            flag_word(k == 0),
            0,
        ],
        Step::FinalAdd => counted_vec3_words(n, p.halation->0.halation_a_tot@),
        Step::Renormalize => counted_vec3_words(n, p.halation->0.renormalize_factor@),
        Step::Log10 => seq![n, 0, 0, 0, 0, 0, 0, 0],
        Step::FilmDensity => density_words(
            w,
            h,
            p.film_curve_len,
            p.film_uniform_grid,
            p.film_gamma_inv,
        ),
        Step::DirMatmul => seq![n, flag_word(p.dir_couplers->0.is_positive), 0, 0] + vec3_words(
            p.dir_couplers->0.density_max@,
        ) + row_words(p.dir_couplers->0.couplers_matrix_scaled@),
        Step::DirLerpClear => seq![n, p.dir_couplers->0.diffusion_core_weight.bits, 1, 0],
        Step::DirLerpAccumulate => seq![n, p.dir_couplers->0.diffusion_tail_weight.bits, 0, 0],
        Step::DirSubtract => seq![n, MINUS_ONE, 0, 0],
        Step::DirDensity => density_words(
            w,
            h,
            p.dir_couplers->0.curve_len,
            p.dir_couplers->0.uniform_grid,
            p.dir_couplers->0.gamma_inv,
        ),
        Step::Grain => seq![n, p.grain->0.base_seed, grain_layers(p.grain->0.n_sub_layers), 0]
            + vec3_words(p.grain->0.density_min@) + vec3_words(p.grain->0.density_max@)
            + vec3_words(p.grain->0.n_particles_per_pixel@) + vec3_words(
            p.grain->0.grain_uniformity@,
        ),
        Step::PrintSpectral => seq![w, h, p.film_wavelengths, p.print_normalization_factor.bits],
        Step::PrintDensity => density_words(
            w,
            h,
            p.print_curve_len,
            p.print_uniform_grid,
            p.print_gamma_inv,
        ),
        Step::ScanSpectral => seq![w, h, p.print_wavelengths, p.scan_normalization.bits]
            + column_words(p.scan_xyz_to_rgb@),
        Step::GlareGen => seq![
            n,
            p.glare->0.base_seed,
            p.glare->0.mu.bits,
            p.glare->0.sigma.bits,
        ],
        Step::GlareApply => counted_vec3_words(n, p.glare->0.rgb_offset@),
        Step::UnsharpCombine => seq![n, p.unsharp->0.amount.bits, 0, 0],
        Step::UnsharpCopy => Seq::empty(),
    }
}

fn flag(b: bool) -> (r: u32)
    ensures
        r == flag_word(b),
{
    if b {
        1
    } else {
        0
    }
}

fn push_vec3(words: &mut Vec<u32>, v: &[Single; 3])
    ensures
        final(words)@ == old(words)@ + vec3_words(v@),
{
    words.push(v[0].bits);
    words.push(v[1].bits);
    words.push(v[2].bits);
    words.push(0);
    assert(words@ =~= old(words)@ + vec3_words(v@));
}

fn push_columns(words: &mut Vec<u32>, m: &[[Single; 3]; 3])
    ensures
        final(words)@ == old(words)@ + column_words(m@),
{
    let mut j: usize = 0;
    let ghost cols = column_words(m@);
    while j < 3
        invariant
            j <= 3,
            cols == column_words(m@),
            words@ == old(words)@ + cols.subrange(0, 4 * j as int),
        decreases 3 - j,
    {
        words.push(m[0][j].bits);
        words.push(m[1][j].bits);
        words.push(m[2][j].bits);
        words.push(0);
        j += 1;
        assert(words@ =~= old(words)@ + cols.subrange(0, 4 * j as int));
    }
    assert(cols.subrange(0, 12) =~= cols);
}

/// Uniform block of a curve lookup.
pub fn density_block(width: u32, height: u32, len: u32, uniform_grid: bool, gamma_inv: Single) -> (r:
    Vec<u32>)
    ensures
        r@ == density_words(width, height, len, uniform_grid, gamma_inv),
{
    let r: Vec<u32> = vec![
        width, height, len, flag(uniform_grid),
        gamma_inv.bits, gamma_inv.bits, gamma_inv.bits, 0,
    ];
    assert(r@ =~= density_words(width, height, len, uniform_grid, gamma_inv));
    r
}

/// Uniform block of the RGB to exposure lookup; the matrix is row-major.
pub fn hanatos_block(width: u32, height: u32, lut_size: u32, matrix: &[[Single; 3]; 3]) -> (r: Vec<
    u32,
>)
    ensures
        r@ == seq![width, height, lut_size, 0] + column_words(matrix@),
{
    let mut r: Vec<u32> = block4(width, height, lut_size, 0);
    push_columns(&mut r, matrix);
    r
}

/// Uniform block of the print exposure.
pub fn print_block(width: u32, height: u32, wavelengths: u32, factor: Single) -> (r: Vec<u32>)
    ensures
        r@ == seq![width, height, wavelengths, factor.bits],
{
    block4(width, height, wavelengths, factor.bits)
}

/// Uniform block of the scan; the matrix is row-major.
pub fn scan_block(
    width: u32,
    height: u32,
    wavelengths: u32,
    normalization: Single,
    matrix: &[[Single; 3]; 3],
) -> (r: Vec<u32>)
    ensures
        r@ == seq![width, height, wavelengths, normalization.bits] + column_words(matrix@),
{
    let mut r: Vec<u32> = block4(width, height, wavelengths, normalization.bits);
    push_columns(&mut r, matrix);
    r
}

/// Uniform block of a blur pass.
pub fn blur_block(width: u32, height: u32, radius: u32) -> (r: Vec<u32>)
    ensures
        r@ == seq![width, height, radius, 0],
{
    block4(width, height, radius, 0)
}

fn counted_vec3_block(pixels: u32, v: &[Single; 3]) -> (r: Vec<u32>)
    ensures
        r@ == counted_vec3_words(pixels, v@),
{
    let mut r: Vec<u32> = block4(pixels, 0, 0, 0);
    push_vec3(&mut r, v);
    r
}

fn block4(a: u32, b: u32, c: u32, d: u32) -> (r: Vec<u32>)
    ensures
        r@ == seq![a, b, c, d],
{
    let r: Vec<u32> = vec![a, b, c, d];
    assert(r@ =~= seq![a, b, c, d]);
    r
}

impl HalationGpuParams {
    fn mix_block(&self, pixels: u32) -> (r: Vec<u32>)
        ensures
            r@ == seq![pixels, self.scatter_amount.bits, 0, 0] + vec3_words(
                self.scatter_tail_weight@,
            ),
    {
        let mut r: Vec<u32> = block4(pixels, self.scatter_amount.bits, 0, 0);
        push_vec3(&mut r, &self.scatter_tail_weight);
        r
    }
}

impl DirCouplersGpuParams {
    fn matmul_block(&self, pixels: u32) -> (r: Vec<u32>)
        ensures
            r@ == seq![pixels, flag_word(self.is_positive), 0, 0] + vec3_words(self.density_max@)
                + row_words(self.couplers_matrix_scaled@),
    {
        let mut r: Vec<u32> = block4(pixels, flag(self.is_positive), 0, 0);
        push_vec3(&mut r, &self.density_max);
        let ghost head = r@;
        push_vec3(&mut r, &self.couplers_matrix_scaled[0]);
        push_vec3(&mut r, &self.couplers_matrix_scaled[1]);
        push_vec3(&mut r, &self.couplers_matrix_scaled[2]);
        assert(r@ =~= head + row_words(self.couplers_matrix_scaled@));
        r
    }
}

impl GrainGpuParams {
    fn grain_block(&self, pixels: u32) -> (r: Vec<u32>)
        ensures
            r@ == seq![pixels, self.base_seed, grain_layers(self.n_sub_layers), 0] + vec3_words(
                self.density_min@,
            ) + vec3_words(self.density_max@) + vec3_words(self.n_particles_per_pixel@)
                + vec3_words(self.grain_uniformity@),
    {
        let layers: u32 = if self.n_sub_layers == 0 {
            1
        } else {
            self.n_sub_layers
        };
        let mut r: Vec<u32> = block4(pixels, self.base_seed, layers, 0);
        push_vec3(&mut r, &self.density_min);
        push_vec3(&mut r, &self.density_max);
        push_vec3(&mut r, &self.n_particles_per_pixel);
        push_vec3(&mut r, &self.grain_uniformity);
        r
    }
}

impl FilmChainParams {
    fn blur_radius(&self, id: BlurId) -> (r: u32)
        requires
            self.valid(),
            blur_active(self, id),
        ensures
            r == radius_of(self, id),
    {
        match id {
            BlurId::ScatterCore => self.halation.as_ref().unwrap().scatter_core_radius,
            BlurId::ScatterTail => self.halation.as_ref().unwrap().scatter_tail_radius,
            BlurId::Bounce(k) => self.halation.as_ref().unwrap().bounce_radius[k as usize],
            BlurId::DirGaussian => self.dir_couplers.as_ref().unwrap().diffusion_size_radius,
            BlurId::DirTail => self.dir_couplers.as_ref().unwrap().diffusion_tail_radius,
            BlurId::Grain => self.grain.as_ref().unwrap().blur_radius,
            BlurId::Glare => self.glare.as_ref().unwrap().blur_radius,
            BlurId::Unsharp => self.unsharp.as_ref().unwrap().radius,
        }
    }

    /// The words of a step's uniform block.
    pub fn uniform(&self, step: Step) -> (r: Vec<u32>)
        requires
            self.valid(),
            step_active(self, step),
        ensures
            r@ == uniform_of(self, step),
    {
        assert(0 <= self.width * self.height) by (nonlinear_arith);
        let n: u32 = self.width * self.height;
        let w: u32 = self.width;
        let h: u32 = self.height;
        match step {
            Step::Hanatos => hanatos_block(w, h, self.lut_size, &self.rgb_to_adapted_xyz),
            Step::BlurH(id) => blur_block(w, h, self.blur_radius(id)),
            Step::BlurV(id) => blur_block(w, h, self.blur_radius(id)),
            Step::ScatterMix => self.halation.as_ref().unwrap().mix_block(n),
            Step::Accumulate(k) => block4(
                n,
                self.halation.as_ref().unwrap().bounce_weight[k as usize].bits,
                flag(k == 0),
                0,
            ),
            Step::FinalAdd => counted_vec3_block(
                n,
                &self.halation.as_ref().unwrap().halation_a_tot,
            ),
            Step::Renormalize => counted_vec3_block(
                n,
                &self.halation.as_ref().unwrap().renormalize_factor,
            ),
            Step::Log10 => {
                let r: Vec<u32> = vec![n, 0, 0, 0, 0, 0, 0, 0];
                assert(r@ =~= uniform_of(self, step));
                r
            },
            Step::FilmDensity => density_block(
                w,
                h,
                self.film_curve_len,
                self.film_uniform_grid,
                self.film_gamma_inv,
            ),
            Step::DirMatmul => self.dir_couplers.as_ref().unwrap().matmul_block(n),
            Step::DirLerpClear => block4(
                n,
                self.dir_couplers.as_ref().unwrap().diffusion_core_weight.bits,
                1,
                0,
            ),
            Step::DirLerpAccumulate => block4(
                n,
                self.dir_couplers.as_ref().unwrap().diffusion_tail_weight.bits,
                0,
                0,
            ),
            Step::DirSubtract => block4(n, MINUS_ONE, 0, 0),
            Step::DirDensity => density_block(
                w,
                h,
                self.dir_couplers.as_ref().unwrap().curve_len,
                self.dir_couplers.as_ref().unwrap().uniform_grid,
                self.dir_couplers.as_ref().unwrap().gamma_inv,
            ),
            Step::Grain => self.grain.as_ref().unwrap().grain_block(n),
            Step::PrintSpectral => print_block(
                w,
                h,
                self.film_wavelengths,
                self.print_normalization_factor,
            ),
            Step::PrintDensity => density_block(
                w,
                h,
                self.print_curve_len,
                self.print_uniform_grid,
                self.print_gamma_inv,
            ),
            Step::ScanSpectral => scan_block(
                w,
                h,
                self.print_wavelengths,
                self.scan_normalization,
                &self.scan_xyz_to_rgb,
            ),
            Step::GlareGen => block4(
                n,
                self.glare.as_ref().unwrap().base_seed,
                self.glare.as_ref().unwrap().mu.bits,
                self.glare.as_ref().unwrap().sigma.bits,
            ),
            Step::GlareApply => counted_vec3_block(n, &self.glare.as_ref().unwrap().rgb_offset),
            Step::UnsharpCombine => block4(
                n,
                self.unsharp.as_ref().unwrap().amount.bits,
                0,
                0,
            ),
            Step::UnsharpCopy => Vec::new(),
        }
    }
}

/// Every uniform block is a whole number of 16-byte rows.
pub proof fn lemma_uniform_rows(p: &FilmChainParams, step: Step)
    ensures
        uniform_of(p, step).len() % 4 == 0,
{
}

proof fn lemma_bounce_steps_active(p: &FilmChainParams, n: nat)
    requires
        p.halation is Some,
        n <= p.halation->0.bounces(),
        n <= u32::MAX,
    ensures
        forall|i: int|
            0 <= i < bounce_steps(n).len() ==> step_active(p, #[trigger] bounce_steps(n)[i]),
    decreases n,
{
    if n > 0 {
        lemma_bounce_steps_active(p, (n - 1) as nat);
        let head = bounce_steps((n - 1) as nat);
        let k = (n - 1) as u32;
        assert forall|i: int| 0 <= i < bounce_steps(n).len() implies step_active(
            p,
            #[trigger] bounce_steps(n)[i],
        ) by {
            if i < head.len() {
                assert(bounce_steps(n)[i] == head[i]);
            }
        }
    }
}

/// Every step of a render belongs to a stage that takes part in it, so its
/// uniform block can be built.
pub proof fn lemma_steps_active(p: &FilmChainParams)
    requires
        p.valid(),
    ensures
        forall|i: int| 0 <= i < p.steps().len() ==> step_active(p, #[trigger] p.steps()[i]),
{
    if let Some(hal) = p.halation {
        lemma_bounce_steps_active(p, hal.bounces());
    }
    lemma_filming_active(p);
    lemma_printing_active(p);
    let f = p.filming_steps();
    assert forall|i: int| 0 <= i < p.steps().len() implies step_active(
        p,
        #[trigger] p.steps()[i],
    ) by {
        if i < f.len() {
            assert(p.steps()[i] == f[i]);
        } else {
            assert(p.steps()[i] == p.printing_steps()[i - f.len()]);
        }
    }
}

proof fn lemma_halation_active(p: &FilmChainParams)
    requires
        p.valid(),
    ensures
        forall|i: int|
            0 <= i < p.halation_part().len() ==> step_active(p, #[trigger] p.halation_part()[i]),
{
    if let Some(hal) = p.halation {
        let n = hal.bounces();
        lemma_bounce_steps_active(p, n);
        let part = p.halation_part();
        let b = bounce_steps(n);
        assert forall|i: int| 0 <= i < part.len() implies step_active(p, #[trigger] part[i]) by {
            if 5 <= i < 5 + b.len() {
                assert(part[i] == b[i - 5]);
            }
        }
    }
}

proof fn lemma_filming_active(p: &FilmChainParams)
    requires
        p.valid(),
    ensures
        forall|i: int|
            0 <= i < p.filming_steps().len() ==> step_active(p, #[trigger] p.filming_steps()[i]),
{
    lemma_halation_active(p);
    let hal = p.halation_part();
    let f = p.filming_steps();
    let dir = p.dir_part();
    let grain = p.grain_part();
    assert forall|i: int| 0 <= i < f.len() implies step_active(p, #[trigger] f[i]) by {
        let a = 1 + hal.len();
        if i == 0 {
        } else if i < a {
            assert(f[i] == hal[i - 1]);
        } else if i < a + 2 {
            assert(f[i] == seq![Step::Log10, Step::FilmDensity][i - a]);
        } else if i < a + 2 + dir.len() {
            assert(f[i] == dir[i - a - 2]);
        } else {
            assert(f[i] == grain[i - a - 2 - dir.len()]);
        }
    }
}

proof fn lemma_printing_active(p: &FilmChainParams)
    ensures
        forall|i: int|
            0 <= i < p.printing_steps().len() ==> step_active(p, #[trigger] p.printing_steps()[i]),
{
    let f = p.printing_steps();
    let glare = p.glare_part();
    assert forall|i: int| 0 <= i < f.len() implies step_active(p, #[trigger] f[i]) by {
        if i < 3 {
            assert(f[i] == seq![Step::PrintSpectral, Step::PrintDensity, Step::ScanSpectral][i]);
        } else if i < 3 + glare.len() {
            assert(f[i] == glare[i - 3]);
        } else {
            assert(f[i] == p.unsharp_part()[i - 3 - glare.len()]);
        }
    }
}

} // verus!
