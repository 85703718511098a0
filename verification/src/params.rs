//! The parameters of a render and their defaults.
//!
//! The number behind an encoding stands in a comment next to it.

use vstd::prelude::*;

use crate::bits::{Double, Single};

verus! {

/// A diffusion filter in front of a lens.
#[derive(Clone)]
pub struct DiffusionFilterParams {
    pub active: bool,
    pub filter_family: String,
    pub strength: Single,
    pub spatial_scale: Single,
    pub halo_warmth: Single,
    pub core_intensity: Single,
    pub core_size: Single,
    pub halo_intensity: Single,
    pub halo_size: Single,
    pub bloom_intensity: Single,
    pub bloom_size: Single,
}

impl DiffusionFilterParams {
    /// Every parameter has its default.
    pub open spec fn is_default(&self) -> bool {
        &&& !self.active
        &&& self.filter_family@ == "black_pro_mist"@
        // 0.5
        &&& self.strength == (Single { bits: 0x3f00_0000 })
        // 1.0
        &&& self.spatial_scale == (Single { bits: 0x3f80_0000 })
        // 0.0
        &&& self.halo_warmth == (Single { bits: 0 })
        // 1.0
        &&& self.core_intensity == (Single { bits: 0x3f80_0000 })
        // 1.0
        &&& self.core_size == (Single { bits: 0x3f80_0000 })
        // 1.0
        &&& self.halo_intensity == (Single { bits: 0x3f80_0000 })
        // 1.0
        &&& self.halo_size == (Single { bits: 0x3f80_0000 })
        // 1.0
        &&& self.bloom_intensity == (Single { bits: 0x3f80_0000 })
        // 1.0
        &&& self.bloom_size == (Single { bits: 0x3f80_0000 })
    }
}

impl Default for DiffusionFilterParams {
    fn default() -> (r: DiffusionFilterParams)
        ensures
            r.is_default(),
    {
        let r = DiffusionFilterParams {
            active: false,
            filter_family: default_bpm(),
            strength: Single { bits: 0x3f00_0000 },
            spatial_scale: Single { bits: 0x3f80_0000 },
            halo_warmth: Single { bits: 0 },
            core_intensity: Single { bits: 0x3f80_0000 },
            core_size: Single { bits: 0x3f80_0000 },
            halo_intensity: Single { bits: 0x3f80_0000 },
            halo_size: Single { bits: 0x3f80_0000 },
            bloom_intensity: Single { bits: 0x3f80_0000 },
            bloom_size: Single { bits: 0x3f80_0000 },
        };
        r
    }
}

/// Camera and metering.
#[derive(Clone)]
pub struct CameraParams {
    pub exposure_compensation_ev: Single,
    pub auto_exposure: bool,
    pub auto_exposure_method: String,
    pub lens_blur_um: Single,
    pub film_format_mm: Single,
    pub filter_uv: [Single; 3],
    pub filter_ir: [Single; 3],
    pub diffusion_filter: DiffusionFilterParams,
}

impl CameraParams {
    /// Every parameter has its default.
    pub open spec fn is_default(&self) -> bool {
        // 0.0
        &&& self.exposure_compensation_ev == (Single { bits: 0 })
        &&& self.auto_exposure
        &&& self.auto_exposure_method@ == "center_weighted"@
        // 0.0
        &&& self.lens_blur_um == (Single { bits: 0 })
        // 35.0
        &&& self.film_format_mm == (Single { bits: 0x420c_0000 })
        // 0.0, 410.0, 8.0
        &&& self.filter_uv@ == seq![
            Single { bits: 0 },
            Single { bits: 0x43cd_0000 },
            Single { bits: 0x4100_0000 },
        ]
        // 0.0, 675.0, 15.0
        &&& self.filter_ir@ == seq![
            Single { bits: 0 },
            Single { bits: 0x4428_c000 },
            Single { bits: 0x4170_0000 },
        ]
        &&& self.diffusion_filter.is_default()
    }
}

impl Default for CameraParams {
    fn default() -> (r: CameraParams)
        ensures
            r.is_default(),
    {
        let r = CameraParams {
            exposure_compensation_ev: Single { bits: 0 },
            auto_exposure: true,
            auto_exposure_method: default_center_weighted(),
            lens_blur_um: Single { bits: 0 },
            film_format_mm: Single { bits: 0x420c_0000 },
            filter_uv: [
                Single { bits: 0 },
                Single { bits: 0x43cd_0000 },
                Single { bits: 0x4100_0000 },
            ],
            filter_ir: [
                Single { bits: 0 },
                Single { bits: 0x4428_c000 },
                Single { bits: 0x4170_0000 },
            ],
            diffusion_filter: DiffusionFilterParams::default(),
        };
        assert(r.filter_uv@ =~= seq![
            Single { bits: 0 },
            Single { bits: 0x43cd_0000 },
            Single { bits: 0x4100_0000 },
        ]);
        assert(r.filter_ir@ =~= seq![
            Single { bits: 0 },
            Single { bits: 0x4428_c000 },
            Single { bits: 0x4170_0000 },
        ]);
        r
    }
}

/// The enlarger: lamp, filters and exposure.
#[derive(Clone)]
pub struct EnlargerParams {
    pub illuminant: String,
    pub print_exposure: Single,
    pub print_exposure_compensation: bool,
    pub normalize_print_exposure: bool,
    pub y_filter_shift: Single,
    pub m_filter_shift: Single,
    pub y_filter_neutral: Single,
    pub m_filter_neutral: Single,
    pub c_filter_neutral: Single,
    pub lens_blur: Single,
    pub diffusion_filter: DiffusionFilterParams,
    pub preflash_exposure: Single,
    pub preflash_y_filter_shift: Single,
    pub preflash_m_filter_shift: Single,
}

impl EnlargerParams {
    /// Every parameter has its default.
    pub open spec fn is_default(&self) -> bool {
        &&& self.illuminant@ == "TH-KG3"@
        // 1.0
        &&& self.print_exposure == (Single { bits: 0x3f80_0000 })
        &&& self.print_exposure_compensation
        &&& self.normalize_print_exposure
        // 0.0
        &&& self.y_filter_shift == (Single { bits: 0 })
        // 0.0
        &&& self.m_filter_shift == (Single { bits: 0 })
        // 55.0
        &&& self.y_filter_neutral == (Single { bits: 0x425c_0000 })
        // 65.0
        &&& self.m_filter_neutral == (Single { bits: 0x4282_0000 })
        // 0.0
        &&& self.c_filter_neutral == (Single { bits: 0 })
        // 0.0
        &&& self.lens_blur == (Single { bits: 0 })
        &&& self.diffusion_filter.is_default()
        // 0.0
        &&& self.preflash_exposure == (Single { bits: 0 })
        // 0.0
        &&& self.preflash_y_filter_shift == (Single { bits: 0 })
        // 0.0
        &&& self.preflash_m_filter_shift == (Single { bits: 0 })
    }
}

impl Default for EnlargerParams {
    fn default() -> (r: EnlargerParams)
        ensures
            r.is_default(),
    {
        let r = EnlargerParams {
            illuminant: default_th_kg3(),
            print_exposure: Single { bits: 0x3f80_0000 },
            print_exposure_compensation: true,
            normalize_print_exposure: true,
            y_filter_shift: Single { bits: 0 },
            m_filter_shift: Single { bits: 0 },
            y_filter_neutral: Single { bits: 0x425c_0000 },
            m_filter_neutral: Single { bits: 0x4282_0000 },
            c_filter_neutral: Single { bits: 0 },
            lens_blur: Single { bits: 0 },
            diffusion_filter: DiffusionFilterParams::default(),
            preflash_exposure: Single { bits: 0 },
            preflash_y_filter_shift: Single { bits: 0 },
            preflash_m_filter_shift: Single { bits: 0 },
        };
        r
    }
}

/// The scanner: corrections and sharpening.
#[derive(Clone)]
pub struct ScannerParams {
    pub lens_blur: Single,
    pub white_correction: bool,
    pub black_correction: bool,
    pub white_level: Single,
    pub black_level: Single,
    pub unsharp_mask: [Single; 2],
}

impl ScannerParams {
    /// Every parameter has its default.
    pub open spec fn is_default(&self) -> bool {
        // 0.0
        &&& self.lens_blur == (Single { bits: 0 })
        &&& !self.white_correction
        &&& !self.black_correction
        // 0.98
        &&& self.white_level == (Single { bits: 0x3f7a_e148 })
        // 0.01
        &&& self.black_level == (Single { bits: 0x3c23_d70a })
        // 0.7, 0.7
        &&& self.unsharp_mask@ == seq![
            Single { bits: 0x3f33_3333 },
            Single { bits: 0x3f33_3333 },
        ]
    }
}

impl Default for ScannerParams {
    fn default() -> (r: ScannerParams)
        ensures
            r.is_default(),
    {
        let r = ScannerParams {
            lens_blur: Single { bits: 0 },
            white_correction: false,
            black_correction: false,
            white_level: Single { bits: 0x3f7a_e148 },
            black_level: Single { bits: 0x3c23_d70a },
            unsharp_mask: [
                Single { bits: 0x3f33_3333 },
                Single { bits: 0x3f33_3333 },
            ],
        };
        assert(r.unsharp_mask@ =~= seq![
            Single { bits: 0x3f33_3333 },
            Single { bits: 0x3f33_3333 },
        ]);
        r
    }
}

/// Particle grain.
#[derive(Clone)]
pub struct GrainParams {
    pub active: bool,
    pub sublayers_active: bool,
    pub agx_particle_area_um2: Double,
    pub agx_particle_scale: [Double; 3],
    pub agx_particle_scale_layers: [Double; 3],
    pub density_min: [Double; 3],
    pub uniformity: [Double; 3],
    pub blur: Single,
    pub blur_dye_clouds_um: Single,
    pub micro_structure: [Single; 2],
    pub n_sub_layers: u32,
}

impl GrainParams {
    /// Every parameter has its default.
    pub open spec fn is_default(&self) -> bool {
        &&& self.active
        &&& self.sublayers_active
        // 0.2
        &&& self.agx_particle_area_um2 == (Double { bits: 0x3fc9_9999_9999_999a })
        // 0.8, 1.0, 2.0
        &&& self.agx_particle_scale@ == seq![
            Double { bits: 0x3fe9_9999_9999_999a },
            Double { bits: 0x3ff0_0000_0000_0000 },
            Double { bits: 0x4000_0000_0000_0000 },
        ]
        // 2.5, 1.0, 0.5
        &&& self.agx_particle_scale_layers@ == seq![
            Double { bits: 0x4004_0000_0000_0000 },
            Double { bits: 0x3ff0_0000_0000_0000 },
            Double { bits: 0x3fe0_0000_0000_0000 },
        ]
        // 0.07, 0.08, 0.12
        &&& self.density_min@ == seq![
            Double { bits: 0x3fb1_eb85_1eb8_51ec },
            Double { bits: 0x3fb4_7ae1_47ae_147b },
            Double { bits: 0x3fbe_b851_eb85_1eb8 },
        ]
        // 0.97, 0.97, 0.99
        &&& self.uniformity@ == seq![
            Double { bits: 0x3fef_0a3d_70a3_d70a },
            Double { bits: 0x3fef_0a3d_70a3_d70a },
            Double { bits: 0x3fef_ae14_7ae1_47ae },
        ]
        // 0.65
        &&& self.blur == (Single { bits: 0x3f26_6666 })
        // 1.0
        &&& self.blur_dye_clouds_um == (Single { bits: 0x3f80_0000 })
        // 0.2, 30.0
        &&& self.micro_structure@ == seq![
            Single { bits: 0x3e4c_cccd },
            Single { bits: 0x41f0_0000 },
        ]
        &&& self.n_sub_layers == 1
    }
}

impl Default for GrainParams {
    fn default() -> (r: GrainParams)
        ensures
            r.is_default(),
    {
        let r = GrainParams {
            active: true,
            sublayers_active: true,
            agx_particle_area_um2: Double { bits: 0x3fc9_9999_9999_999a },
            agx_particle_scale: [
                Double { bits: 0x3fe9_9999_9999_999a },
                Double { bits: 0x3ff0_0000_0000_0000 },
                Double { bits: 0x4000_0000_0000_0000 },
            ],
            agx_particle_scale_layers: [
                Double { bits: 0x4004_0000_0000_0000 },
                Double { bits: 0x3ff0_0000_0000_0000 },
                Double { bits: 0x3fe0_0000_0000_0000 },
            ],
            density_min: [
                Double { bits: 0x3fb1_eb85_1eb8_51ec },
                Double { bits: 0x3fb4_7ae1_47ae_147b },
                Double { bits: 0x3fbe_b851_eb85_1eb8 },
            ],
            uniformity: [
                Double { bits: 0x3fef_0a3d_70a3_d70a },
                Double { bits: 0x3fef_0a3d_70a3_d70a },
                Double { bits: 0x3fef_ae14_7ae1_47ae },
            ],
            blur: Single { bits: 0x3f26_6666 },
            blur_dye_clouds_um: Single { bits: 0x3f80_0000 },
            micro_structure: [
                Single { bits: 0x3e4c_cccd },
                Single { bits: 0x41f0_0000 },
            ],
            n_sub_layers: default_1i(),
        };
        assert(r.agx_particle_scale@ =~= seq![
            Double { bits: 0x3fe9_9999_9999_999a },
            Double { bits: 0x3ff0_0000_0000_0000 },
            Double { bits: 0x4000_0000_0000_0000 },
        ]);
        assert(r.agx_particle_scale_layers@ =~= seq![
            Double { bits: 0x4004_0000_0000_0000 },
            Double { bits: 0x3ff0_0000_0000_0000 },
            Double { bits: 0x3fe0_0000_0000_0000 },
        ]);
        assert(r.density_min@ =~= seq![
            Double { bits: 0x3fb1_eb85_1eb8_51ec },
            Double { bits: 0x3fb4_7ae1_47ae_147b },
            Double { bits: 0x3fbe_b851_eb85_1eb8 },
        ]);
        assert(r.uniformity@ =~= seq![
            Double { bits: 0x3fef_0a3d_70a3_d70a },
            Double { bits: 0x3fef_0a3d_70a3_d70a },
            Double { bits: 0x3fef_ae14_7ae1_47ae },
        ]);
        assert(r.micro_structure@ =~= seq![
            Single { bits: 0x3e4c_cccd },
            Single { bits: 0x41f0_0000 },
        ]);
        r
    }
}

/// Scatter and halation.
#[derive(Clone)]
pub struct HalationParams {
    pub active: bool,
    pub scatter_amount: Double,
    pub scatter_spatial_scale: Double,
    pub halation_amount: Double,
    pub halation_spatial_scale: Double,
    pub scatter_core_um: [Double; 3],
    pub scatter_tail_um: [Double; 3],
    pub scatter_tail_weight: [Double; 3],
    pub boost_ev: Single,
    pub boost_range: Single,
    pub protect_ev: Single,
    pub halation_strength: [Double; 3],
    pub halation_first_sigma_um: [Double; 3],
    pub halation_n_bounces: u32,
    pub halation_bounce_decay: Double,
    pub halation_renormalize: bool,
}

impl HalationParams {
    /// Every parameter has its default.
    pub open spec fn is_default(&self) -> bool {
        &&& self.active
        // 1.0
        &&& self.scatter_amount == (Double { bits: 0x3ff0_0000_0000_0000 })
        // 1.0
        &&& self.scatter_spatial_scale == (Double { bits: 0x3ff0_0000_0000_0000 })
        // 1.0
        &&& self.halation_amount == (Double { bits: 0x3ff0_0000_0000_0000 })
        // 1.0
        &&& self.halation_spatial_scale == (Double { bits: 0x3ff0_0000_0000_0000 })
        // 2.2, 2.0, 1.6
        &&& self.scatter_core_um@ == seq![
            Double { bits: 0x4001_9999_9999_999a },
            Double { bits: 0x4000_0000_0000_0000 },
            Double { bits: 0x3ff9_9999_9999_999a },
        ]
        // 9.3, 9.7, 9.1
        &&& self.scatter_tail_um@ == seq![
            Double { bits: 0x4022_9999_9999_999a },
            Double { bits: 0x4023_6666_6666_6666 },
            Double { bits: 0x4022_3333_3333_3333 },
        ]
        // 0.78, 0.65, 0.67
        &&& self.scatter_tail_weight@ == seq![
            Double { bits: 0x3fe8_f5c2_8f5c_28f6 },
            Double { bits: 0x3fe4_cccc_cccc_cccd },
            Double { bits: 0x3fe5_70a3_d70a_3d71 },
        ]
        // 0.0
        &&& self.boost_ev == (Single { bits: 0 })
        // 0.3
        &&& self.boost_range == (Single { bits: 0x3e99_999a })
        // 4.0
        &&& self.protect_ev == (Single { bits: 0x4080_0000 })
        // 0.05, 0.015, 0.0
        &&& self.halation_strength@ == seq![
            Double { bits: 0x3fa9_9999_9999_999a },
            Double { bits: 0x3f8e_b851_eb85_1eb8 },
            Double { bits: 0 },
        ]
        // 65.0, 65.0, 65.0
        &&& self.halation_first_sigma_um@ == seq![
            Double { bits: 0x4050_4000_0000_0000 },
            Double { bits: 0x4050_4000_0000_0000 },
            Double { bits: 0x4050_4000_0000_0000 },
        ]
        &&& self.halation_n_bounces == 3
        // 0.5
        &&& self.halation_bounce_decay == (Double { bits: 0x3fe0_0000_0000_0000 })
        &&& self.halation_renormalize
    }
}

impl Default for HalationParams {
    fn default() -> (r: HalationParams)
        ensures
            r.is_default(),
    {
        let r = HalationParams {
            active: true,
            scatter_amount: Double { bits: 0x3ff0_0000_0000_0000 },
            scatter_spatial_scale: Double { bits: 0x3ff0_0000_0000_0000 },
            halation_amount: Double { bits: 0x3ff0_0000_0000_0000 },
            halation_spatial_scale: Double { bits: 0x3ff0_0000_0000_0000 },
            scatter_core_um: [
                Double { bits: 0x4001_9999_9999_999a },
                Double { bits: 0x4000_0000_0000_0000 },
                Double { bits: 0x3ff9_9999_9999_999a },
            ],
            scatter_tail_um: [
                Double { bits: 0x4022_9999_9999_999a },
                Double { bits: 0x4023_6666_6666_6666 },
                Double { bits: 0x4022_3333_3333_3333 },
            ],
            scatter_tail_weight: [
                Double { bits: 0x3fe8_f5c2_8f5c_28f6 },
                Double { bits: 0x3fe4_cccc_cccc_cccd },
                Double { bits: 0x3fe5_70a3_d70a_3d71 },
            ],
            boost_ev: Single { bits: 0 },
            boost_range: Single { bits: 0x3e99_999a },
            protect_ev: Single { bits: 0x4080_0000 },
            halation_strength: [
                Double { bits: 0x3fa9_9999_9999_999a },
                Double { bits: 0x3f8e_b851_eb85_1eb8 },
                Double { bits: 0 },
            ],
            halation_first_sigma_um: [
                Double { bits: 0x4050_4000_0000_0000 },
                Double { bits: 0x4050_4000_0000_0000 },
                Double { bits: 0x4050_4000_0000_0000 },
            ],
            halation_n_bounces: default_3i(),
            halation_bounce_decay: Double { bits: 0x3fe0_0000_0000_0000 },
            halation_renormalize: true,
        };
        assert(r.scatter_core_um@ =~= seq![
            Double { bits: 0x4001_9999_9999_999a },
            Double { bits: 0x4000_0000_0000_0000 },
            Double { bits: 0x3ff9_9999_9999_999a },
        ]);
        assert(r.scatter_tail_um@ =~= seq![
            Double { bits: 0x4022_9999_9999_999a },
            Double { bits: 0x4023_6666_6666_6666 },
            Double { bits: 0x4022_3333_3333_3333 },
        ]);
        assert(r.scatter_tail_weight@ =~= seq![
            Double { bits: 0x3fe8_f5c2_8f5c_28f6 },
            Double { bits: 0x3fe4_cccc_cccc_cccd },
            Double { bits: 0x3fe5_70a3_d70a_3d71 },
        ]);
        assert(r.halation_strength@ =~= seq![
            Double { bits: 0x3fa9_9999_9999_999a },
            Double { bits: 0x3f8e_b851_eb85_1eb8 },
            Double { bits: 0 },
        ]);
        assert(r.halation_first_sigma_um@ =~= seq![
            Double { bits: 0x4050_4000_0000_0000 },
            Double { bits: 0x4050_4000_0000_0000 },
            Double { bits: 0x4050_4000_0000_0000 },
        ]);
        r
    }
}

/// DIR couplers.
#[derive(Clone)]
pub struct DirCouplersParams {
    pub active: bool,
    pub amount: Double,
    pub inhibition_samelayer: Double,
    pub inhibition_interlayer: Double,
    pub gamma_samelayer_rgb: [Double; 3],
    pub gamma_interlayer_r_to_gb: [Double; 2],
    pub gamma_interlayer_g_to_rb: [Double; 2],
    pub gamma_interlayer_b_to_rg: [Double; 2],
    pub diffusion_size_um: Double,
    pub diffusion_tail_um: Double,
    pub diffusion_tail_weight: Double,
}

impl DirCouplersParams {
    /// Every parameter has its default.
    pub open spec fn is_default(&self) -> bool {
        &&& self.active
        // 1.0
        &&& self.amount == (Double { bits: 0x3ff0_0000_0000_0000 })
        // 1.0
        &&& self.inhibition_samelayer == (Double { bits: 0x3ff0_0000_0000_0000 })
        // 1.0
        &&& self.inhibition_interlayer == (Double { bits: 0x3ff0_0000_0000_0000 })
        // 0.341, 0.324, 0.273
        &&& self.gamma_samelayer_rgb@ == seq![
            Double { bits: 0x3fd5_d2f1_a9fb_e76d },
            Double { bits: 0x3fd4_bc6a_7ef9_db23 },
            Double { bits: 0x3fd1_78d4_fdf3_b646 },
        ]
        // 0.355, 0.305
        &&& self.gamma_interlayer_r_to_gb@ == seq![
            Double { bits: 0x3fd6_b851_eb85_1eb8 },
            Double { bits: 0x3fd3_851e_b851_eb85 },
        ]
        // 0.154, 0.358
        &&& self.gamma_interlayer_g_to_rb@ == seq![
            Double { bits: 0x3fc3_b645_a1ca_c083 },
            Double { bits: 0x3fd6_e978_d4fd_f3b6 },
        ]
        // 0.171, 0.225
        &&& self.gamma_interlayer_b_to_rg@ == seq![
            Double { bits: 0x3fc5_e353_f7ce_d917 },
            Double { bits: 0x3fcc_cccc_cccc_cccd },
        ]
        // 20.0
        &&& self.diffusion_size_um == (Double { bits: 0x4034_0000_0000_0000 })
        // 200.0
        &&& self.diffusion_tail_um == (Double { bits: 0x4069_0000_0000_0000 })
        // 0.06
        &&& self.diffusion_tail_weight == (Double { bits: 0x3fae_b851_eb85_1eb8 })
    }
}

impl Default for DirCouplersParams {
    fn default() -> (r: DirCouplersParams)
        ensures
            r.is_default(),
    {
        let r = DirCouplersParams {
            active: true,
            amount: Double { bits: 0x3ff0_0000_0000_0000 },
            inhibition_samelayer: Double { bits: 0x3ff0_0000_0000_0000 },
            inhibition_interlayer: Double { bits: 0x3ff0_0000_0000_0000 },
            gamma_samelayer_rgb: [
                Double { bits: 0x3fd5_d2f1_a9fb_e76d },
                Double { bits: 0x3fd4_bc6a_7ef9_db23 },
                Double { bits: 0x3fd1_78d4_fdf3_b646 },
            ],
            gamma_interlayer_r_to_gb: [
                Double { bits: 0x3fd6_b851_eb85_1eb8 },
                Double { bits: 0x3fd3_851e_b851_eb85 },
            ],
            gamma_interlayer_g_to_rb: [
                Double { bits: 0x3fc3_b645_a1ca_c083 },
                Double { bits: 0x3fd6_e978_d4fd_f3b6 },
            ],
            gamma_interlayer_b_to_rg: [
                Double { bits: 0x3fc5_e353_f7ce_d917 },
                Double { bits: 0x3fcc_cccc_cccc_cccd },
            ],
            diffusion_size_um: Double { bits: 0x4034_0000_0000_0000 },
            diffusion_tail_um: Double { bits: 0x4069_0000_0000_0000 },
            diffusion_tail_weight: Double { bits: 0x3fae_b851_eb85_1eb8 },
        };
        assert(r.gamma_samelayer_rgb@ =~= seq![
            Double { bits: 0x3fd5_d2f1_a9fb_e76d },
            Double { bits: 0x3fd4_bc6a_7ef9_db23 },
            Double { bits: 0x3fd1_78d4_fdf3_b646 },
        ]);
        assert(r.gamma_interlayer_r_to_gb@ =~= seq![
            Double { bits: 0x3fd6_b851_eb85_1eb8 },
            Double { bits: 0x3fd3_851e_b851_eb85 },
        ]);
        assert(r.gamma_interlayer_g_to_rb@ =~= seq![
            Double { bits: 0x3fc3_b645_a1ca_c083 },
            Double { bits: 0x3fd6_e978_d4fd_f3b6 },
        ]);
        assert(r.gamma_interlayer_b_to_rg@ =~= seq![
            Double { bits: 0x3fc5_e353_f7ce_d917 },
            Double { bits: 0x3fcc_cccc_cccc_cccd },
        ]);
        r
    }
}

/// Viewing glare.
#[derive(Clone)]
pub struct GlareParams {
    pub active: bool,
    pub percent: Single,
    pub roughness: Single,
    pub blur: Single,
}

impl GlareParams {
    /// Every parameter has its default.
    pub open spec fn is_default(&self) -> bool {
        &&& self.active
        // 0.03
        &&& self.percent == (Single { bits: 0x3cf5_c28f })
        // 0.7
        &&& self.roughness == (Single { bits: 0x3f33_3333 })
        // 0.5
        &&& self.blur == (Single { bits: 0x3f00_0000 })
    }
}

impl Default for GlareParams {
    fn default() -> (r: GlareParams)
        ensures
            r.is_default(),
    {
        let r = GlareParams {
            active: true,
            percent: Single { bits: 0x3cf5_c28f },
            roughness: Single { bits: 0x3f33_3333 },
            blur: Single { bits: 0x3f00_0000 },
        };
        r
    }
}

/// Rendering of the film.
#[derive(Clone)]
pub struct FilmRenderingParams {
    pub density_curve_gamma: Single,
    pub grain: GrainParams,
    pub halation: HalationParams,
    pub dir_couplers: DirCouplersParams,
    pub glare: GlareParams,
}

impl FilmRenderingParams {
    /// Every parameter has its default.
    pub open spec fn is_default(&self) -> bool {
        // 1.0
        &&& self.density_curve_gamma == (Single { bits: 0x3f80_0000 })
        &&& self.grain.is_default()
        &&& self.halation.is_default()
        &&& self.dir_couplers.is_default()
        &&& self.glare.is_default()
    }
}

impl Default for FilmRenderingParams {
    fn default() -> (r: FilmRenderingParams)
        ensures
            r.is_default(),
    {
        let r = FilmRenderingParams {
            density_curve_gamma: Single { bits: 0x3f80_0000 },
            grain: GrainParams::default(),
            halation: HalationParams::default(),
            dir_couplers: DirCouplersParams::default(),
            glare: GlareParams::default(),
        };
        r
    }
}

/// Rendering of the print.
#[derive(Clone)]
pub struct PrintRenderingParams {
    pub density_curve_gamma: Single,
    pub glare: GlareParams,
}

impl PrintRenderingParams {
    /// Every parameter has its default.
    pub open spec fn is_default(&self) -> bool {
        // 1.0
        &&& self.density_curve_gamma == (Single { bits: 0x3f80_0000 })
        &&& self.glare.is_default()
    }
}

impl Default for PrintRenderingParams {
    fn default() -> (r: PrintRenderingParams)
        ensures
            r.is_default(),
    {
        let r = PrintRenderingParams {
            density_curve_gamma: Single { bits: 0x3f80_0000 },
            glare: GlareParams::default(),
        };
        r
    }
}

/// Colour spaces and geometry of input and output.
#[derive(Clone)]
pub struct IoParams {
    pub input_color_space: String,
    pub input_cctf_decoding: bool,
    pub output_color_space: String,
    pub output_cctf_encoding: bool,
    pub crop: bool,
    pub crop_center: [Single; 2],
    pub crop_size: [Single; 2],
    pub upscale_factor: Single,
    pub scan_film: bool,
}

impl IoParams {
    /// Every parameter has its default.
    pub open spec fn is_default(&self) -> bool {
        &&& self.input_color_space@ == "ProPhoto RGB"@
        &&& !self.input_cctf_decoding
        &&& self.output_color_space@ == "sRGB"@
        &&& self.output_cctf_encoding
        &&& !self.crop
        // 0.5, 0.5
        &&& self.crop_center@ == seq![
            Single { bits: 0x3f00_0000 },
            Single { bits: 0x3f00_0000 },
        ]
        // 0.1, 0.1
        &&& self.crop_size@ == seq![
            Single { bits: 0x3dcc_cccd },
            Single { bits: 0x3dcc_cccd },
        ]
        // 1.0
        &&& self.upscale_factor == (Single { bits: 0x3f80_0000 })
        &&& !self.scan_film
    }
}

impl Default for IoParams {
    fn default() -> (r: IoParams)
        ensures
            r.is_default(),
    {
        let r = IoParams {
            input_color_space: default_prophoto(),
            input_cctf_decoding: false,
            output_color_space: default_srgb(),
            output_cctf_encoding: true,
            crop: false,
            crop_center: [
                Single { bits: 0x3f00_0000 },
                Single { bits: 0x3f00_0000 },
            ],
            crop_size: [
                Single { bits: 0x3dcc_cccd },
                Single { bits: 0x3dcc_cccd },
            ],
            upscale_factor: Single { bits: 0x3f80_0000 },
            scan_film: false,
        };
        assert(r.crop_center@ =~= seq![
            Single { bits: 0x3f00_0000 },
            Single { bits: 0x3f00_0000 },
        ]);
        assert(r.crop_size@ =~= seq![
            Single { bits: 0x3dcc_cccd },
            Single { bits: 0x3dcc_cccd },
        ]);
        r
    }
}

/// Switches of the simulation.
#[derive(Clone)]
pub struct SettingsParams {
    pub rgb_to_raw_method: String,
    pub apply_hanatos2025_adaptation_window: bool,
    pub apply_hanatos2025_adaptation_surface: bool,
    pub spectral_gaussian_blur: Single,
    pub use_enlarger_lut: bool,
    pub use_scanner_lut: bool,
    pub lut_resolution: u32,
    pub use_fast_stats: bool,
    pub preview_max_size: u32,
    pub preview_mode: bool,
    pub neutral_print_filters_from_database: bool,
}

impl SettingsParams {
    /// Every parameter has its default.
    pub open spec fn is_default(&self) -> bool {
        &&& self.rgb_to_raw_method@ == "hanatos2025"@
        &&& self.apply_hanatos2025_adaptation_window
        &&& !self.apply_hanatos2025_adaptation_surface
        // 0.0
        &&& self.spectral_gaussian_blur == (Single { bits: 0 })
        &&& !self.use_enlarger_lut
        &&& !self.use_scanner_lut
        &&& self.lut_resolution == 17
        &&& !self.use_fast_stats
        &&& self.preview_max_size == 640
        &&& !self.preview_mode
        &&& self.neutral_print_filters_from_database
    }
}

impl Default for SettingsParams {
    fn default() -> (r: SettingsParams)
        ensures
            r.is_default(),
    {
        let r = SettingsParams {
            rgb_to_raw_method: default_hanatos(),
            apply_hanatos2025_adaptation_window: true,
            apply_hanatos2025_adaptation_surface: false,
            spectral_gaussian_blur: Single { bits: 0 },
            use_enlarger_lut: false,
            use_scanner_lut: false,
            lut_resolution: default_17(),
            use_fast_stats: false,
            preview_max_size: default_640(),
            preview_mode: false,
            neutral_print_filters_from_database: true,
        };
        r
    }
}

/// All the parameters of a render.
#[derive(Clone)]
pub struct RuntimeParams {
    pub camera: CameraParams,
    pub enlarger: EnlargerParams,
    pub scanner: ScannerParams,
    pub film_render: FilmRenderingParams,
    pub print_render: PrintRenderingParams,
    pub io: IoParams,
    pub settings: SettingsParams,
}

impl RuntimeParams {
    /// Every parameter has its default.
    pub open spec fn is_default(&self) -> bool {
        &&& self.camera.is_default()
        &&& self.enlarger.is_default()
        &&& self.scanner.is_default()
        &&& self.film_render.is_default()
        &&& self.print_render.is_default()
        &&& self.io.is_default()
        &&& self.settings.is_default()
    }
}

impl Default for RuntimeParams {
    fn default() -> (r: RuntimeParams)
        ensures
            r.is_default(),
    {
        let r = RuntimeParams {
            camera: CameraParams::default(),
            enlarger: EnlargerParams::default(),
            scanner: ScannerParams::default(),
            film_render: FilmRenderingParams::default(),
            print_render: PrintRenderingParams::default(),
            io: IoParams::default(),
            settings: SettingsParams::default(),
        };
        r
    }
}

// ── Defaults of single parameters ────────────────────────────────────────

/// The default diffusion filter.
pub fn default_bpm() -> (r: String)
    ensures
        r@ == "black_pro_mist"@,
{
    "black_pro_mist".to_owned()
}

/// The default metering.
pub fn default_center_weighted() -> (r: String)
    ensures
        r@ == "center_weighted"@,
{
    "center_weighted".to_owned()
}

/// The default enlarger lamp.
pub fn default_th_kg3() -> (r: String)
    ensures
        r@ == "TH-KG3"@,
{
    "TH-KG3".to_owned()
}

/// The default input colour space.
pub fn default_prophoto() -> (r: String)
    ensures
        r@ == "ProPhoto RGB"@,
{
    "ProPhoto RGB".to_owned()
}

/// The default output colour space.
pub fn default_srgb() -> (r: String)
    ensures
        r@ == "sRGB"@,
{
    "sRGB".to_owned()
}

/// The default way from RGB to exposure.
pub fn default_hanatos() -> (r: String)
    ensures
        r@ == "hanatos2025"@,
{
    "hanatos2025".to_owned()
}

/// Sub-layers of the grain, unless given.
pub fn default_1i() -> (r: u32)
    ensures
        r == 1,
{
    1
}

/// Bounces of the halation, unless given.
pub fn default_3i() -> (r: u32)
    ensures
        r == 3,
{
    3
}

/// Edge of the colour tables, unless given.
pub fn default_17() -> (r: u32)
    ensures
        r == 17,
{
    17
}

/// Edge of a preview, unless given.
pub fn default_640() -> (r: u32)
    ensures
        r == 640,
{
    640
}

/// A switch that is on unless given.
pub fn default_true() -> (r: bool)
    ensures
        r,
{
    true
}

} // verus!
