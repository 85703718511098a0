//! The wavelength grid, the observer and the illuminants, and the names that
//! select them.

use vstd::prelude::*;

use crate::bits::{Double, Single};
use crate::lut::as_unsigned;
use crate::npy::le32;
use crate::text::same;

verus! {

/// First wavelength of the grid, in nanometres.
pub const WAVELENGTH_MIN: u32 = 380;

/// Last wavelength of the grid, in nanometres.
pub const WAVELENGTH_MAX: u32 = 780;

/// Distance between wavelengths, in nanometres.
pub const WAVELENGTH_STEP: u32 = 5;

/// Wavelengths of the grid.
pub const N_WAVELENGTHS: usize = 81;

/// Colour matching function x.
pub const CMF_X: [u32; 81] = [
    0x3ab3_4e77, 0x3b12_89db, 0x3b8b_08dd, 0x3bfa_acda, 0x3c6a_747e, 0x3cbd_f8f4,
    0x3d32_378b, 0x3d9e_fc7a, 0x3e09_9ae9, 0x3e5b_ecab, 0x3e91_5b57, 0x3ea8_3127,
    0x3eb2_51c2, 0x3eb2_34ec, 0x3eac_2268, 0x3ea3_2ca5, 0x3e94_e3bd, 0x3e80_902e,
    0x3e48_0c74, 0x3e11_82aa, 0x3dc3_dee8, 0x3d6d_9be5, 0x3d03_1ceb, 0x3c70_d845,
    0x3ba0_902e, 0x3b1d_4952, 0x3c18_5f07, 0x3cee_6320, 0x3d81_93b4, 0x3de0_75f7,
    0x3e29_78d5, 0x3e67_2b02, 0x3e94_af4f, 0x3eb8_2a99, 0x3edd_ed29, 0x3f03_15b5,
    0x3f18_3127, 0x3f2d_ab9f, 0x3f43_18fc, 0x3f57_ae14, 0x3f6a_92a3, 0x3f7a_8588,
    0x3f83_5dcc, 0x3f87_41f2, 0x3f87_f62b, 0x3f85_d639, 0x3f80_5532, 0x3f70_3afb,
    0x3f5a_bd3c, 0x3f40_5bc0, 0x3f24_7454, 0x3f0a_b9f5, 0x3ee5_5326, 0x3eb8_bac7,
    0x3e91_26e9, 0x3e5f_f2e5, 0x3e28_db8c, 0x3df8_37b5, 0x3db2_fec5, 0x3d82_40b8,
    0x3d3f_91e6, 0x3d06_c227, 0x3cb9_f55a, 0x3c81_c2e3, 0x3c3a_1b19, 0x3c04_e400,
    0x3bbd_ba0a, 0x3b86_a4ca, 0x3b3d_fd26, 0x3b06_4884, 0x3abc_be62, 0x3a83_126f,
    0x3a34_e11e, 0x39f9_8fa3, 0x39ae_1049, 0x3976_6a55, 0x392e_1049, 0x38f5_5de6,
    0x38ae_1049, 0x3877_76c5, 0x3830_2928,
];

/// Colour matching function y.
pub const CMF_Y: [u32; 81] = [
    0x3823_93ee, 0x3886_37bd, 0x38fb_a882, 0x3963_8a7e, 0x39cf_9e38, 0x3a27_c5ac,
    0x3a9e_98dd, 0x3b0e_de55, 0x3b83_126f, 0x3bef_34d7, 0x3c3e_0ded, 0x3c89_f40a,
    0x3cbc_6a7f, 0x3cf4_1f21, 0x3d1b_a5e3, 0x3d44_9ba6, 0x3d75_c28f, 0x3d97_58e2,
    0x3dba_53b9, 0x3de6_9ad4, 0x3e0e_5b42, 0x3e2d_5cfb, 0x3e55_0332, 0x3e84_6738,
    0x3ea5_6042, 0x3ed0_89a0, 0x3f00_c49c, 0x3f1b_b2ff, 0x3f35_c28f, 0x3f4b_0f28,
    0x3f5c_ac08, 0x3f6a_339c, 0x3f74_3958, 0x3f7a_f4f1, 0x3f7e_b50b, 0x3f80_0000,
    0x3f7e_b852, 0x3f7a_8588, 0x3f73_b646, 0x3f6a_57a8, 0x3f5e_b852, 0x3f50_f909,
    0x3f41_cac1, 0x3f31_e4f7, 0x3f21_8937, 0x3f11_19ce, 0x3f00_c49c, 0x3ee1_e4f7,
    0x3ec3_126f, 0x3ea4_5a1d, 0x3e87_ae14, 0x3e5e_353f, 0x3e33_3333, 0x3e0d_844d,
    0x3ddb_22d1, 0x3da7_1de7, 0x3d79_db23, 0x3d36_9985, 0x3d03_126f, 0x3cbe_0ded,
    0x3c8b_4396, 0x3c43_4c1b, 0x3c06_833c, 0x3bbb_8801, 0x3b86_6a12, 0x3b3f_f477,
    0x3b09_0929, 0x3ac2_82c7, 0x3a89_3b7e, 0x3a41_fc8f, 0x3a08_509c, 0x39bd_449a,
    0x3982_8c37, 0x3934_5ae6, 0x38fb_a882, 0x38b2_4207, 0x387b_a882, 0x3830_2928,
    0x37fb_a882, 0x37b0_2928, 0x377b_a882,
];

/// Colour matching function z.
pub const CMF_Z: [u32; 81] = [
    0x3bd3_5a86, 0x3c2c_d9e8, 0x3ca4_3fe6, 0x3d14_50f0, 0x3d8a_f4f1, 0x3de1_b08a,
    0x3e54_60aa, 0x3ebe_1b09, 0x3f25_460b, 0x3f84_ff97, 0x3fb1_5b57, 0x3fcf_bd27,
    0x3fdf_9fa9, 0x3fe4_2c3d, 0x3fe2_d480, 0x3fdf_3eab, 0x3fd5_a858, 0x3fc3_98c8,
    0x3fa4_d163, 0x3f85_5cfb, 0x3f50_1d7e, 0x3f1d_bf48, 0x3eee_2c13, 0x3eb4_e3bd,
    0x3e8b_4396, 0x3e59_652c, 0x3e21_ff2e, 0x3de4_c2f8, 0x3da0_4189, 0x3d6a_7efa,
    0x3d2c_aff7, 0x3cf4_7304, 0x3ca6_4c30, 0x3c5b_8bac, 0x3c0f_5c29, 0x3bbc_6a7f,
    0x3b7f_9724, 0x3b34_3958, 0x3b09_a027, 0x3aeb_edfa, 0x3ad8_44d0, 0x3ab7_8034,
    0x3a90_2de0, 0x3a83_126f, 0x3a51_b717, 0x3a1d_4952, 0x39b2_4207, 0x397b_a882,
    0x3947_3abd, 0x38d1_b717, 0x3851_b717, 0x37fb_a882, 0x37a7_c5ac, 0x3727_c5ac,
    0x0000_0000, 0x0000_0000, 0x0000_0000, 0x0000_0000, 0x0000_0000, 0x0000_0000,
    0x0000_0000, 0x0000_0000, 0x0000_0000, 0x0000_0000, 0x0000_0000, 0x0000_0000,
    0x0000_0000, 0x0000_0000, 0x0000_0000, 0x0000_0000, 0x0000_0000, 0x0000_0000,
    0x0000_0000, 0x0000_0000, 0x0000_0000, 0x0000_0000, 0x0000_0000, 0x0000_0000,
    0x0000_0000, 0x0000_0000, 0x0000_0000,
];

/// Power of illuminant D50 at each wavelength.
pub const ILLUMINANT_D50: [u32; 81] = [
    0x3e91_ecb5, 0x3ea1_f5dc, 0x3eb2_0088, 0x3eeb_e972, 0x3f12_e9f1, 0x3f1d_a563,
    0x3f28_6198, 0x3f2d_a00b, 0x3f32_df42, 0x3f2f_9220, 0x3f2c_44fe, 0x3f45_9ab3,
    0x3f5e_f12c, 0x3f71_72a5, 0x3f81_fa0f, 0x3f84_7beb, 0x3f86_fd65, 0x3f87_8d8f,
    0x3f88_1db8, 0x3f8a_e6e5, 0x3f8d_b074, 0x3f8b_588b, 0x3f89_00a3, 0x3f8b_cda1,
    0x3f8e_9b00, 0x3f8f_44b6, 0x3f8f_ee0b, 0x3f90_5070, 0x3f90_b2d6, 0x3f94_668f,
    0x3f98_1a48, 0x3f97_19ff, 0x3f96_19b6, 0x3f97_4391, 0x3f98_6d6c, 0x3f96_b3c9,
    0x3f94_f9c5, 0x3f93_4a0d, 0x3f91_99f3, 0x3f92_7bba, 0x3f93_5d1e, 0x3f8f_5396,
    0x3f8b_4a6f, 0x3f8e_690a, 0x3f91_8806, 0x3f92_b550, 0x3f93_e2fc, 0x3f93_b781,
    0x3f93_8c69, 0x3f91_1353, 0x3f8e_9a3c, 0x3f90_f03c, 0x3f93_45db, 0x3f90_e58f,
    0x3f8e_8543, 0x3f90_668f, 0x3f92_477a, 0x3f95_dd74, 0x3f99_730c, 0x3f96_9115,
    0x3f93_af1d, 0x3f8a_ee24, 0x3f82_2d2a, 0x3f85_5241, 0x3f88_77b9, 0x3f89_6c91,
    0x3f8a_61cb, 0x3f7c_e093, 0x3f64_fcce, 0x3f73_6026, 0x3f80_e15e, 0x3f85_66d9,
    0x3f89_ebf3, 0x3f7e_7720, 0x3f69_165b, 0x3f4a_7d9f, 0x3f2b_e4e2, 0x3f51_7b0b,
    0x3f77_11f7, 0x3f70_2552, 0x3f69_37ea,
];

/// Power of illuminant D55 at each wavelength.
pub const ILLUMINANT_D55: [u32; 81] = [
    0x3ec2_3156, 0x3ed2_9688, 0x3ee2_fd41, 0x3f13_8ec0, 0x3f35_9ee1, 0x3f40_f33b,
    0x3f4c_4858, 0x3f50_c902, 0x3f55_4a6f, 0x3f4f_d5a9, 0x3f4a_601f, 0x3f64_bc48,
    0x3f7f_17ae, 0x3f88_c662, 0x3f92_00ed, 0x3f93_d7fc, 0x3f95_af0b, 0x3f95_4627,
    0x3f94_dd43, 0x3f96_f837, 0x3f99_132b, 0x3f95_9a73, 0x3f92_2159, 0x3f94_1194,
    0x3f96_01d0, 0x3f96_04dd, 0x3f96_0789, 0x3f95_8083, 0x3f94_f97c, 0x3f98_1eac,
    0x3f9b_443e, 0x3f99_b238, 0x3f98_2033, 0x3f98_c55b, 0x3f99_6a83, 0x3f97_347b,
    0x3f94_fe72, 0x3f92_eb81, 0x3f90_d88f, 0x3f91_3e05, 0x3f91_a3dc, 0x3f8c_eef0,
    0x3f88_3a66, 0x3f8a_7440, 0x3f8c_adb7, 0x3f8d_3769, 0x3f8d_c0b9, 0x3f8d_1144,
    0x3f8c_61d0, 0x3f89_9272, 0x3f86_c314, 0x3f88_2a00, 0x3f89_90eb, 0x3f86_fa01,
    0x3f84_6316, 0x3f85_7a4a, 0x3f86_911d, 0x3f89_45c7, 0x3f8b_fad4, 0x3f89_011f,
    0x3f86_076b, 0x3f7c_be8e, 0x3f6d_6d83, 0x3f72_2393, 0x3f76_da67, 0x3f79_d6c7,
    0x3f7c_d327, 0x3f67_0e8a, 0x3f51_4ab1, 0x3f5e_ccb0, 0x3f6c_4eae, 0x3f74_c9bf,
    0x3f7d_44d1, 0x3f69_bb94, 0x3f56_3194, 0x3f39_c1b6, 0x3f1d_5115, 0x3f3f_c8f4,
    0x3f62_40d4, 0x3f5c_212c, 0x3f56_0248,
];

/// Power of illuminant D65 at each wavelength.
pub const ILLUMINANT_D65: [u32; 81] = [
    0x3f12_1b3a, 0x3f18_efc9, 0x3f1f_c46c, 0x3f48_da5a, 0x3f71_f05b, 0x3f7e_b3a2,
    0x3f85_bb7e, 0x3f87_2791, 0x3f88_93a4, 0x3f83_a4bd, 0x3f7d_6bbe, 0x3f8b_fffb,
    0x3f99_4a1f, 0x3fa2_29fc, 0x3fab_0a39, 0x3fab_a0a8, 0x3fac_3718, 0x3faa_0ec0,
    0x3fa7_e6c8, 0x3fa8_ad7e, 0x3fa9_7433, 0x3fa4_417d, 0x3f9f_0ec7, 0x3f9f_7431,
    0x3f9f_d9fa, 0x3f9e_b796, 0x3f9d_9532, 0x3f9b_61a0, 0x3f99_2e0e, 0x3f9b_4c4c,
    0x3f9d_6ae8, 0x3f9b_0472, 0x3f98_9dfc, 0x3f98_5aa0, 0x3f98_17a4, 0x3f95_229a,
    0x3f92_2d90, 0x3f8f_7faa, 0x3f8c_d1c4, 0x3f8c_6b91, 0x3f8c_055e, 0x3f86_d474,
    0x3f81_a38a, 0x3f82_9aa2, 0x3f83_91ba, 0x3f83_4589, 0x3f82_f962, 0x3f81_95ce,
    0x3f80_323a, 0x3f79_f216, 0x3f73_7fcb, 0x3f74_1972, 0x3f74_b319, 0x3f6f_54d4,
    0x3f69_f68f, 0x3f6a_3cd6, 0x3f6a_831e, 0x3f6d_8732, 0x3f70_8b47, 0x3f6a_b4d0,
    0x3f64_de58, 0x3f58_59ef, 0x3f4b_d59a, 0x3f4e_980c, 0x3f51_5a7d, 0x3f55_5bc4,
    0x3f59_5d1e, 0x3f46_bbbd, 0x3f34_1a5c, 0x3f40_3577, 0x3f4c_5092, 0x3f53_eb04,
    0x3f5b_8575, 0x3f4a_b813, 0x3f39_eac4, 0x3f20_cfc3, 0x3f07_b4d5, 0x3f25_820b,
    0x3f43_4f40, 0x3f3e_4e76, 0x3f39_4dab,
];

/// The x response in double precision, by encodings.
pub const CMF_X_F64: [u64; 81] = [
    0x3f56_69ce_d0b3_0b56, 0x3f62_513b_5bf6_a0e4, 0x3f71_611b_a3ca_74fe,
    0x3f7f_559b_3d07_c856, 0x3f8d_4e8f_b00b_cbef, 0x3f97_bf1e_8e60_8070,
    0x3fa6_46f1_5619_1152, 0x3fb3_df8f_4730_4043, 0x3fc1_335d_249e_44f9,
    0x3fcb_7d95_5714_b9c7, 0x3fd2_2b6a_e7d5_66ca, 0x3fd5_0624_dd2f_1a9f,
    0x3fd6_4a38_3276_74dd, 0x3fd6_469d_7342_edb4, 0x3fd5_844d_013a_92a3,
    0x3fd4_6594_af4f_0d86, 0x3fd2_9c77_9a6b_50b3, 0x3fd0_1205_bc01_a36b,
    0x3fc9_018e_7579_28e2, 0x3fc2_3055_3261_7c1b, 0x3fb8_7bdc_f030_7f2e,
    0x3fad_ab9f_ab81_7896, 0x3fa0_639d_5e4a_3835, 0x3f8e_1b08_9a02_7536,
    0x3f74_1205_bc01_a378, 0x3f63_a92a_3055_325e, 0x3f83_0be0_ded2_88c7,
    0x3f9d_cc63_f141_205a, 0x3fb0_3276_74d1_6332, 0x3fbc_0ebe_dfa4_3fe6,
    0x3fc5_2f1a_9fbe_76cb, 0x3fcc_e55f_6ac9_a272, 0x3fd2_95e9_e1b0_89a2,
    0x3fd7_0553_2617_c1b0, 0x3fdb_bda4_a63d_1613, 0x3fe0_62b6_e42d_3b9d,
    0x3fe3_0624_dd2f_1aa1, 0x3fe5_b573_eab3_67b2, 0x3fe8_631f_8a09_02d2,
    0x3fea_f5c2_8f5c_28fc, 0x3fed_5254_60aa_64c8, 0x3fef_50b0_f27b_b2fd,
    0x3ff0_6bb9_8c7e_2825, 0x3ff0_e83e_425a_ee66, 0x3ff0_fec5_6d5c_fab2,
    0x3ff0_bac7_10cb_2959, 0x3ff0_0aa6_4c2f_8380, 0x3fee_075f_6fd2_1ff1,
    0x3feb_57a7_5112_4153, 0x3fe8_0b78_0346_dc5f, 0x3fe4_8e8a_71de_69ae,
    0x3fe1_573e_ab36_7a0e, 0x3fdc_aa64_c2f8_37b7, 0x3fd7_1758_e219_6524,
    0x3fd2_24dd_2f1a_9fb9, 0x3fcb_fe5c_91d1_4e3b, 0x3fc5_1b71_758e_21a0,
    0x3fbf_06f6_9446_7386, 0x3fb6_5fd8_adab_9f58, 0x3fb0_4816_f006_8db5,
    0x3fa7_f23c_c8de_2ad1, 0x3fa0_d844_d013_a92b, 0x3f97_3eab_367a_0f96,
    0x3f90_385c_67df_e326, 0x3f87_4378_a5ae_24ed, 0x3f80_9c74_b7af_50b7,
    0x3f77_b79e_2b3d_8a43, 0x3f70_d513_f6b5_8717, 0x3f67_c054_54a7_327a,
    0x3f60_c976_8110_b6ac, 0x3f57_97ad_168a_4143, 0x3f50_6217_62a2_558a,
    0x3f46_9ccc_8263_c2cb, 0x3f3f_324f_ea6b_46b1, 0x3f35_c716_5b5f_6ce1,
    0x3f2e_c774_d6e9_1bb8, 0x3f25_c715_ed6b_ed80, 0x3f1e_c773_fb02_1cf3,
    0x3f15_c716_4561_ed0e, 0x3f0e_c774_aaee_1bee, 0x3f05_c35e_ad96_15fc,
];

/// The y response in double precision, by encodings.
pub const CMF_Y_F64: [u64; 81] = [
    0x3f04_727d_cbdd_b985, 0x3f10_c6f7_a0b5_ed8e, 0x3f1f_7510_4d55_1d7a,
    0x3f2c_714f_ce74_6cbd, 0x3f39_f3c7_0c99_6b70, 0x3f44_f8b5_88e3_68f6,
    0x3f53_d31b_9b66_f92d, 0x3f61_dbca_9691_a760, 0x3f70_624d_d2f1_a9fa,
    0x3f7d_e69a_d42c_3c9a, 0x3f87_c1bd_a511_9ce0, 0x3f91_3e81_450e_fdca,
    0x3f97_8d4f_df3b_644e, 0x3f9e_83e4_25ae_e631, 0x3fa3_74bc_6a7e_f9db,
    0x3fa8_9374_bc6a_7efa, 0x3fae_b851_eb85_1eb4, 0x3fb2_eb1c_432c_a57f,
    0x3fb7_4a77_1c97_0f82, 0x3fbc_d35a_8587_93da, 0x3fc1_cb68_48be_b5ad,
    0x3fc5_ab9f_559b_3d0c, 0x3fca_a066_3c74_fb5b, 0x3fd0_8ce7_03af_b7e5,
    0x3fd4_ac08_3126_e980, 0x3fda_1134_04ea_4a84, 0x3fe0_1893_74bc_6a7f,
    0x3fe3_765f_d8ad_ab9f, 0x3fe6_b851_eb85_1ea8, 0x3fe9_61e4_f765_fd84,
    0x3feb_9581_0624_dd3b, 0x3fed_4673_b787_c12d, 0x3fee_872b_020c_49c3,
    0x3fef_5e9e_1b08_99fc, 0x3fef_d6a1_9794_dc9b, 0x3ff0_0000_0000_0000,
    0x3fef_d70a_3d70_a3df, 0x3fef_50b0_f27b_b2f0, 0x3fee_76c8_b439_5807,
    0x3fed_4af4_f0d8_44db, 0x3feb_d70a_3d70_a3df, 0x3fea_1f21_2d77_3191,
    0x3fe8_3958_1062_4dd7, 0x3fe6_3c9e_ecbf_b159, 0x3fe4_3126_e978_d4ff,
    0x3fe2_2339_c0eb_edff, 0x3fe0_1893_74bc_6a81, 0x3fdc_3c9e_ecbf_b15c,
    0x3fd8_624d_d2f1_a9f5, 0x3fd4_8b43_9581_0620, 0x3fd0_f5c2_8f5c_28f8,
    0x3fcb_c6a7_ef9d_b23a, 0x3fc6_6666_6666_6667, 0x3fc1_b089_a027_5258,
    0x3fbb_645a_1cac_0837, 0x3fb4_e3bc_d35a_858e, 0x3faf_3b64_5a1c_ac00,
    0x3fa6_d330_941c_8214, 0x3fa0_624d_d2f1_a9f4, 0x3f97_c1bd_a511_9cdd,
    0x3f91_6872_b020_c49e, 0x3f88_6983_5158_b820, 0x3f80_d067_8c00_53de,
    0x3f77_7100_1d5c_3165, 0x3f70_cd42_3d92_31c4, 0x3f67_fe8e_e6b8_3068,
    0x3f61_2125_13b5_bf66, 0x3f58_5058_dde7_a743, 0x3f51_276f_b092_039f,
    0x3f48_3f91_e646_f148, 0x3f41_0a13_7f38_c54a, 0x3f37_aa40_b0ca_37c4,
    0x3f30_54e1_d9a4_4ba8, 0x3f26_8801_c1a1_1f8e, 0x3f1f_7510_4d55_1d62,
    0x3f16_3ad4_e824_412e, 0x3f0f_7510_4d55_1d72, 0x3f06_3ad4_e824_4124,
    0x3eff_7510_4d55_1d67, 0x3ef6_3ad4_e824_4129, 0x3eef_6fb1_e99c_9146,
];

/// The z response in double precision, by encodings.
pub const CMF_Z_F64: [u64; 81] = [
    0x3f7a_6b50_f5aa_ab59, 0x3f85_9b3b_b02f_5d2d, 0x3f94_87fd_64f0_19aa,
    0x3fa2_8a1d_fb93_89b8, 0x3fb1_5e9e_45fb_b7c6, 0x3fbc_3611_3404_ea49,
    0x3fca_8c15_4c98_5efd, 0x3fd7_c361_1340_4ea8, 0x3fe4_a8c1_54c9_85ef,
    0x3ff0_9ff2_ff66_7d0f, 0x3ff6_2b6a_e7d5_66cf, 0x3ff9_f7a4_e7ab_7567,
    0x3ffb_f3f5_2fc2_6562, 0x3ffc_8587_93dd_97e9, 0x3ffc_5a90_03ee_a204,
    0x3ffb_e7d5_66cf_41ef, 0x3ffa_b50b_0f27_bb34, 0x3ff8_7318_fc50_4813,
    0x3ff4_9a2c_6690_57d6, 0x3ff0_ab9f_559b_3d06, 0x3fea_03af_ed98_f52e,
    0x3fe3_b7e9_0ff9_724f, 0x3fdd_c582_55b0_35b1, 0x3fd6_9c77_9a6b_50ab,
    0x3fd1_6872_b020_c499, 0x3fcb_2ca5_7a78_6c28, 0x3fc4_3fe5_c91d_14e9,
    0x3fbc_985f_06f6_9444, 0x3fb4_0830_fbf6_5b19, 0x3fad_4fdf_914a_95ae,
    0x3fa5_95fe_da66_1288, 0x3f9e_8e60_8073_57e3, 0x3f94_c985_f06f_6937,
    0x3f8b_7175_8e21_9655, 0x3f81_eb84_fc5c_3a17, 0x3f77_8d4f_9a83_34be,
    0x3f6f_f2e4_8e8a_71d8, 0x3f66_872a_789b_ea7b, 0x3f61_3404_ea4a_8c13,
    0x3f5d_7dbf_487f_cb92, 0x3f5b_089b_1555_e3cd, 0x3f56_f006_8db8_bacb,
    0x3f52_05bc_01a3_6e2e, 0x3f50_624d_d2f1_a9fb, 0x3f4a_36e2_eb1c_4329,
    0x3f43_a92a_3055_3265, 0x3f36_4840_e171_9f7a, 0x3f2f_7510_4d55_1d75,
    0x3f28_e757_928e_0c9e, 0x3f1a_36e2_eb1c_4337, 0x3f0a_36e2_9326_43a8,
    0x3eff_7510_4d55_1d67, 0x3ef4_f8b5_88e3_68fa, 0x3ee4_f8b5_88e3_68f6,
    0xbb9c_0000_0000_0000, 0, 0,
    0, 0, 0,
    0, 0, 0,
    0, 0, 0,
    0, 0, 0,
    0, 0, 0,
    0, 0, 0,
    0, 0, 0,
    0, 0, 0,
];

/// Power of CIE D50 in double precision, by encodings.
pub const ILLUMINANT_D50_F64: [u64; 81] = [
    0x3fd2_3d96_a99a_2f1f, 0x3fd4_3ebb_7294_93f4, 0x3fd6_4011_0c8a_f965,
    0x3fdd_7d2e_4aca_107c, 0x3fe2_5d3e_2d02_9418, 0x3fe3_b4ac_69e2_db92,
    0x3fe5_0c33_0f41_235b, 0x3fe5_b401_7183_3aa1, 0x3fe6_5be8_3c43_5234,
    0x3fe5_f243_faea_013a, 0x3fe5_889f_b990_b03f, 0x3fe8_b356_6aac_ca46,
    0x3feb_de25_8446_e49b, 0x3fee_2e54_ad48_4590, 0x3ff0_3f41_eb24_d343,
    0x3ff0_8f7d_6552_d330, 0x3ff0_dfac_ab41_d2f6, 0x3ff0_f1b1_d048_0c71,
    0x3ff1_03b6_f54e_45ec, 0x3ff1_5cdc_9981_6249, 0x3ff1_b60e_71f3_7ecc,
    0x3ff1_6b11_6ad7_8f9a, 0x3ff1_2014_63bb_a066, 0x3ff1_79b4_1264_be49,
    0x3ff1_d35f_f54c_dc52, 0x3ff1_e896_c6d0_1ffd, 0x3ff1_fdc1_6414_6381,
    0x3ff2_0a0e_0b92_8abd, 0x3ff2_165a_b310_b1f9, 0x3ff2_8cd1_da9d_2bdb,
    0x3ff3_0349_0229_a5bd, 0x3ff2_e33f_dcc9_3f8d, 0x3ff2_c336_b768_d95c,
    0x3ff2_e872_1b9c_5020, 0x3ff3_0dad_7fcf_c6e3, 0x3ff2_d679_2ad5_16cc,
    0x3ff2_9f38_a19b_668d, 0x3ff2_6941_9b06_ba6a, 0x3ff2_333e_6033_0e1f,
    0x3ff2_4f77_31e3_6825, 0x3ff2_6ba3_cf54_c205, 0x3ff1_ea72_bc69_25eb,
    0x3ff1_694d_ddbc_89f9, 0x3ff1_cd21_390f_c866, 0x3ff2_3100_c8a2_06fa,
    0x3ff2_56aa_030c_7f1b, 0x3ff2_7c5f_71b5_f765, 0x3ff2_76f0_2da7_e60e,
    0x3ff2_718d_1dd8_d4e0, 0x3ff2_226a_5553_d872, 0x3ff1_d347_8cce_dc04,
    0x3ff2_1e07_8eaf_ca75, 0x3ff2_68bb_5c51_b8be, 0x3ff2_1cb1_d7cb_c632,
    0x3ff1_d0a8_5345_d3a7, 0x3ff2_0cd1_e1d8_938f, 0x3ff2_48ef_3c2c_5350,
    0x3ff2_bbae_7886_c155, 0x3ff3_2e61_80a2_2f34, 0x3ff2_d222_9870_08f5,
    0x3ff2_75e3_b03d_e2b6, 0x3ff1_5dc4_7a2e_652d, 0x3ff0_45a5_441e_e7a3,
    0x3ff0_aa48_17a1_28a6, 0x3ff1_0ef7_1f62_69cf, 0x3ff1_2d92_2560_cb6f,
    0x3ff1_4c39_5f9e_2d36, 0x3fef_9c12_6d54_d435, 0x3fec_9f99_b2ef_4db0,
    0x3fee_6c04_c3bb_0a56, 0x3ff0_1c2b_b604_6357, 0x3ff0_acdb_1ceb_30dc,
    0x3ff1_3d7e_4f92_fe3a, 0x3fef_cee3_fbab_7650, 0x3fed_22cb_5830_f02c,
    0x3fe9_4fb3_d1de_bd0c, 0x3fe5_7c9c_4b8c_89ed, 0x3fea_2f61_648d_868b,
    0x3fee_e23e_e60c_8375, 0x3fee_04aa_4e31_c0a9, 0x3fed_26fd_4dd8_fd8d,
];

/// Power of CIE D55 in double precision, by encodings.
pub const ILLUMINANT_D55_F64: [u64; 81] = [
    0x3fd8_462a_c64f_4ae2, 0x3fda_52d1_0095_2b80, 0x3fdc_5fa8_0d5f_36bb,
    0x3fe2_71d8_0c74_e590, 0x3fe6_b3dc_123a_2fc3, 0x3fe8_1e67_51aa_96f6,
    0x3fe9_890a_fa5d_1376, 0x3fea_1920_3f68_d25b, 0x3fea_a94d_edb6_a68f,
    0x3fe9_fab5_1610_4643, 0x3fe9_4c03_d527_d0ab, 0x3fec_9788_fea3_fb16,
    0x3fef_e2f5_bede_1032, 0x3ff1_18cc_3fe2_c3b8, 0x3ff2_401d_a056_7f56,
    0x3ff2_7aff_853c_e2c8, 0x3ff2_b5e1_6a23_463a, 0x3ff2_a8c4_e124_d4e1,
    0x3ff2_9ba8_5826_6387, 0x3ff2_df06_d506_2f0f, 0x3ff3_2265_51e5_fa99,
    0x3ff2_b34e_502b_0703, 0x3ff2_442b_19cf_08c6, 0x3ff2_8232_903a_2b43,
    0x3ff2_c03a_06a5_4dc1, 0x3ff2_c09b_abad_a2f8, 0x3ff2_c0f1_1c14_ed88,
    0x3ff2_b010_5564_32a9, 0x3ff2_9f2f_8eb3_77ca, 0x3ff3_03d5_8aaa_4e8c,
    0x3ff3_6887_bb42_2ff5, 0x3ff3_3647_0c38_548f, 0x3ff3_0406_5d2e_7928,
    0x3ff3_18ab_6191_7d8d, 0x3ff3_2d50_65f4_81f2, 0x3ff2_e68f_506a_c21b,
    0x3ff2_9fce_3ae1_0244, 0x3ff2_5d70_0f37_166e, 0x3ff2_1b11_e38d_2a97,
    0x3ff2_27c0_92e2_3c12, 0x3ff2_347b_76d8_5834, 0x3ff1_9dde_079d_e5f6,
    0x3ff1_074c_cd04_7e5e, 0x3ff1_4e87_f0d8_a8ba, 0x3ff1_95b6_e00b_c86f,
    0x3ff1_a6ed_1723_cde0, 0x3ff1_b817_199a_c8a9, 0x3ff1_a228_883b_a4a8,
    0x3ff1_8c39_f6dc_80a7, 0x3ff1_324e_3c70_06a3, 0x3ff0_d862_8203_8c9e,
    0x3ff1_053f_f5f7_b452, 0x3ff1_321d_69eb_dc07, 0x3ff0_df40_1c99_8a88,
    0x3ff0_8c62_cf47_390a, 0x3ff0_af49_4bc1_ae70, 0x3ff0_d223_939b_192e,
    0x3ff1_28b8_e9fe_a98c, 0x3ff1_7f5a_7503_4490, 0x3ff1_2023_e8c3_2c27,
    0x3ff0_c0ed_5c83_13bf, 0x3fef_97d1_bf74_7c5a, 0x3fed_adb0_5ca0_bbec,
    0x3fee_4472_69be_4e1e, 0x3fee_db4c_e01d_f5a0, 0x3fef_3ad8_dcc5_5899,
    0x3fef_9a64_d96c_bb92, 0x3fec_e1d1_4aba_cf2f, 0x3fea_2956_254a_f81a,
    0x3feb_d995_f46e_34ca, 0x3fed_89d5_c391_717a, 0x3fee_9937_f03a_49b4,
    0x3fef_a89a_1ce3_21ec, 0x3fed_3772_8489_8a81, 0x3fea_c632_82ed_ddc7,
    0x3fe7_3836_c485_b239, 0x3fe3_aa22_9cdb_715c, 0x3fe7_f91e_8dbc_0cf4,
    0x3fec_481a_7e9c_a88d, 0x3feb_8425_8d23_a414, 0x3fea_c049_04ec_b4e9,
];

/// Power of CIE D65 in double precision, by encodings.
pub const ILLUMINANT_D65_F64: [u64; 81] = [
    0x3fe2_4367_4414_85ee, 0x3fe3_1df9_2f73_f177, 0x3fe3_f88d_7ff0_c6fc,
    0x3fe9_1b4b_3bf7_450c, 0x3fee_3e0b_5d1b_2d1a, 0x3fef_d674_37ff_9aa9,
    0x3ff0_b76f_bc00_b91a, 0x3ff0_e4f2_1d6d_27a1, 0x3ff1_1274_7ed9_9628,
    0x3ff0_7497_9a0d_a69d, 0x3fef_ad77_cfa0_d820, 0x3ff1_7fff_5132_2e86,
    0x3ff3_2943_ed22_a5fa, 0x3ff4_453f_8be0_cc38, 0x3ff5_6147_2432_0462,
    0x3ff5_7415_0d24_2b44, 0x3ff5_86e2_f616_5225, 0x3ff5_41d8_0222_f510,
    0x3ff4_fcd9_07c2_a9e8, 0x3ff5_15af_b3d0_d971, 0x3ff5_2e86_5fdf_08fb,
    0x3ff4_882f_a0fa_0290, 0x3ff3_e1d8_e214_fc25, 0x3ff3_ee86_14c4_f683,
    0x3ff3_fb3f_4108_02d0, 0x3ff3_d6f2_bb39_ab06, 0x3ff3_b2a6_356b_533c,
    0x3ff3_6c34_023b_dc53, 0x3ff3_25c1_cf0c_656a, 0x3ff3_6989_707c_de74,
    0x3ff3_ad5d_0b80_696b, 0x3ff3_608e_422f_6c5c, 0x3ff3_13bf_78de_6f4d,
    0x3ff3_0b53_fd75_d456, 0x3ff3_02f4_7ba0_4b4e, 0x3ff2_a453_426d_9fd7,
    0x3ff2_45b2_093a_f461, 0x3ff1_eff5_3dbe_4c26, 0x3ff1_9a38_7241_a3eb,
    0x3ff1_8d72_19dc_d0b3, 0x3ff1_80ab_c177_fd7b, 0x3ff0_da8e_7d54_e6b8,
    0x3ff0_3471_3931_cff3, 0x3ff0_5354_4008_271f, 0x3ff0_7237_46de_7e4b,
    0x3ff0_68b1_2fe7_090a, 0x3ff0_5f2c_4b7e_48c9, 0x3ff0_32b9_be9c_579c,
    0x3ff0_0647_31ba_6671, 0x3fef_3e42_aed4_8e56, 0x3fee_6ff9_5f51_b9c8,
    0x3fee_832e_4434_ae0a, 0x3fee_9663_2917_a24c, 0x3fed_ea9a_8953_a850,
    0x3fed_3ed1_e98f_ae53, 0x3fed_479a_cc73_6eb9, 0x3fed_5063_af57_2f1f,
    0x3fed_b0e6_4ca2_11ab, 0x3fee_1168_e9ec_f438, 0x3fed_5699_f3a2_1580,
    0x3fec_9bca_fd57_36c8, 0x3feb_0b3d_eaf6_8d0e, 0x3fe9_7ab3_3db3_4d4f,
    0x3fe9_d301_753a_1a90, 0x3fea_2b4f_acc0_e7d1, 0x3fea_ab78_81bf_5f5b,
    0x3feb_2ba3_bbdb_40e2, 0x3fe8_d777_a0f3_ba15, 0x3fe6_834b_860c_3348,
    0x3fe8_06ae_dbc3_5b65, 0x3fe9_8a12_317a_8381, 0x3fea_7d60_70a4_90bc,
    0x3feb_70ae_afce_9df8, 0x3fe9_5702_645c_de93, 0x3fe7_3d58_7e08_892c,
    0x3fe4_19f8_5e5b_9b3d, 0x3fe0_f69a_a3cc_1749, 0x3fe4_b041_5416_3284,
    0x3fe8_69e8_0460_4dbf, 0x3fe7_c9ce_b91e_6ba9, 0x3fe7_29b5_6ddc_8995,
];

/// A wavelength of the grid, in nanometres.
pub fn wavelength(i: usize) -> (r: u32)
    requires
        i < N_WAVELENGTHS,
    ensures
        r == WAVELENGTH_MIN + i * WAVELENGTH_STEP,
        WAVELENGTH_MIN <= r <= WAVELENGTH_MAX,
        i == 0 ==> r == WAVELENGTH_MIN,
        i == N_WAVELENGTHS - 1 ==> r == WAVELENGTH_MAX,
{
    WAVELENGTH_MIN + (i as u32) * WAVELENGTH_STEP
}

/// The numbers of a table of encodings.
pub open spec fn decodes_table(bits: [u64; 81], r: Seq<Double>) -> bool {
    r.len() == 81 && forall|i: int| 0 <= i < 81 ==> (#[trigger] r[i]).bits == bits@[i]
}

fn decode_table(bits: [u64; 81]) -> (r: Vec<Double>)
    ensures
        decodes_table(bits, r@),
{
    let mut r: Vec<Double> = Vec::new();
    let mut i: usize = 0;
    while i < 81
        invariant
            i <= 81,
            r@.len() == i,
            forall|k: int| 0 <= k < i ==> (#[trigger] r@[k]).bits == bits@[k],
        decreases 81 - i,
    {
        r.push(Double { bits: bits[i] });
        i += 1;
    }
    r
}

/// Response of the observer, in double precision.
#[verifier::opaque]
pub open spec fn response(c: int) -> Seq<Double> {
    Seq::new(81, |i: int| Double { bits: cmf_bits(c)@[i] })
}

/// Response of the observer, in single precision.
#[verifier::opaque]
pub open spec fn short_response(c: int) -> Seq<Single> {
    Seq::new(81, |i: int| Single { bits: short_cmf_bits(c)@[i] })
}

pub open spec fn short_cmf_bits(c: int) -> [u32; 81] {
    if c == 0 {
        CMF_X
    } else if c == 1 {
        CMF_Y
    } else {
        CMF_Z
    }
}

/// The x, y and z responses in single precision.
pub fn cmf(c: usize) -> (r: Vec<Single>)
    requires
        c < 3,
    ensures
        r@ == short_response(c as int),
        r@.len() == 81,
{
    let bits = if c == 0 {
        CMF_X
    } else if c == 1 {
        CMF_Y
    } else {
        CMF_Z
    };
    let mut r: Vec<Single> = Vec::new();
    let mut i: usize = 0;
    while i < 81
        invariant
            i <= 81,
            bits == short_cmf_bits(c as int),
            r@.len() == i,
            forall|k: int| 0 <= k < i ==> (#[trigger] r@[k]).bits == bits@[k],
        decreases 81 - i,
    {
        r.push(Single { bits: bits[i] });
        i += 1;
    }
    proof {
        reveal(short_response);
        assert(r@ =~= short_response(c as int));
    }
    r
}

/// The x, y and z responses in double precision.
pub fn cmf_f64(c: usize) -> (r: Vec<Double>)
    requires
        c < 3,
    ensures
        r@ == response(c as int),
        r@.len() == 81,
{
    let r = if c == 0 {
        decode_table(CMF_X_F64)
    } else if c == 1 {
        decode_table(CMF_Y_F64)
    } else {
        decode_table(CMF_Z_F64)
    };
    proof {
        reveal(response);
        assert(r@ =~= response(c as int));
    }
    r
}

pub open spec fn cmf_bits(c: int) -> [u64; 81] {
    if c == 0 {
        CMF_X_F64
    } else if c == 1 {
        CMF_Y_F64
    } else {
        CMF_Z_F64
    }
}

// ── Illuminants and colour spaces by name ────────────────────────────────

/// A standard illuminant.
#[derive(Clone, Copy, Debug, PartialEq, Eq, Structural)]
pub enum Illuminant {
    D50,
    D55,
    D65,
}

/// The illuminant of a name, or `default` where the name is not known.
pub open spec fn illuminant_named(name: Seq<char>, default: Illuminant) -> Illuminant {
    if name == "D50"@ {
        Illuminant::D50
    } else if name == "D55"@ {
        Illuminant::D55
    } else if name == "D65"@ {
        Illuminant::D65
    } else {
        default
    }
}

pub fn illuminant_or(name: &str, default: Illuminant) -> (r: Illuminant)
    ensures
        r == illuminant_named(name@, default),
{
    if same(name, "D50") {
        Illuminant::D50
    } else if same(name, "D55") {
        Illuminant::D55
    } else if same(name, "D65") {
        Illuminant::D65
    } else {
        default
    }
}

/// The illuminant that a film is exposed under; D55 where the name is not
/// known.
pub fn select_illuminant(name: &str) -> (r: Illuminant)
    ensures
        r == illuminant_named(name@, Illuminant::D55),
{
    illuminant_or(name, Illuminant::D55)
}

/// The illuminant that a print is viewed under; D50 where the name is not
/// known.
pub fn select_viewing_illuminant(name: &str) -> (r: Illuminant)
    ensures
        r == illuminant_named(name@, Illuminant::D50),
{
    illuminant_or(name, Illuminant::D50)
}

impl Illuminant {
    /// Power at each wavelength.
    pub fn power(self) -> (r: [u32; 81])
        ensures
            r == match self {
                Illuminant::D50 => ILLUMINANT_D50,
                Illuminant::D55 => ILLUMINANT_D55,
                Illuminant::D65 => ILLUMINANT_D65,
            },
    {
        match self {
            Illuminant::D50 => ILLUMINANT_D50,
            Illuminant::D55 => ILLUMINANT_D55,
            Illuminant::D65 => ILLUMINANT_D65,
        }
    }
}

impl Illuminant {
    /// The power in double precision, by encodings.
    pub open spec fn power_bits(self) -> [u64; 81] {
        match self {
            Illuminant::D50 => ILLUMINANT_D50_F64,
            Illuminant::D55 => ILLUMINANT_D55_F64,
            Illuminant::D65 => ILLUMINANT_D65_F64,
        }
    }

    /// The power in single precision.
    #[verifier::opaque]
    pub open spec fn short_powers(self) -> Seq<Single> {
        Seq::new(
            81,
            |i: int|
                Single {
                    bits: match self {
                        Illuminant::D50 => ILLUMINANT_D50,
                        Illuminant::D55 => ILLUMINANT_D55,
                        Illuminant::D65 => ILLUMINANT_D65,
                    }@[i],
                },
        )
    }

    /// The power in single precision.
    pub fn power_numbers(self) -> (r: Vec<Single>)
        ensures
            r@ == self.short_powers(),
            r@.len() == 81,
    {
        let bits = self.power();
        let mut r: Vec<Single> = Vec::new();
        let mut i: usize = 0;
        while i < 81
            invariant
                i <= 81,
                r@.len() == i,
                forall|k: int| 0 <= k < i ==> (#[trigger] r@[k]).bits == bits@[k],
            decreases 81 - i,
        {
            r.push(Single { bits: bits[i] });
            i += 1;
        }
        proof {
            reveal(Illuminant::short_powers);
            assert(r@ =~= self.short_powers());
        }
        r
    }

    /// The power in double precision.
    #[verifier::opaque]
    pub open spec fn powers(self) -> Seq<Double> {
        Seq::new(81, |i: int| Double { bits: self.power_bits()@[i] })
    }

    /// The power in double precision.
    pub fn power_f64(self) -> (r: Vec<Double>)
        ensures
            r@ == self.powers(),
            r@.len() == 81,
    {
        let r = match self {
            Illuminant::D50 => decode_table(ILLUMINANT_D50_F64),
            Illuminant::D55 => decode_table(ILLUMINANT_D55_F64),
            Illuminant::D65 => decode_table(ILLUMINANT_D65_F64),
        };
        proof {
            reveal(Illuminant::powers);
            assert(r@ =~= self.powers());
        }
        r
    }
}

/// An RGB colour space.
#[derive(Clone, Copy, Debug, PartialEq, Eq, Structural)]
pub enum ColorSpace {
    Srgb,
    ProPhoto,
    Rec2020,
    Aces,
}

/// The colour space of a name, or `default` where the name is not known.
pub open spec fn color_space_named(name: Seq<char>, default: ColorSpace) -> ColorSpace {
    if name == "sRGB"@ {
        ColorSpace::Srgb
    } else if name == "ProPhoto RGB"@ {
        ColorSpace::ProPhoto
    } else if name == "Rec. 2020"@ || name == "Rec2020"@ || name == "ITU-R BT.2020"@ {
        ColorSpace::Rec2020
    } else if name == "ACES2065-1"@ {
        ColorSpace::Aces
    } else {
        default
    }
}

pub fn color_space_or(name: &str, default: ColorSpace) -> (r: ColorSpace)
    ensures
        r == color_space_named(name@, default),
{
    if same(name, "sRGB") {
        ColorSpace::Srgb
    } else if same(name, "ProPhoto RGB") {
        ColorSpace::ProPhoto
    } else if same(name, "Rec. 2020") || same(name, "Rec2020") || same(name, "ITU-R BT.2020") {
        ColorSpace::Rec2020
    } else if same(name, "ACES2065-1") {
        ColorSpace::Aces
    } else {
        default
    }
}

/// The colour space whose primaries and white an input is read with;
/// ProPhoto where the name is not known.
pub fn input_color_space(name: &str) -> (r: ColorSpace)
    ensures
        r == color_space_named(name@, ColorSpace::ProPhoto),
{
    color_space_or(name, ColorSpace::ProPhoto)
}

/// The colour space that an output is written in; sRGB where the name is
/// not known.
pub fn output_color_space(name: &str) -> (r: ColorSpace)
    ensures
        r == color_space_named(name@, ColorSpace::Srgb),
{
    color_space_or(name, ColorSpace::Srgb)
}

// ── Coefficient tables on disk ───────────────────────────────────────────

/// A table of four coefficients per chromaticity.
pub struct HanatosLut {
    pub width: usize,
    pub height: usize,
    pub coeffs: Vec<[Single; 4]>,
}

/// The file ends before the table does.
#[derive(Clone, Copy, Debug, PartialEq, Eq, Structural)]
pub struct UnexpectedEnd;

/// The signed number whose two's complement is `u`.
pub open spec fn signed32(u: int) -> int {
    if u >= 0x8000_0000 {
        u - 0x1_0000_0000
    } else {
        u
    }
}

/// `byteorder::LittleEndian::read_i32`: the signed number in the first four
/// bytes, lowest byte first.
#[verifier::external_body]
pub(crate) fn read_i32_le(b: &[u8]) -> (r: i32)
    requires
        b@.len() >= 4,
    ensures
        r == signed32(le32(b@, 0)),
{
    <byteorder::LittleEndian as byteorder::ByteOrder>::read_i32(b)
}

/// `byteorder::LittleEndian::read_u32`: the unsigned number in the first
/// four bytes, lowest byte first.
#[verifier::external_body]
pub(crate) fn read_u32_le(b: &[u8]) -> (r: u32)
    requires
        b@.len() >= 4,
    ensures
        r == le32(b@, 0),
{
    <byteorder::LittleEndian as byteorder::ByteOrder>::read_u32(b)
}

/// A dimension in the file's header: two words are skipped, then come the
/// width and the height, which count as unsigned.
pub open spec fn hanatos_dim(b: Seq<u8>, k: int) -> int {
    as_unsigned(signed32(le32(b, 8 + 4 * k)))
}

/// Bytes that the table takes up, with its header.
pub open spec fn hanatos_bytes(b: Seq<u8>) -> int {
    16 + hanatos_dim(b, 0) * hanatos_dim(b, 1) * 16
}

fn read_at(b: &[u8], i: usize) -> (r: u32)
    requires
        i + 4 <= b@.len(),
    ensures
        r == le32(b@, i as int),
{
    let n: usize = b.len();
    read_u32_le(vstd::slice::slice_subrange(b, i, n))
}

fn dim_at(b: &[u8], i: usize) -> (r: usize)
    requires
        i + 4 <= b@.len(),
    ensures
        r == as_unsigned(signed32(le32(b@, i as int))),
{
    let n: usize = b.len();
    let v: i32 = read_i32_le(vstd::slice::slice_subrange(b, i, n));
    if v < 0 {
        usize::MAX - ((-(v + 1)) as usize)
    } else {
        v as usize
    }
}

impl HanatosLut {
    /// Reads a table from the contents of a file: a header of four words and
    /// then the coefficients, row by row, all little-endian. What follows
    /// the table is ignored.
    pub fn load(b: &[u8]) -> (r: Result<HanatosLut, UnexpectedEnd>)
        ensures
            (r is Err) == (b@.len() < 16 || b@.len() < hanatos_bytes(b@)),
            r matches Ok(t) ==> {
                &&& t.width == hanatos_dim(b@, 0)
                &&& t.height == hanatos_dim(b@, 1)
                &&& t.coeffs@.len() == t.width * t.height
                &&& forall|i: int, c: int|
                    0 <= i < t.coeffs@.len() && 0 <= c < 4 ==> (#[trigger] t.coeffs@[i]@[c]).bits
                        == le32(b@, 16 + 16 * i + 4 * c)
            },
    {
        let total: usize = b.len();
        if total < 16 {
            return Err(UnexpectedEnd);
        }
        let width: usize = dim_at(b, 8);
        let height: usize = dim_at(b, 12);
        let room: usize = (total - 16) / 16;
        let n: usize = match width.checked_mul(height) {
            Some(n) => n,
            None => {
                return Err(UnexpectedEnd);
            },
        };
        if n > room {
            return Err(UnexpectedEnd);
        }
        let mut coeffs: Vec<[Single; 4]> = Vec::new();
        let mut i: usize = 0;
        while i < n
            invariant
                i <= n,
                total == b@.len(),
                16 + 16 * n <= total,
                coeffs@.len() == i,
                forall|k: int, c: int|
                    0 <= k < i && 0 <= c < 4 ==> (#[trigger] coeffs@[k]@[c]).bits == le32(
                        b@,
                        16 + 16 * k + 4 * c,
                    ),
            decreases n - i,
        {
            let at: usize = 16 + 16 * i;
            let row = [
                Single { bits: read_at(b, at) },
                Single { bits: read_at(b, at + 4) },
                Single { bits: read_at(b, at + 8) },
                Single { bits: read_at(b, at + 12) },
            ];
            coeffs.push(row);
            i += 1;
        }
        Ok(HanatosLut { width, height, coeffs })
    }
}

} // verus!
