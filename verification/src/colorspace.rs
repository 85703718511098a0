//! Colour spaces: matrices, white points and chromatic adaptation.
//!
//! Constants are encodings; the numbers stand in comments above them. A
//! matrix has a row for each output.

use vstd::arithmetic::power2::lemma2_to64_rest;
use vstd::prelude::*;

use crate::arith::{Arithmetic, Formula, Sample, Traced};
use crate::arith::{constant, dot3, double, evaluates, is_double, is_single, minus, narrow, over};
use crate::arith::{all_hold, at_most, formulas, plus, power, single, times, widen};
use crate::bits::{Double, Single};
use crate::density_curves::ONE;
use crate::exact::{double_value, exact, Functions};
use crate::gaussian::{fixed, fixed_number};
use crate::illuminants::{illuminant_xyz_f64, is_white_by_spectrum};
use crate::interp::num;
use crate::spectral::{ColorSpace, Illuminant};

verus! {

/// sRGB to XYZ, in single precision.
pub const SRGB_TO_XYZ: [[u32; 3]; 3] = [
    // 0.4124, 0.3576, 0.1805
    [0x3ed3_2618, 0x3eb7_1759, 0x3e38_d4fe],
    // 0.2126, 0.7152, 0.0722
    [0x3e59_b3d0, 0x3f37_1759, 0x3d93_dd98],
    // 0.0193, 0.1192, 0.9505
    [0x3c9e_1b09, 0x3df4_1f21, 0x3f73_53f8],
];

/// sRGB to XYZ, in double precision.
pub const SRGB_TO_XYZ_F64: [[u64; 3]; 3] = [
    // 0.4124, 0.3576, 0.1805
    [0x3fda_64c2_f837_b4a2, 0x3fd6_e2eb_1c43_2ca5, 0x3fc7_1a9f_be76_c8b4],
    // 0.2126, 0.7152, 0.0722
    [0x3fcb_367a_0f90_96bc, 0x3fe6_e2eb_1c43_2ca5, 0x3fb2_7bb2_fec5_6d5d],
    // 0.0193, 0.1192, 0.9505
    [0x3f93_c361_1340_4ea5, 0x3fbe_83e4_25ae_e632, 0x3fee_6a7e_f9db_22d1],
];

/// ProPhoto RGB to XYZ, in double precision.
pub const PROPHOTO_TO_XYZ_F64: [[u64; 3]; 3] = [
    // 0.7976749, 0.1351917, 0.0313534
    [0x3fe9_868d_830a_e1db, 0x3fc1_4df6_2d18_66ff, 0x3fa0_0d8d_873c_9fc3],
    // 0.2880402, 0.7118741, 0.0000857
    [0x3fd2_6f40_29bb_bb2d, 0x3fe6_c7ac_314b_d266, 0x3f16_773a_ca00_69b2],
    // 0.0000000, 0.0000000, 0.8252100
    [0, 0, 0x3fea_681e_cd4a_a10e],
];

/// Rec. 2020 to XYZ, in double precision.
pub const REC2020_TO_XYZ_F64: [[u64; 3]; 3] = [
    // 0.63695804830129099, 0.14461690358620841, 0.16888097516417205
    [0x3fe4_61f5_d84c_18d9, 0x3fc2_82ce_83ac_ff99, 0x3fc5_9de4_4c9f_941a],
    // 0.26270021201126692, 0.67799807151887115, 0.059301716469861938
    [0x3fd0_d014_8ccf_66f0, 0x3fe5_b229_02fd_967e, 0x3fae_5ccb_69ab_60a1],
    // 0.0, 0.028072693049087445, 1.0609850577107907
    [0, 0x3f9c_bf16_8a39_d522, 0x3ff0_f9cb_77c6_99ad],
];

/// ACES2065-1 to XYZ, in double precision.
pub const ACES_TO_XYZ_F64: [[u64; 3]; 3] = [
    // 0.9525523959, 0.0, 9.36786e-05
    [0x3fee_7b4f_2983_be02, 0, 0x3f18_8eaa_17e5_25be],
    // 0.3439664498, 0.7281660966, -0.0721325464
    [0x3fd6_038b_db33_fb82, 0x3fe7_4d22_fc5e_7ec9, 0xbfb2_7747_4fc3_e450],
    // 0.0, 0.0, 1.0088251844
    [0, 0, 0x3ff0_2425_e066_1114],
];

/// XYZ to sRGB, in double precision.
pub const XYZ_TO_SRGB_F64: [[u64; 3]; 3] = [
    // 3.2406, -1.5372, -0.4986
    [0x4009_ecbf_b15b_573f, 0xbff8_985f_06f6_9446, 0xbfdf_e90f_f972_4745],
    // -0.9689, 1.8758, 0.0415
    [0xbfef_013a_92a3_0553, 0x3ffe_0346_dc5d_6388, 0x3fa5_3f7c_ed91_6873],
    // 0.0557, -0.204, 1.057
    [0x3fac_84b5_dcc6_3f14, 0xbfca_1cac_0831_26e9, 0x3ff0_e978_d4fd_f3b6],
];

/// XYZ to ProPhoto RGB, in double precision.
pub const XYZ_TO_PROPHOTO_F64: [[u64; 3]; 3] = [
    // 1.346, -0.2556, -0.0511
    [0x3ff5_8937_4bc6_a7f0, 0xbfd0_5bc0_1a36_e2eb, 0xbfaa_29c7_79a6_b50b],
    // -0.5446, 1.5082, 0.0205
    [0xbfe1_6d5c_faac_d9e8, 0x3ff8_2196_52bd_3c36, 0x3f94_fdf3_b645_a1cb],
    // 0.0, 0.0, 1.2123
    [0, 0, 0x3ff3_6594_af4f_0d84],
];

/// XYZ to Rec. 2020, in double precision.
pub const XYZ_TO_REC2020_F64: [[u64; 3]; 3] = [
    // 1.7166511879712687, -0.35567078377639255, -0.25336628137365996
    [0x3ffb_7767_3c6f_9e4d, 0xbfd6_c34f_641d_9637, 0xbfd0_3727_351a_2d1d],
    // -0.66668435183248886, 1.6164812366349386, 0.015768545813911142
    [0xbfe5_557a_6bfc_0413, 0x3ff9_dd1b_6ddf_1d7c, 0x3f90_25a1_324e_0e34],
    // 0.017639857445310794, -0.042770613257808537, 0.94210312123547413
    [0x3f92_102e_cb55_b897, 0xbfa5_e607_a258_2444, 0x3fee_25b5_71e5_4eed],
];

/// XYZ to ACES2065-1, in double precision.
pub const XYZ_TO_ACES_F64: [[u64; 3]; 3] = [
    // 1.0498110175, 0.0, -9.74845e-05
    [0x3ff0_cc06_a332_49a9, 0, 0xbf19_8e12_f51c_998b],
    // -0.4959030231, 1.3733130458, 0.0982400361
    [0xbfdf_bce0_088c_ee1a, 0x3ff5_f917_19ae_1931, 0x3fb9_2642_4e35_1581],
    // 0.0, 0.0, 0.9912520182
    [0, 0, 0x3fef_b856_2708_6a78],
];

/// XYZ to sRGB, in single precision.
pub const XYZ_TO_SRGB: [[u32; 3]; 3] = [
    // 3.2406255, -1.5372080, -0.4986286
    [0x404f_6668, 0xbfc4_c33b, 0xbeff_4c3f],
    // -0.9689307, 1.8757561, 0.0415175
    [0xbf78_0bd8, 0x3ff0_18c7, 0x3d2a_0e41],
    // 0.0557101, -0.2040211, 1.0569959
    [0x3d64_3046, 0xbe50_eae8, 0x3f87_4ba4],
];

/// ProPhoto RGB to XYZ, in single precision.
pub const PROPHOTO_TO_XYZ: [[u32; 3]; 3] = [
    // 0.7976749, 0.1351917, 0.0313534
    [0x3f4c_346c, 0x3e0a_6fb1, 0x3d00_6c6c],
    // 0.2880402, 0.7118741, 0.0000857
    [0x3e93_7a01, 0x3f36_3d62, 0x38b3_b9d6],
    // 0.0000000, 0.0000000, 0.8252100
    [0, 0, 0x3f53_40f6],
];

/// XYZ to ProPhoto RGB, in single precision.
pub const XYZ_TO_PROPHOTO: [[u32; 3]; 3] = [
    // 1.3459433, -0.2556075, -0.0511118
    [0x3fac_47df, 0xbe82_defc, 0xbd51_5a9b],
    // -0.5445989, 1.5081673, 0.0205351
    [0xbf0b_6ad5, 0x3fc1_0ba0, 0x3ca8_393a],
    // 0.0000000, 0.0000000, 1.2118128
    [0, 0, 0x3f9b_1caf],
];

/// Rec. 2020 to XYZ, in single precision.
pub const REC2020_TO_XYZ: [[u32; 3]; 3] = [
    // 0.6369580, 0.1446169, 0.1688810
    [0x3f23_0fae, 0x3e14_1674, 0x3e2c_ef24],
    // 0.2627002, 0.6779981, 0.0593017
    [0x3e86_80a4, 0x3f2d_9149, 0x3d72_e657],
    // 0.0000000, 0.0280727, 1.0609851
    [0, 0x3ce5_f8b8, 0x3f87_ce5c],
];

/// XYZ to Rec. 2020, in single precision.
pub const XYZ_TO_REC2020: [[u32; 3]; 3] = [
    // 1.7166512, -0.3556708, -0.2533663
    [0x3fdb_bb3a, 0xbeb6_1a7c, 0xbe81_b93a],
    // -0.6666844, 1.6164812, 0.0157685
    [0xbf2a_abd4, 0x3fce_e8db, 0x3c81_2cf1],
    // 0.0176399, -0.0427706, 0.9421031
    [0x3c90_818d, 0xbd2f_303a, 0x3f71_2dab],
];

/// ACES2065-1 to XYZ, in single precision.
pub const ACES_TO_XYZ: [[u32; 3]; 3] = [
    // 0.9525524, 0.0000000, 0.0000937
    [0x3f73_da79, 0, 0x38c4_80ce],
    // 0.3439664, 0.7281661, -0.0721325
    [0x3eb0_1c5d, 0x3f3a_6918, 0xbd93_ba34],
    // 0.0000000, 0.0000000, 1.0088252
    [0, 0, 0x3f81_212f],
];

/// XYZ to ACES2065-1, in single precision.
pub const XYZ_TO_ACES: [[u32; 3]; 3] = [
    // 1.0498110, 0.0000000, -0.0000974
    [0x3f86_6035, 0, 0xb8cc_433a],
    // -0.4959030, 1.3733131, 0.0982400
    [0xbefd_e6ff, 0x3faf_c8b9, 0x3dc9_320e],
    // 0.0000000, 0.0000000, 0.9912520
    [0, 0, 0x3f7d_c2b1],
];

/// XYZ to the cone responses of CAT02, in single precision.
pub const CAT02_FORWARD: [[u32; 3]; 3] = [
    // 0.7328, 0.4296, -0.1624
    [0x3f3b_98c8, 0x3edb_f488, 0xbe26_4c30],
    // -0.7036, 1.6975, 0.0061
    [0xbf34_1f21, 0x3fd9_47ae, 0x3bc7_e282],
    // 0.0030, 0.0136, 0.9834
    [0x3b44_9ba6, 0x3c5e_d289, 0x3f7b_c01a],
];

/// The cone responses of CAT02 to XYZ, in single precision.
pub const CAT02_INVERSE: [[u32; 3]; 3] = [
    // 1.096124, -0.278869, 0.182745
    [0x3f8c_4dcb, 0xbe8e_c7eb, 0x3e3b_2181],
    // 0.454369, 0.473533, 0.072098
    [0x3ee8_a30e, 0x3ef2_72eb, 0x3d93_a81e],
    // -0.009628, -0.005698, 1.015326
    [0xbc1d_bec2, 0xbbba_b64a, 0x3f81_f634],
];

/// XYZ to the cone responses of CAT02, in double precision.
pub const CAT02_FORWARD_F64: [[u64; 3]; 3] = [
    // 0.7328, 0.4296, -0.1624
    [0x3fe7_7318_fc50_4817, 0x3fdb_7e90_ff97_2474, 0xbfc4_c985_f06f_6944],
    // -0.7036, 1.6975, 0.0061
    [0xbfe6_83e4_25ae_e632, 0x3ffb_28f5_c28f_5c29, 0x3f78_fc50_4816_f007],
    // 0.003, 0.0136, 0.9834
    [0x3f68_9374_bc6a_7efa, 0x3f8b_da51_19ce_075f, 0x3fef_7803_46dc_5d64],
];

/// The cone responses of CAT02 to XYZ, in double precision.
pub const CAT02_INVERSE_F64: [[u64; 3]; 3] = [
    // 1.096123820835514, -0.278869000218287, 0.182745179382773
    [0x3ff1_89b9_21ad_ae79, 0xbfd1_d8fd_5cf3_9190, 0x3fc7_6431_ac79_af57],
    // 0.454369041975359, 0.473533154307412, 0.072097803717229
    [0x3fdd_1461_e3e6_5650, 0x3fde_4e5e_00d4_9c91, 0x3fb2_7500_6d14_347b],
    // -0.009627608738429, -0.005698031216113, 1.015325639954543
    [0xbf83_b7a3_c55c_a4e3, 0xbf77_56d1_9b98_bff6, 0x3ff0_3ec6_1926_520e],
];

/// White point of CIE D50, with Y at 1.
// 0.96422, 1.0, 0.82521
pub const D50_XYZ: [u32; 3] = [0x3f76_d71f, 0x3f80_0000, 0x3f53_40f6];

/// White point of CIE D55, with Y at 1.
// 0.95682, 1.0, 0.92149
pub const D55_XYZ: [u32; 3] = [0x3f74_f228, 0x3f80_0000, 0x3f6b_e6c5];

/// White point of CIE D65, with Y at 1.
// 0.95047, 1.0, 1.08883
pub const D65_XYZ: [u32; 3] = [0x3f73_5200, 0x3f80_0000, 0x3f8b_5ec8];

// ── Matrices ─────────────────────────────────────────────────────────────

/// The numbers of an encoded matrix.
pub open spec fn decoded(m: [[u64; 3]; 3], r: [[Double; 3]; 3]) -> bool {
    forall|i: int, j: int|
        0 <= i < 3 && 0 <= j < 3 ==> (#[trigger] r@[i]@[j]).bits == m@[i]@[j]
}

fn row_of(m: [u64; 3]) -> (r: [Double; 3])
    ensures
        forall|j: int| 0 <= j < 3 ==> (#[trigger] r@[j]).bits == m@[j],
{
    [Double { bits: m[0] }, Double { bits: m[1] }, Double { bits: m[2] }]
}

/// The numbers of an encoded matrix.
pub fn matrix(m: [[u64; 3]; 3]) -> (r: [[Double; 3]; 3])
    ensures
        decoded(m, r),
{
    [row_of(m[0]), row_of(m[1]), row_of(m[2])]
}

pub open spec fn short_decoded(m: [[u32; 3]; 3], r: [[Single; 3]; 3]) -> bool {
    forall|i: int, j: int|
        0 <= i < 3 && 0 <= j < 3 ==> (#[trigger] r@[i]@[j]).bits == m@[i]@[j]
}

fn short_row(m: [u32; 3]) -> (r: [Single; 3])
    ensures
        forall|j: int| 0 <= j < 3 ==> (#[trigger] r@[j]).bits == m@[j],
{
    [Single { bits: m[0] }, Single { bits: m[1] }, Single { bits: m[2] }]
}

/// The numbers of an encoded matrix, in single precision.
pub fn short_matrix(m: [[u32; 3]; 3]) -> (r: [[Single; 3]; 3])
    ensures
        short_decoded(m, r),
{
    [short_row(m[0]), short_row(m[1]), short_row(m[2])]
}

/// The matrix from a colour space to XYZ.
pub open spec fn to_xyz_bits(space: ColorSpace) -> [[u64; 3]; 3] {
    match space {
        ColorSpace::Srgb => SRGB_TO_XYZ_F64,
        ColorSpace::ProPhoto => PROPHOTO_TO_XYZ_F64,
        ColorSpace::Rec2020 => REC2020_TO_XYZ_F64,
        ColorSpace::Aces => ACES_TO_XYZ_F64,
    }
}

/// The matrix from XYZ to a colour space.
pub open spec fn from_xyz_bits(space: ColorSpace) -> [[u64; 3]; 3] {
    match space {
        ColorSpace::Srgb => XYZ_TO_SRGB_F64,
        ColorSpace::ProPhoto => XYZ_TO_PROPHOTO_F64,
        ColorSpace::Rec2020 => XYZ_TO_REC2020_F64,
        ColorSpace::Aces => XYZ_TO_ACES_F64,
    }
}

/// The matrix from a colour space to XYZ, in single precision.
pub open spec fn short_to_xyz_bits(space: ColorSpace) -> [[u32; 3]; 3] {
    match space {
        ColorSpace::Srgb => SRGB_TO_XYZ,
        ColorSpace::ProPhoto => PROPHOTO_TO_XYZ,
        ColorSpace::Rec2020 => REC2020_TO_XYZ,
        ColorSpace::Aces => ACES_TO_XYZ,
    }
}

/// RGB to XYZ.
pub fn colorspace_to_xyz_f64(space: ColorSpace) -> (r: [[Double; 3]; 3])
    ensures
        decoded(to_xyz_bits(space), r),
{
    match space {
        ColorSpace::Srgb => matrix(SRGB_TO_XYZ_F64),
        ColorSpace::ProPhoto => matrix(PROPHOTO_TO_XYZ_F64),
        ColorSpace::Rec2020 => matrix(REC2020_TO_XYZ_F64),
        ColorSpace::Aces => matrix(ACES_TO_XYZ_F64),
    }
}

/// XYZ to RGB.
pub fn colorspace_from_xyz_f64(space: ColorSpace) -> (r: [[Double; 3]; 3])
    ensures
        decoded(from_xyz_bits(space), r),
{
    match space {
        ColorSpace::Srgb => matrix(XYZ_TO_SRGB_F64),
        ColorSpace::ProPhoto => matrix(XYZ_TO_PROPHOTO_F64),
        ColorSpace::Rec2020 => matrix(XYZ_TO_REC2020_F64),
        ColorSpace::Aces => matrix(XYZ_TO_ACES_F64),
    }
}

/// RGB to XYZ, in single precision.
pub fn colorspace_to_xyz(space: ColorSpace) -> (r: [[Single; 3]; 3])
    ensures
        short_decoded(short_to_xyz_bits(space), r),
{
    match space {
        ColorSpace::Srgb => short_matrix(SRGB_TO_XYZ),
        ColorSpace::ProPhoto => short_matrix(PROPHOTO_TO_XYZ),
        ColorSpace::Rec2020 => short_matrix(REC2020_TO_XYZ),
        ColorSpace::Aces => short_matrix(ACES_TO_XYZ),
    }
}

/// Entry `(i, j)` of the product of two matrices.
pub open spec fn product_entry<T: Sample>(
    a: [[T; 3]; 3],
    b: [[T; 3]; 3],
    i: int,
    j: int,
) -> Formula {
    dot3(
        seq![num(a@[i]@[0]), num(a@[i]@[1]), num(a@[i]@[2])],
        seq![num(b@[0]@[j]), num(b@[1]@[j]), num(b@[2]@[j])],
    )
}

/// `r` is the product of two matrices.
pub open spec fn is_product<T: Sample, A: Arithmetic>(
    ar: &A,
    a: [[T; 3]; 3],
    b: [[T; 3]; 3],
    r: [[T; 3]; 3],
) -> bool {
    forall|i: int, j: int|
        0 <= i < 3 && 0 <= j < 3 ==> evaluates(
            ar,
            product_entry(a, b, i, j),
            (#[trigger] r@[i]@[j]).number(),
        )
}

fn dot<T: Sample, A: Arithmetic>(ar: &A, a: [T; 3], b: [T; 3]) -> (r: T)
    ensures
        evaluates(
            ar,
            dot3(
                seq![num(a@[0]), num(a@[1]), num(a@[2])],
                seq![num(b@[0]), num(b@[1]), num(b@[2])],
            ),
            r.number(),
        ),
{
    let x: [Traced<T>; 3] = [Traced::new(ar, a[0]), Traced::new(ar, a[1]), Traced::new(ar, a[2])];
    let y: [Traced<T>; 3] = [Traced::new(ar, b[0]), Traced::new(ar, b[1]), Traced::new(ar, b[2])];
    let r = Traced::dot3(ar, x, y);
    proof {
        assert(formulas(x@) =~= seq![num(a@[0]), num(a@[1]), num(a@[2])]);
        assert(formulas(y@) =~= seq![num(b@[0]), num(b@[1]), num(b@[2])]);
        assert(all_hold(ar, x@));
        assert(all_hold(ar, y@));
    }
    r.value
}

/// Multiplies two matrices.
pub fn mat3_mul3<T: Sample, A: Arithmetic>(ar: &A, a: &[[T; 3]; 3], b: &[[T; 3]; 3]) -> (r: [[T;
    3]; 3])
    ensures
        is_product(ar, *a, *b, r),
{
    let b0 = b[0];
    let b1 = b[1];
    let b2 = b[2];
    let c0 = [b0[0], b1[0], b2[0]];
    let c1 = [b0[1], b1[1], b2[1]];
    let c2 = [b0[2], b1[2], b2[2]];
    let r0 = [dot(ar, a[0], c0), dot(ar, a[0], c1), dot(ar, a[0], c2)];
    let r1 = [dot(ar, a[1], c0), dot(ar, a[1], c1), dot(ar, a[1], c2)];
    let r2 = [dot(ar, a[2], c0), dot(ar, a[2], c1), dot(ar, a[2], c2)];
    [r0, r1, r2]
}

/// `r` is a matrix times a vector.
pub open spec fn is_image<T: Sample, A: Arithmetic>(
    ar: &A,
    m: [[T; 3]; 3],
    v: [T; 3],
    r: [T; 3],
) -> bool {
    forall|i: int|
        0 <= i < 3 ==> evaluates(
            ar,
            dot3(
                seq![num(m@[i]@[0]), num(m@[i]@[1]), num(m@[i]@[2])],
                seq![num(v@[0]), num(v@[1]), num(v@[2])],
            ),
            (#[trigger] r@[i]).number(),
        )
}

/// A matrix times a vector.
pub fn mat3_mul<T: Sample, A: Arithmetic>(ar: &A, m: &[[T; 3]; 3], v: [T; 3]) -> (r: [T; 3])
    ensures
        is_image(ar, *m, v, r),
{
    [dot(ar, m[0], v), dot(ar, m[1], v), dot(ar, m[2], v)]
}

// ── White points ─────────────────────────────────────────────────────────

/// `r` is the colour of a chromaticity, with Y at 1.
pub open spec fn is_white<T: Sample, A: Arithmetic>(ar: &A, x: T, y: T, r: [T; 3]) -> bool {
    if at_most(y, T::zero_value()) {
        r@ == seq![T::zero_value(), T::one_value(), T::zero_value()]
    } else {
        &&& evaluates(ar, over(num(x), num(y)), r@[0].number())
        &&& r@[1] == T::one_value()
        &&& evaluates(
            ar,
            over(minus(minus(num(T::one_value()), num(x)), num(y)), num(y)),
            r@[2].number(),
        )
    }
}

/// The colour of a chromaticity, with Y at 1; black in X and Z where y is not
/// above 0.
pub fn xy_to_xyz<T: Sample, A: Arithmetic>(ar: &A, x: T, y: T) -> (r: [T; 3])
    ensures
        is_white(ar, x, y, r),
{
    if y.le(T::zero()) {
        let r = [T::zero(), T::one(), T::zero()];
        assert(r@ =~= seq![T::zero_value(), T::one_value(), T::zero_value()]);
        return r;
    }
    let a: Traced<T> = Traced::new(ar, x);
    let b: Traced<T> = Traced::new(ar, y);
    let one: Traced<T> = Traced::new(ar, T::one());
    let first = a.over(ar, b);
    let last = one.minus(ar, a).minus(ar, b).over(ar, b);
    [first.value, T::one(), last.value]
}

/// Chromaticity of the white of a colour space.
pub open spec fn white_chromaticity(space: ColorSpace) -> (Double, Double) {
    match space {
        // 0.3127, 0.329
        ColorSpace::Srgb | ColorSpace::Rec2020 => (
            Double { bits: 0x3fd4_0346_dc5d_6388 },
            Double { bits: 0x3fd5_0e56_0418_9375 },
        ),
        // 0.3457, 0.3585
        ColorSpace::ProPhoto => (
            Double { bits: 0x3fd6_1ff2_e48e_8a72 },
            Double { bits: 0x3fd6_f1a9_fbe7_6c8b },
        ),
        // 0.32168, 0.33767
        ColorSpace::Aces => (
            Double { bits: 0x3fd4_9667_b5f1_bef5 },
            Double { bits: 0x3fd5_9c62_a1b5_c7ce },
        ),
    }
}

/// White of a colour space.
pub fn colorspace_white_xyz_f64<A: Arithmetic>(ar: &A, space: ColorSpace) -> (r: [Double; 3])
    ensures
        is_white(ar, white_chromaticity(space).0, white_chromaticity(space).1, r),
{
    match space {
        ColorSpace::Srgb | ColorSpace::Rec2020 => xy_to_xyz(
            ar,
            Double { bits: 0x3fd4_0346_dc5d_6388 },
            Double { bits: 0x3fd5_0e56_0418_9375 },
        ),
        ColorSpace::ProPhoto => xy_to_xyz(
            ar,
            Double { bits: 0x3fd6_1ff2_e48e_8a72 },
            Double { bits: 0x3fd6_f1a9_fbe7_6c8b },
        ),
        ColorSpace::Aces => xy_to_xyz(
            ar,
            Double { bits: 0x3fd4_9667_b5f1_bef5 },
            Double { bits: 0x3fd5_9c62_a1b5_c7ce },
        ),
    }
}

/// Chromaticity of the white of a colour space in single precision.
pub open spec fn short_white_chromaticity(space: ColorSpace) -> (Single, Single) {
    match space {
        // 0.3127 and 0.329
        ColorSpace::Srgb | ColorSpace::Rec2020 => (
            Single { bits: 0x3ea0_1a37 },
            Single { bits: 0x3ea8_72b0 },
        ),
        // 0.3457 and 0.3585
        ColorSpace::ProPhoto => (Single { bits: 0x3eb0_ff97 }, Single { bits: 0x3eb7_8d50 }),
        // 0.32168 and 0.33767
        ColorSpace::Aces => (Single { bits: 0x3ea4_b33e }, Single { bits: 0x3eac_e315 }),
    }
}

/// White of a colour space in single precision.
pub fn colorspace_white_xyz<A: Arithmetic>(ar: &A, space: ColorSpace) -> (r: [Single; 3])
    ensures
        is_white(ar, short_white_chromaticity(space).0, short_white_chromaticity(space).1, r),
{
    match space {
        ColorSpace::Srgb | ColorSpace::Rec2020 => xy_to_xyz(
            ar,
            Single { bits: 0x3ea0_1a37 },
            Single { bits: 0x3ea8_72b0 },
        ),
        ColorSpace::ProPhoto => xy_to_xyz(ar, Single { bits: 0x3eb0_ff97 }, Single { bits: 0x3eb7_8d50 }),
        ColorSpace::Aces => xy_to_xyz(ar, Single { bits: 0x3ea4_b33e }, Single { bits: 0x3eac_e315 }),
    }
}

/// Colour of an illuminant, with Y at 1.
pub open spec fn illuminant_white(illuminant: Illuminant) -> Seq<Double> {
    match illuminant {
        // 0.96419686124892201, 1.0, 0.82512259200404314
        Illuminant::D50 => seq![
            Double { bits: 0x3fee_dab3_603f_09fe },
            Double { bits: ONE },
            Double { bits: 0x3fea_6767_7e7b_23c5 },
        ],
        // 0.9567908993343901, 1.0, 0.92136745658606822
        Illuminant::D55 => seq![
            Double { bits: 0x3fee_9e07_f2b8_0d62 },
            Double { bits: ONE },
            Double { bits: 0x3fed_7bd7_9ab4_58fd },
        ],
        // 0.95042966940215057, 1.0, 1.0888005470297513
        Illuminant::D65 => seq![
            Double { bits: 0x3fee_69eb_7b67_5eda },
            Double { bits: ONE },
            Double { bits: 0x3ff1_6bba_1f55_c14c },
        ],
    }
}

/// Colour of an illuminant, with Y at 1.
pub fn standard_white(illuminant: Illuminant) -> (r: [Double; 3])
    ensures
        r@ == illuminant_white(illuminant),
{
    let r = match illuminant {
        Illuminant::D50 => [
            Double { bits: 0x3fee_dab3_603f_09fe },
            Double { bits: ONE },
            Double { bits: 0x3fea_6767_7e7b_23c5 },
        ],
        Illuminant::D55 => [
            Double { bits: 0x3fee_9e07_f2b8_0d62 },
            Double { bits: ONE },
            Double { bits: 0x3fed_7bd7_9ab4_58fd },
        ],
        Illuminant::D65 => [
            Double { bits: 0x3fee_69eb_7b67_5eda },
            Double { bits: ONE },
            Double { bits: 0x3ff1_6bba_1f55_c14c },
        ],
    };
    assert(r@ =~= illuminant_white(illuminant));
    r
}

// ── Chromatic adaptation ─────────────────────────────────────────────────

/// Encoded matrices as formulas.
pub open spec fn forward(i: int, j: int) -> Formula {
    constant(CAT02_FORWARD_F64@[i]@[j])
}

pub open spec fn inverse(i: int, j: int) -> Formula {
    constant(CAT02_INVERSE_F64@[i]@[j])
}

/// Response of cone `i` to a colour.
pub open spec fn response(i: int, white: Seq<Formula>) -> Formula {
    dot3(seq![forward(i, 0), forward(i, 1), forward(i, 2)], white)
}

/// What the response of cone `i` is multiplied by.
pub open spec fn gain(i: int, src: Seq<Formula>, dst: Seq<Formula>) -> Formula {
    over(response(i, dst), response(i, src))
}

/// Entry of the adaptation from one white to another.
pub open spec fn adaptation(i: int, j: int, src: Seq<Formula>, dst: Seq<Formula>) -> Formula {
    plus(
        plus(
            times(times(inverse(i, 0), gain(0, src, dst)), forward(0, j)),
            times(times(inverse(i, 1), gain(1, src, dst)), forward(1, j)),
        ),
        times(times(inverse(i, 2), gain(2, src, dst)), forward(2, j)),
    )
}

/// A colour as formulas.
pub open spec fn leaves3(v: [Double; 3]) -> Seq<Formula> {
    seq![double(v@[0]), double(v@[1]), double(v@[2])]
}

fn response_of<A: Arithmetic>(ar: &A, row: [u64; 3], white: [Traced<Double>; 3]) -> (r: Traced<
    Double,
>)
    requires
        all_hold(ar, white@),
    ensures
        r.holds(ar),
        r.formula@ == dot3(
            seq![constant(row@[0]), constant(row@[1]), constant(row@[2])],
            formulas(white@),
        ),
{
    let k: [Traced<Double>; 3] = [
        Traced::constant(ar, row[0]),
        Traced::constant(ar, row[1]),
        Traced::constant(ar, row[2]),
    ];
    let r = Traced::dot3(ar, k, white);
    proof {
        assert(formulas(k@) =~= seq![
            constant(row@[0]),
            constant(row@[1]),
            constant(row@[2]),
        ]);
        assert(all_hold(ar, k@));
    }
    r
}

fn adapted<A: Arithmetic>(ar: &A, inv: [u64; 3], g: [Traced<Double>; 3], col: [u64; 3]) -> (r:
    Traced<Double>)
    requires
        all_hold(ar, g@),
    ensures
        r.holds(ar),
        r.formula@ == plus(
            plus(
                times(times(constant(inv@[0]), g@[0].formula@), constant(col@[0])),
                times(times(constant(inv@[1]), g@[1].formula@), constant(col@[1])),
            ),
            times(times(constant(inv@[2]), g@[2].formula@), constant(col@[2])),
        ),
{
    assert(g@[0].holds(ar) && g@[1].holds(ar) && g@[2].holds(ar));
    let a: Traced<Double> = Traced::constant(ar, inv[0]);
    let b: Traced<Double> = Traced::constant(ar, inv[1]);
    let c: Traced<Double> = Traced::constant(ar, inv[2]);
    let x = a.times(ar, g[0]).times(ar, Traced::constant(ar, col[0]));
    let y = b.times(ar, g[1]).times(ar, Traced::constant(ar, col[1]));
    let z = c.times(ar, g[2]).times(ar, Traced::constant(ar, col[2]));
    x.plus(ar, y).plus(ar, z)
}

fn adaptation_matrix<A: Arithmetic>(
    ar: &A,
    src: [Traced<Double>; 3],
    dst: [Traced<Double>; 3],
) -> (r: [[Traced<Double>; 3]; 3])
    requires
        all_hold(ar, src@),
        all_hold(ar, dst@),
    ensures
        forall|i: int, j: int|
            0 <= i < 3 && 0 <= j < 3 ==> (#[trigger] r@[i]@[j]).holds(ar) && r@[i]@[j].formula@
                == adaptation(
                i,
                j,
                formulas(src@),
                formulas(dst@),
            ),
{
    let f = CAT02_FORWARD_F64;
    let v = CAT02_INVERSE_F64;
    let f0 = f[0];
    let f1 = f[1];
    let f2 = f[2];
    let g: [Traced<Double>; 3] = [
        response_of(ar, f0, dst).over(ar, response_of(ar, f0, src)),
        response_of(ar, f1, dst).over(ar, response_of(ar, f1, src)),
        response_of(ar, f2, dst).over(ar, response_of(ar, f2, src)),
    ];
    let c0 = [f0[0], f1[0], f2[0]];
    let c1 = [f0[1], f1[1], f2[1]];
    let c2 = [f0[2], f1[2], f2[2]];
    proof {
        let s = formulas(src@);
        let d = formulas(dst@);
        assert(g@[0].formula@ == gain(0, s, d));
        assert(g@[1].formula@ == gain(1, s, d));
        assert(g@[2].formula@ == gain(2, s, d));
        assert(all_hold(ar, g@));
    }
    let r0 = [adapted(ar, v[0], g, c0), adapted(ar, v[0], g, c1), adapted(ar, v[0], g, c2)];
    let r1 = [adapted(ar, v[1], g, c0), adapted(ar, v[1], g, c1), adapted(ar, v[1], g, c2)];
    let r2 = [adapted(ar, v[2], g, c0), adapted(ar, v[2], g, c1), adapted(ar, v[2], g, c2)];
    [r0, r1, r2]
}

/// `r` adapts colours from one white to another.
pub open spec fn is_adaptation<A: Arithmetic>(
    ar: &A,
    src: [Double; 3],
    dst: [Double; 3],
    r: [[Double; 3]; 3],
) -> bool {
    forall|i: int, j: int|
        0 <= i < 3 && 0 <= j < 3 ==> is_double(
            ar,
            adaptation(i, j, leaves3(src), leaves3(dst)),
            #[trigger] r@[i]@[j],
        )
}

fn traced3<A: Arithmetic>(ar: &A, v: [Double; 3]) -> (r: [Traced<Double>; 3])
    ensures
        all_hold(ar, r@),
        formulas(r@) == leaves3(v),
{
    let r: [Traced<Double>; 3] = [
        Traced::new(ar, v[0]),
        Traced::new(ar, v[1]),
        Traced::new(ar, v[2]),
    ];
    assert(formulas(r@) =~= leaves3(v));
    r
}

/// Adapts colours from one white to another, by CAT02.
pub fn chromatic_adaptation_matrix_f64<A: Arithmetic>(
    ar: &A,
    src_white: [Double; 3],
    dst_white: [Double; 3],
) -> (r: [[Double; 3]; 3])
    ensures
        is_adaptation(ar, src_white, dst_white, r),
{
    let m = adaptation_matrix(ar, traced3(ar, src_white), traced3(ar, dst_white));
    let a = m[0];
    let b = m[1];
    let c = m[2];
    let r0 = [a[0].value, a[1].value, a[2].value];
    let r1 = [b[0].value, b[1].value, b[2].value];
    let r2 = [c[0].value, c[1].value, c[2].value];
    proof {
        assert forall|i: int, j: int| 0 <= i < 3 && 0 <= j < 3 implies (
        #[trigger] m@[i]@[j]).holds(ar) by {
        }
    }
    [r0, r1, r2]
}

/// A colour of singles as formulas of doubles.
pub open spec fn wide_leaves3(v: [Single; 3]) -> Seq<Formula> {
    seq![widen(single(v@[0])), widen(single(v@[1])), widen(single(v@[2]))]
}

fn wide3<A: Arithmetic>(ar: &A, v: [Single; 3]) -> (r: [Traced<Double>; 3])
    ensures
        all_hold(ar, r@),
        formulas(r@) == wide_leaves3(v),
{
    let a: Traced<Single> = Traced::new(ar, v[0]);
    let b: Traced<Single> = Traced::new(ar, v[1]);
    let c: Traced<Single> = Traced::new(ar, v[2]);
    let r: [Traced<Double>; 3] = [a.widen(ar), b.widen(ar), c.widen(ar)];
    assert(formulas(r@) =~= wide_leaves3(v));
    r
}

/// The same for whites in single precision: computed in double precision and
/// brought back.
pub fn chromatic_adaptation_matrix<A: Arithmetic>(
    ar: &A,
    src_white: [Single; 3],
    dst_white: [Single; 3],
) -> (r: [[Single; 3]; 3])
    ensures
        forall|i: int, j: int|
            0 <= i < 3 && 0 <= j < 3 ==> is_single(
                ar,
                narrow(adaptation(i, j, wide_leaves3(src_white), wide_leaves3(dst_white))),
                #[trigger] r@[i]@[j],
            ),
{
    let m = adaptation_matrix(ar, wide3(ar, src_white), wide3(ar, dst_white));
    let a = m[0];
    let b = m[1];
    let c = m[2];
    proof {
        assert forall|i: int, j: int| 0 <= i < 3 && 0 <= j < 3 implies (
        #[trigger] m@[i]@[j]).holds(ar) by {
        }
    }
    let r0 = [a[0].narrow(ar).value, a[1].narrow(ar).value, a[2].narrow(ar).value];
    let r1 = [b[0].narrow(ar).value, b[1].narrow(ar).value, b[2].narrow(ar).value];
    let r2 = [c[0].narrow(ar).value, c[1].narrow(ar).value, c[2].narrow(ar).value];
    [r0, r1, r2]
}

/// From one RGB to another: to XYZ, adapted, and back to RGB.
pub fn rgb_to_rgb_matrix<A: Arithmetic>(
    ar: &A,
    src_to_xyz: &[[Single; 3]; 3],
    src_white: [Single; 3],
    xyz_to_dst: &[[Single; 3]; 3],
    dst_white: [Single; 3],
) -> (r: [[Single; 3]; 3])
    ensures
        exists|adapt: [[Single; 3]; 3], mid: [[Single; 3]; 3]|
            {
                &&& forall|i: int, j: int|
                    0 <= i < 3 && 0 <= j < 3 ==> is_single(
                        ar,
                        narrow(
                            adaptation(i, j, wide_leaves3(src_white), wide_leaves3(dst_white)),
                        ),
                        #[trigger] adapt@[i]@[j],
                    )
                &&& #[trigger] is_product(ar, adapt, *src_to_xyz, mid)
                &&& is_product(ar, *xyz_to_dst, mid, r)
            },
{
    let adapt = chromatic_adaptation_matrix(ar, src_white, dst_white);
    let mid = mat3_mul3(ar, &adapt, src_to_xyz);
    let r = mat3_mul3(ar, xyz_to_dst, &mid);
    assert(is_product(ar, adapt, *src_to_xyz, mid));
    r
}

/// `r` is `RGB` to the XYZ under an illuminant of a spectrum.
pub open spec fn is_adapted_xyz<A: Arithmetic>(
    ar: &A,
    space: ColorSpace,
    illuminant: Seq<Single>,
    r: [[Double; 3]; 3],
) -> bool {
    exists|to_xyz: [[Double; 3]; 3], src: [Double; 3], dst: [Double; 3], adapt: [[Double; 3]; 3]|
        {
            &&& decoded(to_xyz_bits(space), to_xyz)
            &&& is_white(ar, white_chromaticity(space).0, white_chromaticity(space).1, src)
            &&& is_white_by_spectrum(ar, illuminant, dst)
            &&& #[trigger] is_adaptation(ar, src, dst, adapt)
            &&& #[trigger] is_product(ar, adapt, to_xyz, r)
        }
}

/// One matrix from RGB to the XYZ under an illuminant.
pub fn build_rgb_to_adapted_xyz<A: Arithmetic>(
    ar: &A,
    space: ColorSpace,
    illuminant: &[Single],
) -> (r: [[Double; 3]; 3])
    ensures
        is_adapted_xyz(ar, space, illuminant@, r),
{
    let to_xyz = colorspace_to_xyz_f64(space);
    let src = colorspace_white_xyz_f64(ar, space);
    let dst = illuminant_xyz_f64(ar, illuminant);
    let adapt = chromatic_adaptation_matrix_f64(ar, src, dst);
    let r = mat3_mul3(ar, &adapt, &to_xyz);
    proof {
        assert(is_adaptation(ar, src, dst, adapt));
        assert(is_product(ar, adapt, to_xyz, r));
    }
    r
}

// ── Encoding ─────────────────────────────────────────────────────────────

/// The encoding curve of sRGB: a line for dark numbers, and a power.
pub open spec fn encoding_curve<T: Sample>(dark: bool, x: Formula) -> Formula {
    if dark {
        // 12.92
        times(fixed::<T>(0x4029_d70a_3d70_a3d7), x)
    } else {
        // 1.055, 1 / 2.4 and 0.055
        minus(
            times(fixed::<T>(0x3ff0_e147_ae14_7ae1), power(x, fixed::<T>(0x3fda_aaaa_aaaa_aaab))),
            fixed::<T>(0x3fac_28f5_c28f_5c29),
        )
    }
}

/// A number encoded by the curve of sRGB; those up to 0.0031308 are dark.
pub open spec fn srgb_encoded<T: Sample>(x: T) -> Formula {
    encoding_curve::<T>(
        at_most(x, T::literal_value(0x3b4d_2e1c, 0x3f69_a5c3_7387_b719)),
        num(x),
    )
}

/// The encoding curve of sRGB: from linear light.
pub fn srgb_encode<T: Sample, A: Arithmetic>(ar: &A, x: T) -> (r: T)
    ensures
        evaluates(ar, srgb_encoded(x), r.number()),
{
    let v: Traced<T> = Traced::new(ar, x);
    if x.le(T::literal(0x3b4d_2e1c, 0x3f69_a5c3_7387_b719)) {
        let k: Traced<T> = fixed_number(ar, 0x4029_d70a_3d70_a3d7);
        k.times(ar, v).value
    } else {
        let k: Traced<T> = fixed_number(ar, 0x3ff0_e147_ae14_7ae1);
        let e: Traced<T> = fixed_number(ar, 0x3fda_aaaa_aaaa_aaab);
        let o: Traced<T> = fixed_number(ar, 0x3fac_28f5_c28f_5c29);
        k.times(ar, v.power(ar, e)).minus(ar, o).value
    }
}

/// The decoding curve of sRGB: a line for dark numbers, and a power.
pub open spec fn decoding_curve<T: Sample>(dark: bool, x: Formula) -> Formula {
    if dark {
        // 12.92
        over(x, fixed::<T>(0x4029_d70a_3d70_a3d7))
    } else {
        // 0.055, 1.055 and 2.4
        power(
            over(plus(x, fixed::<T>(0x3fac_28f5_c28f_5c29)), fixed::<T>(0x3ff0_e147_ae14_7ae1)),
            fixed::<T>(0x4003_3333_3333_3333),
        )
    }
}

/// A number decoded by the curve of sRGB; those up to 0.04045 are dark.
pub open spec fn srgb_decoded<T: Sample>(x: T) -> Formula {
    decoding_curve::<T>(
        at_most(x, T::literal_value(0x3d25_aee6, 0x3fa4_b5dc_c63f_1412)),
        num(x),
    )
}

/// The decoding curve of sRGB: to linear light.
pub fn srgb_decode<T: Sample, A: Arithmetic>(ar: &A, x: T) -> (r: T)
    ensures
        evaluates(ar, srgb_decoded(x), r.number()),
{
    let v: Traced<T> = Traced::new(ar, x);
    if x.le(T::literal(0x3d25_aee6, 0x3fa4_b5dc_c63f_1412)) {
        let k: Traced<T> = fixed_number(ar, 0x4029_d70a_3d70_a3d7);
        v.over(ar, k).value
    } else {
        let o: Traced<T> = fixed_number(ar, 0x3fac_28f5_c28f_5c29);
        let k: Traced<T> = fixed_number(ar, 0x3ff0_e147_ae14_7ae1);
        let e: Traced<T> = fixed_number(ar, 0x4003_3333_3333_3333);
        v.plus(ar, o).over(ar, k).power(ar, e).value
    }
}

/// The constants of the curves, as numbers.
proof fn lemma_curve_constants()
    ensures
        double_value(Double { bits: 0x4029_d70a_3d70_a3d7 }) == (0x19_d70a_3d70_a3d7int as real) / (0x2_0000_0000_0000int as real),
        double_value(Double { bits: 0x3ff0_e147_ae14_7ae1 }) == (0x10_e147_ae14_7ae1int as real) / (0x10_0000_0000_0000int as real),
        double_value(Double { bits: 0x3f69_a5c3_7387_b719 }) == (0x19_a5c3_7387_b719int as real) / (0x2000_0000_0000_0000int as real),
        double_value(Double { bits: 0x3fa4_b5dc_c63f_1412 }) == (0x14_b5dc_c63f_1412int as real) / (0x200_0000_0000_0000int as real),
{
    lemma2_to64_rest();
}

proof fn lemma_line_undone(k: real, v: real)
    by (nonlinear_arith)
    requires
        k != 0real,
    ensures
        (k * v) / k == v,
{
}

proof fn lemma_line_limit(k: real, v: real, most: real)
    by (nonlinear_arith)
    requires
        0real <= k,
        v <= most,
    ensures
        k * v <= k * most,
{
}

/// Without rounding, decoding by either part of the curve undoes encoding by
/// the same part, the power as far as the powers by 1 / 2.4 and by 2.4 undo
/// each other.
pub proof fn lemma_srgb_round_trip<T: Sample>(g: Functions, dark: bool, x: Formula)
    requires
        !dark ==> (g.power)(
            (g.power)(
                exact(g, x),
                double_value(Double { bits: 0x3fda_aaaa_aaaa_aaab }),
            ),
            double_value(Double { bits: 0x4003_3333_3333_3333 }),
        ) == exact(g, x),
    ensures
        exact(g, decoding_curve::<T>(dark, encoding_curve::<T>(dark, x))) == exact(g, x),
{
    lemma_curve_constants();
    T::lemma_stored(g, constant(0x4029_d70a_3d70_a3d7));
    T::lemma_stored(g, constant(0x3ff0_e147_ae14_7ae1));
    T::lemma_stored(g, constant(0x3fda_aaaa_aaaa_aaab));
    T::lemma_stored(g, constant(0x3fac_28f5_c28f_5c29));
    T::lemma_stored(g, constant(0x4003_3333_3333_3333));
    reveal_with_fuel(exact, 5);
    if dark {
        let k = double_value(Double { bits: 0x4029_d70a_3d70_a3d7 });
        lemma_line_undone(k, exact(g, x));
        assert(exact(g, encoding_curve::<T>(dark, x)) == k * exact(g, x));
    } else {
        let p = (g.power)(exact(g, x), double_value(Double { bits: 0x3fda_aaaa_aaaa_aaab }));
        let a = double_value(Double { bits: 0x3ff0_e147_ae14_7ae1 });
        let o = double_value(Double { bits: 0x3fac_28f5_c28f_5c29 });
        let e = encoding_curve::<T>(dark, x);
        lemma_line_undone(a, p);
        assert(exact(g, e) == a * p - o);
        assert(exact(g, plus(e, fixed::<T>(0x3fac_28f5_c28f_5c29))) == a * p);
        assert(exact(
            g,
            over(plus(e, fixed::<T>(0x3fac_28f5_c28f_5c29)), fixed::<T>(0x3ff0_e147_ae14_7ae1)),
        ) == (a * p) / a);
    }
}

/// Without rounding, a number that is dark before encoding is dark
/// afterwards, so that decoding takes the same part of the curve.
pub proof fn lemma_srgb_dark<T: Sample>(g: Functions, x: Formula)
    requires
        exact(g, x) <= double_value(Double { bits: 0x3f69_a5c3_7387_b719 }),
    ensures
        exact(g, encoding_curve::<T>(true, x)) <= double_value(
            Double { bits: 0x3fa4_b5dc_c63f_1412 },
        ),
{
    lemma_curve_constants();
    T::lemma_stored(g, constant(0x4029_d70a_3d70_a3d7));
    reveal_with_fuel(exact, 2);
    let k = double_value(Double { bits: 0x4029_d70a_3d70_a3d7 });
    let most = double_value(Double { bits: 0x3f69_a5c3_7387_b719 });
    lemma_line_limit(k, exact(g, x), most);
    assert(k * most <= (0x14_b5dc_c63f_1412int as real) / (0x200_0000_0000_0000int as real)) by (nonlinear_arith)
        requires
            k == (0x19_d70a_3d70_a3d7int as real) / (0x2_0000_0000_0000int as real),
            most == (0x19_a5c3_7387_b719int as real) / (0x2000_0000_0000_0000int as real),
    ;
}

} // verus!
