//! Adaptation between whites, apart from rounding and with it: the one white
//! becomes the other.

use vstd::arithmetic::power2::lemma2_to64_rest;
use vstd::prelude::*;

use crate::arith::{dot3, double, evaluates, is_double, is_single, narrow, plus, single, times};
use crate::arith::{Arithmetic, Binary, Formula, Sample, Unary};
use crate::bits::{Double, Single};
use crate::colorspace::{adaptation, forward, gain, inverse, response, CAT02_FORWARD_F64};
use crate::colorspace::{is_adaptation, is_image, leaves3, wide_leaves3, CAT02_INVERSE_F64};
use crate::exact::{double_value, exact, single_value, size_of_real, Functions};
use crate::interp::num;
use crate::rounding::{lemma_tracks_leaf, lemma_tracks_over, lemma_tracks_plus, lemma_tracks_times};
use crate::rounding::{lemma_binary_single, lemma_narrowed, lemma_tracks_widened, sound};
use crate::rounding::{sound_single, tracks};

verus! {

/// Entry of a matrix of encodings, as a number.
pub open spec fn entry_value(m: [[u64; 3]; 3], i: int, j: int) -> real {
    double_value(Double { bits: m@[i]@[j] })
}

/// The entries of the one matrix, each a whole number over a power of two.
proof fn lemma_forward_values()
    ensures
        entry_value(CAT02_FORWARD_F64, 0, 0) == (0x17_7318_fc50_4817int as real) / (0x20_0000_0000_0000int as real),
        entry_value(CAT02_FORWARD_F64, 0, 1) == (0x1b_7e90_ff97_2474int as real) / (0x40_0000_0000_0000int as real),
        entry_value(CAT02_FORWARD_F64, 0, 2) == -((0x14_c985_f06f_6944int as real) / (0x80_0000_0000_0000int as real)),
        entry_value(CAT02_FORWARD_F64, 1, 0) == -((0x16_83e4_25ae_e632int as real) / (0x20_0000_0000_0000int as real)),
        entry_value(CAT02_FORWARD_F64, 1, 1) == (0x1b_28f5_c28f_5c29int as real) / (0x10_0000_0000_0000int as real),
        entry_value(CAT02_FORWARD_F64, 1, 2) == (0x18_fc50_4816_f007int as real) / (0x1000_0000_0000_0000int as real),
        entry_value(CAT02_FORWARD_F64, 2, 0) == (0x18_9374_bc6a_7efaint as real) / (0x2000_0000_0000_0000int as real),
        entry_value(CAT02_FORWARD_F64, 2, 1) == (0x1b_da51_19ce_075fint as real) / (0x800_0000_0000_0000int as real),
        entry_value(CAT02_FORWARD_F64, 2, 2) == (0x1f_7803_46dc_5d64int as real) / (0x20_0000_0000_0000int as real),
{
    lemma2_to64_rest();
    assert(CAT02_FORWARD_F64@[0]@[0] == 0x3fe7_7318_fc50_4817);
    assert(CAT02_FORWARD_F64@[0]@[1] == 0x3fdb_7e90_ff97_2474);
    assert(CAT02_FORWARD_F64@[0]@[2] == 0xbfc4_c985_f06f_6944);
    assert(CAT02_FORWARD_F64@[1]@[0] == 0xbfe6_83e4_25ae_e632);
    assert(CAT02_FORWARD_F64@[1]@[1] == 0x3ffb_28f5_c28f_5c29);
    assert(CAT02_FORWARD_F64@[1]@[2] == 0x3f78_fc50_4816_f007);
    assert(CAT02_FORWARD_F64@[2]@[0] == 0x3f68_9374_bc6a_7efa);
    assert(CAT02_FORWARD_F64@[2]@[1] == 0x3f8b_da51_19ce_075f);
    assert(CAT02_FORWARD_F64@[2]@[2] == 0x3fef_7803_46dc_5d64);
}

/// The entries of the other matrix.
proof fn lemma_inverse_values()
    ensures
        entry_value(CAT02_INVERSE_F64, 0, 0) == (0x11_89b9_21ad_ae79int as real) / (0x10_0000_0000_0000int as real),
        entry_value(CAT02_INVERSE_F64, 0, 1) == -((0x11_d8fd_5cf3_9190int as real) / (0x40_0000_0000_0000int as real)),
        entry_value(CAT02_INVERSE_F64, 0, 2) == (0x17_6431_ac79_af57int as real) / (0x80_0000_0000_0000int as real),
        entry_value(CAT02_INVERSE_F64, 1, 0) == (0x1d_1461_e3e6_5650int as real) / (0x40_0000_0000_0000int as real),
        entry_value(CAT02_INVERSE_F64, 1, 1) == (0x1e_4e5e_00d4_9c91int as real) / (0x40_0000_0000_0000int as real),
        entry_value(CAT02_INVERSE_F64, 1, 2) == (0x12_7500_6d14_347bint as real) / (0x100_0000_0000_0000int as real),
        entry_value(CAT02_INVERSE_F64, 2, 0) == -((0x13_b7a3_c55c_a4e3int as real) / (0x800_0000_0000_0000int as real)),
        entry_value(CAT02_INVERSE_F64, 2, 1) == -((0x17_56d1_9b98_bff6int as real) / (0x1000_0000_0000_0000int as real)),
        entry_value(CAT02_INVERSE_F64, 2, 2) == (0x10_3ec6_1926_520eint as real) / (0x10_0000_0000_0000int as real),
{
    lemma2_to64_rest();
    assert(CAT02_INVERSE_F64@[0]@[0] == 0x3ff1_89b9_21ad_ae79);
    assert(CAT02_INVERSE_F64@[0]@[1] == 0xbfd1_d8fd_5cf3_9190);
    assert(CAT02_INVERSE_F64@[0]@[2] == 0x3fc7_6431_ac79_af57);
    assert(CAT02_INVERSE_F64@[1]@[0] == 0x3fdd_1461_e3e6_5650);
    assert(CAT02_INVERSE_F64@[1]@[1] == 0x3fde_4e5e_00d4_9c91);
    assert(CAT02_INVERSE_F64@[1]@[2] == 0x3fb2_7500_6d14_347b);
    assert(CAT02_INVERSE_F64@[2]@[0] == 0xbf83_b7a3_c55c_a4e3);
    assert(CAT02_INVERSE_F64@[2]@[1] == 0xbf77_56d1_9b98_bff6);
    assert(CAT02_INVERSE_F64@[2]@[2] == 0x3ff0_3ec6_1926_520e);
}

/// How far the two matrices of the adaptation are from undoing each other.
pub open spec fn inverse_error(i: int, j: int) -> real {
    let sum = entry_value(CAT02_INVERSE_F64, i, 0) * entry_value(CAT02_FORWARD_F64, 0, j)
        + entry_value(CAT02_INVERSE_F64, i, 1) * entry_value(CAT02_FORWARD_F64, 1, j)
        + entry_value(CAT02_INVERSE_F64, i, 2) * entry_value(CAT02_FORWARD_F64, 2, j);
    if i == j {
        sum - 1real
    } else {
        sum
    }
}

/// 1e-15.
pub open spec fn tiny() -> real {
    1real / 1000000000000000real
}

/// The two matrices of the adaptation undo each other within 1e-15.
pub proof fn lemma_inverse_error(i: int, j: int)
    requires
        0 <= i < 3,
        0 <= j < 3,
    ensures
        size_of_real(inverse_error(i, j)) <= tiny(),
{
    lemma_forward_values();
    lemma_inverse_values();
    if i == 0 && j == 0 {
        let v0 = entry_value(CAT02_INVERSE_F64, 0, 0);
        let f0 = entry_value(CAT02_FORWARD_F64, 0, 0);
        let v1 = entry_value(CAT02_INVERSE_F64, 0, 1);
        let f1 = entry_value(CAT02_FORWARD_F64, 1, 0);
        let v2 = entry_value(CAT02_INVERSE_F64, 0, 2);
        let f2 = entry_value(CAT02_FORWARD_F64, 2, 0);
        let e = v0 * f0 + v1 * f1 + v2 * f2 - 1real;
        assert(-1real / 1000000000000000real <= e <= 1real / 1000000000000000real) by (nonlinear_arith)
            requires
                v0 == (0x11_89b9_21ad_ae79int as real) / (0x10_0000_0000_0000int as real),
                f0 == (0x17_7318_fc50_4817int as real) / (0x20_0000_0000_0000int as real),
                v1 == -((0x11_d8fd_5cf3_9190int as real) / (0x40_0000_0000_0000int as real)),
                f1 == -((0x16_83e4_25ae_e632int as real) / (0x20_0000_0000_0000int as real)),
                v2 == (0x17_6431_ac79_af57int as real) / (0x80_0000_0000_0000int as real),
                f2 == (0x18_9374_bc6a_7efaint as real) / (0x2000_0000_0000_0000int as real),
                e == v0 * f0 + v1 * f1 + v2 * f2 - 1real,
        ;
    } else if i == 0 && j == 1 {
        let v0 = entry_value(CAT02_INVERSE_F64, 0, 0);
        let f0 = entry_value(CAT02_FORWARD_F64, 0, 1);
        let v1 = entry_value(CAT02_INVERSE_F64, 0, 1);
        let f1 = entry_value(CAT02_FORWARD_F64, 1, 1);
        let v2 = entry_value(CAT02_INVERSE_F64, 0, 2);
        let f2 = entry_value(CAT02_FORWARD_F64, 2, 1);
        let e = v0 * f0 + v1 * f1 + v2 * f2;
        assert(-1real / 1000000000000000real <= e <= 1real / 1000000000000000real) by (nonlinear_arith)
            requires
                v0 == (0x11_89b9_21ad_ae79int as real) / (0x10_0000_0000_0000int as real),
                f0 == (0x1b_7e90_ff97_2474int as real) / (0x40_0000_0000_0000int as real),
                v1 == -((0x11_d8fd_5cf3_9190int as real) / (0x40_0000_0000_0000int as real)),
                f1 == (0x1b_28f5_c28f_5c29int as real) / (0x10_0000_0000_0000int as real),
                v2 == (0x17_6431_ac79_af57int as real) / (0x80_0000_0000_0000int as real),
                f2 == (0x1b_da51_19ce_075fint as real) / (0x800_0000_0000_0000int as real),
                e == v0 * f0 + v1 * f1 + v2 * f2,
        ;
    } else if i == 0 && j == 2 {
        let v0 = entry_value(CAT02_INVERSE_F64, 0, 0);
        let f0 = entry_value(CAT02_FORWARD_F64, 0, 2);
        let v1 = entry_value(CAT02_INVERSE_F64, 0, 1);
        let f1 = entry_value(CAT02_FORWARD_F64, 1, 2);
        let v2 = entry_value(CAT02_INVERSE_F64, 0, 2);
        let f2 = entry_value(CAT02_FORWARD_F64, 2, 2);
        let e = v0 * f0 + v1 * f1 + v2 * f2;
        assert(-1real / 1000000000000000real <= e <= 1real / 1000000000000000real) by (nonlinear_arith)
            requires
                v0 == (0x11_89b9_21ad_ae79int as real) / (0x10_0000_0000_0000int as real),
                f0 == -((0x14_c985_f06f_6944int as real) / (0x80_0000_0000_0000int as real)),
                v1 == -((0x11_d8fd_5cf3_9190int as real) / (0x40_0000_0000_0000int as real)),
                f1 == (0x18_fc50_4816_f007int as real) / (0x1000_0000_0000_0000int as real),
                v2 == (0x17_6431_ac79_af57int as real) / (0x80_0000_0000_0000int as real),
                f2 == (0x1f_7803_46dc_5d64int as real) / (0x20_0000_0000_0000int as real),
                e == v0 * f0 + v1 * f1 + v2 * f2,
        ;
    } else if i == 1 && j == 0 {
        let v0 = entry_value(CAT02_INVERSE_F64, 1, 0);
        let f0 = entry_value(CAT02_FORWARD_F64, 0, 0);
        let v1 = entry_value(CAT02_INVERSE_F64, 1, 1);
        let f1 = entry_value(CAT02_FORWARD_F64, 1, 0);
        let v2 = entry_value(CAT02_INVERSE_F64, 1, 2);
        let f2 = entry_value(CAT02_FORWARD_F64, 2, 0);
        let e = v0 * f0 + v1 * f1 + v2 * f2;
        assert(-1real / 1000000000000000real <= e <= 1real / 1000000000000000real) by (nonlinear_arith)
            requires
                v0 == (0x1d_1461_e3e6_5650int as real) / (0x40_0000_0000_0000int as real),
                f0 == (0x17_7318_fc50_4817int as real) / (0x20_0000_0000_0000int as real),
                v1 == (0x1e_4e5e_00d4_9c91int as real) / (0x40_0000_0000_0000int as real),
                f1 == -((0x16_83e4_25ae_e632int as real) / (0x20_0000_0000_0000int as real)),
                v2 == (0x12_7500_6d14_347bint as real) / (0x100_0000_0000_0000int as real),
                f2 == (0x18_9374_bc6a_7efaint as real) / (0x2000_0000_0000_0000int as real),
                e == v0 * f0 + v1 * f1 + v2 * f2,
        ;
    } else if i == 1 && j == 1 {
        let v0 = entry_value(CAT02_INVERSE_F64, 1, 0);
        let f0 = entry_value(CAT02_FORWARD_F64, 0, 1);
        let v1 = entry_value(CAT02_INVERSE_F64, 1, 1);
        let f1 = entry_value(CAT02_FORWARD_F64, 1, 1);
        let v2 = entry_value(CAT02_INVERSE_F64, 1, 2);
        let f2 = entry_value(CAT02_FORWARD_F64, 2, 1);
        let e = v0 * f0 + v1 * f1 + v2 * f2 - 1real;
        assert(-1real / 1000000000000000real <= e <= 1real / 1000000000000000real) by (nonlinear_arith)
            requires
                v0 == (0x1d_1461_e3e6_5650int as real) / (0x40_0000_0000_0000int as real),
                f0 == (0x1b_7e90_ff97_2474int as real) / (0x40_0000_0000_0000int as real),
                v1 == (0x1e_4e5e_00d4_9c91int as real) / (0x40_0000_0000_0000int as real),
                f1 == (0x1b_28f5_c28f_5c29int as real) / (0x10_0000_0000_0000int as real),
                v2 == (0x12_7500_6d14_347bint as real) / (0x100_0000_0000_0000int as real),
                f2 == (0x1b_da51_19ce_075fint as real) / (0x800_0000_0000_0000int as real),
                e == v0 * f0 + v1 * f1 + v2 * f2 - 1real,
        ;
    } else if i == 1 && j == 2 {
        let v0 = entry_value(CAT02_INVERSE_F64, 1, 0);
        let f0 = entry_value(CAT02_FORWARD_F64, 0, 2);
        let v1 = entry_value(CAT02_INVERSE_F64, 1, 1);
        let f1 = entry_value(CAT02_FORWARD_F64, 1, 2);
        let v2 = entry_value(CAT02_INVERSE_F64, 1, 2);
        let f2 = entry_value(CAT02_FORWARD_F64, 2, 2);
        let e = v0 * f0 + v1 * f1 + v2 * f2;
        assert(-1real / 1000000000000000real <= e <= 1real / 1000000000000000real) by (nonlinear_arith)
            requires
                v0 == (0x1d_1461_e3e6_5650int as real) / (0x40_0000_0000_0000int as real),
                f0 == -((0x14_c985_f06f_6944int as real) / (0x80_0000_0000_0000int as real)),
                v1 == (0x1e_4e5e_00d4_9c91int as real) / (0x40_0000_0000_0000int as real),
                f1 == (0x18_fc50_4816_f007int as real) / (0x1000_0000_0000_0000int as real),
                v2 == (0x12_7500_6d14_347bint as real) / (0x100_0000_0000_0000int as real),
                f2 == (0x1f_7803_46dc_5d64int as real) / (0x20_0000_0000_0000int as real),
                e == v0 * f0 + v1 * f1 + v2 * f2,
        ;
    } else if i == 2 && j == 0 {
        let v0 = entry_value(CAT02_INVERSE_F64, 2, 0);
        let f0 = entry_value(CAT02_FORWARD_F64, 0, 0);
        let v1 = entry_value(CAT02_INVERSE_F64, 2, 1);
        let f1 = entry_value(CAT02_FORWARD_F64, 1, 0);
        let v2 = entry_value(CAT02_INVERSE_F64, 2, 2);
        let f2 = entry_value(CAT02_FORWARD_F64, 2, 0);
        let e = v0 * f0 + v1 * f1 + v2 * f2;
        assert(-1real / 1000000000000000real <= e <= 1real / 1000000000000000real) by (nonlinear_arith)
            requires
                v0 == -((0x13_b7a3_c55c_a4e3int as real) / (0x800_0000_0000_0000int as real)),
                f0 == (0x17_7318_fc50_4817int as real) / (0x20_0000_0000_0000int as real),
                v1 == -((0x17_56d1_9b98_bff6int as real) / (0x1000_0000_0000_0000int as real)),
                f1 == -((0x16_83e4_25ae_e632int as real) / (0x20_0000_0000_0000int as real)),
                v2 == (0x10_3ec6_1926_520eint as real) / (0x10_0000_0000_0000int as real),
                f2 == (0x18_9374_bc6a_7efaint as real) / (0x2000_0000_0000_0000int as real),
                e == v0 * f0 + v1 * f1 + v2 * f2,
        ;
    } else if i == 2 && j == 1 {
        let v0 = entry_value(CAT02_INVERSE_F64, 2, 0);
        let f0 = entry_value(CAT02_FORWARD_F64, 0, 1);
        let v1 = entry_value(CAT02_INVERSE_F64, 2, 1);
        let f1 = entry_value(CAT02_FORWARD_F64, 1, 1);
        let v2 = entry_value(CAT02_INVERSE_F64, 2, 2);
        let f2 = entry_value(CAT02_FORWARD_F64, 2, 1);
        let e = v0 * f0 + v1 * f1 + v2 * f2;
        assert(-1real / 1000000000000000real <= e <= 1real / 1000000000000000real) by (nonlinear_arith)
            requires
                v0 == -((0x13_b7a3_c55c_a4e3int as real) / (0x800_0000_0000_0000int as real)),
                f0 == (0x1b_7e90_ff97_2474int as real) / (0x40_0000_0000_0000int as real),
                v1 == -((0x17_56d1_9b98_bff6int as real) / (0x1000_0000_0000_0000int as real)),
                f1 == (0x1b_28f5_c28f_5c29int as real) / (0x10_0000_0000_0000int as real),
                v2 == (0x10_3ec6_1926_520eint as real) / (0x10_0000_0000_0000int as real),
                f2 == (0x1b_da51_19ce_075fint as real) / (0x800_0000_0000_0000int as real),
                e == v0 * f0 + v1 * f1 + v2 * f2,
        ;
    } else if i == 2 && j == 2 {
        let v0 = entry_value(CAT02_INVERSE_F64, 2, 0);
        let f0 = entry_value(CAT02_FORWARD_F64, 0, 2);
        let v1 = entry_value(CAT02_INVERSE_F64, 2, 1);
        let f1 = entry_value(CAT02_FORWARD_F64, 1, 2);
        let v2 = entry_value(CAT02_INVERSE_F64, 2, 2);
        let f2 = entry_value(CAT02_FORWARD_F64, 2, 2);
        let e = v0 * f0 + v1 * f1 + v2 * f2 - 1real;
        assert(-1real / 1000000000000000real <= e <= 1real / 1000000000000000real) by (nonlinear_arith)
            requires
                v0 == -((0x13_b7a3_c55c_a4e3int as real) / (0x800_0000_0000_0000int as real)),
                f0 == -((0x14_c985_f06f_6944int as real) / (0x80_0000_0000_0000int as real)),
                v1 == -((0x17_56d1_9b98_bff6int as real) / (0x1000_0000_0000_0000int as real)),
                f1 == (0x18_fc50_4816_f007int as real) / (0x1000_0000_0000_0000int as real),
                v2 == (0x10_3ec6_1926_520eint as real) / (0x10_0000_0000_0000int as real),
                f2 == (0x1f_7803_46dc_5d64int as real) / (0x20_0000_0000_0000int as real),
                e == v0 * f0 + v1 * f1 + v2 * f2 - 1real,
        ;
    }
}

proof fn lemma_times_sum(x: real, a: real, b: real, c: real)
    by (nonlinear_arith)
    ensures
        x * (a + b + c) == x * a + x * b + x * c,
        (a + b + c) * x == a * x + b * x + c * x,
{
}

proof fn lemma_regrouped(a: real, b: real, c: real)
    by (nonlinear_arith)
    ensures
        a * b * c == a * (b * c),
{
}

/// What one cone adds to a channel of an adapted colour.
proof fn lemma_cone(v: real, g: real, f: (real, real, real), s: (real, real, real))
    ensures
        (v * g * f.0) * s.0 + (v * g * f.1) * s.1 + (v * g * f.2) * s.2 == v * (g * (f.0 * s.0
            + f.1 * s.1 + f.2 * s.2)),
{
    lemma_times_sum(g, f.0 * s.0, f.1 * s.1, f.2 * s.2);
    lemma_times_sum(v, g * (f.0 * s.0), g * (f.1 * s.1), g * (f.2 * s.2));
    lemma_regrouped(v * g, f.0, s.0);
    lemma_regrouped(v * g, f.1, s.1);
    lemma_regrouped(v * g, f.2, s.2);
    lemma_regrouped(v, g, f.0 * s.0);
    lemma_regrouped(v, g, f.1 * s.1);
    lemma_regrouped(v, g, f.2 * s.2);
}

proof fn lemma_gathered(
    v: (real, real, real),
    g: (real, real, real),
    f0: (real, real, real),
    f1: (real, real, real),
    f2: (real, real, real),
    s: (real, real, real),
)
    ensures
        (v.0 * g.0 * f0.0 + v.1 * g.1 * f1.0 + v.2 * g.2 * f2.0) * s.0 + (v.0 * g.0 * f0.1 + v.1
            * g.1 * f1.1 + v.2 * g.2 * f2.1) * s.1 + (v.0 * g.0 * f0.2 + v.1 * g.1 * f1.2 + v.2
            * g.2 * f2.2) * s.2 == v.0 * (g.0 * (f0.0 * s.0 + f0.1 * s.1 + f0.2 * s.2)) + v.1 * (
        g.1 * (f1.0 * s.0 + f1.1 * s.1 + f1.2 * s.2)) + v.2 * (g.2 * (f2.0 * s.0 + f2.1 * s.1
            + f2.2 * s.2)),
{
    lemma_times_sum(s.0, v.0 * g.0 * f0.0, v.1 * g.1 * f1.0, v.2 * g.2 * f2.0);
    lemma_times_sum(s.1, v.0 * g.0 * f0.1, v.1 * g.1 * f1.1, v.2 * g.2 * f2.1);
    lemma_times_sum(s.2, v.0 * g.0 * f0.2, v.1 * g.1 * f1.2, v.2 * g.2 * f2.2);
    lemma_cone(v.0, g.0, f0, s);
    lemma_cone(v.1, g.1, f1, s);
    lemma_cone(v.2, g.2, f2, s);
}

proof fn lemma_spread(
    v: (real, real, real),
    f0: (real, real, real),
    f1: (real, real, real),
    f2: (real, real, real),
    d: (real, real, real),
)
    ensures
        v.0 * (f0.0 * d.0 + f0.1 * d.1 + f0.2 * d.2) + v.1 * (f1.0 * d.0 + f1.1 * d.1 + f1.2 * d.2)
            + v.2 * (f2.0 * d.0 + f2.1 * d.1 + f2.2 * d.2) == (v.0 * f0.0 + v.1 * f1.0 + v.2
            * f2.0) * d.0 + (v.0 * f0.1 + v.1 * f1.1 + v.2 * f2.1) * d.1 + (v.0 * f0.2 + v.1 * f1.2
            + v.2 * f2.2) * d.2,
{
    lemma_times_sum(v.0, f0.0 * d.0, f0.1 * d.1, f0.2 * d.2);
    lemma_times_sum(v.1, f1.0 * d.0, f1.1 * d.1, f1.2 * d.2);
    lemma_times_sum(v.2, f2.0 * d.0, f2.1 * d.1, f2.2 * d.2);
    lemma_times_sum(d.0, v.0 * f0.0, v.1 * f1.0, v.2 * f2.0);
    lemma_times_sum(d.1, v.0 * f0.1, v.1 * f1.1, v.2 * f2.1);
    lemma_times_sum(d.2, v.0 * f0.2, v.1 * f1.2, v.2 * f2.2);
    lemma_regrouped(v.0, f0.0, d.0);
    lemma_regrouped(v.0, f0.1, d.1);
    lemma_regrouped(v.0, f0.2, d.2);
    lemma_regrouped(v.1, f1.0, d.0);
    lemma_regrouped(v.1, f1.1, d.1);
    lemma_regrouped(v.1, f1.2, d.2);
    lemma_regrouped(v.2, f2.0, d.0);
    lemma_regrouped(v.2, f2.1, d.1);
    lemma_regrouped(v.2, f2.2, d.2);
}

proof fn lemma_ratio_undone(a: real, b: real)
    by (nonlinear_arith)
    requires
        b != 0real,
    ensures
        (a / b) * b == a,
{
}

proof fn lemma_small_share(e: real, t: real, d: real)
    by (nonlinear_arith)
    requires
        -t <= e <= t,
    ensures
        d >= 0real ==> -(t * d) <= e * d <= t * d,
        d < 0real ==> -(t * -d) <= e * d <= t * -d,
{
}

/// A colour under the white `src`, adapted to the white `dst`: channel `i`.
pub open spec fn adapted_channel(
    i: int,
    src: Seq<Formula>,
    dst: Seq<Formula>,
    colour: Seq<Formula>,
) -> Formula {
    dot3(
        seq![adaptation(i, 0, src, dst), adaptation(i, 1, src, dst), adaptation(i, 2, src, dst)],
        colour,
    )
}

/// Without rounding, the adaptation takes the one white to the other, within
/// 1e-15 of the sum of the latter's channels. A white that a cone does not
/// respond to has no adaptation.
pub proof fn lemma_white_adapted(g: Functions, src: Seq<Formula>, dst: Seq<Formula>, i: int)
    requires
        exact(g, response(0, src)) != 0real,
        exact(g, response(1, src)) != 0real,
        exact(g, response(2, src)) != 0real,
        0 <= i < 3,
    ensures
        size_of_real(exact(g, adapted_channel(i, src, dst, src)) - exact(g, dst[i])) <= tiny() * (
        size_of_real(exact(g, dst[0])) + size_of_real(exact(g, dst[1])) + size_of_real(
            exact(g, dst[2]),
        )),
{
    let f = |k: int, j: int| entry_value(CAT02_FORWARD_F64, k, j);
    let f0 = (f(0, 0), f(0, 1), f(0, 2));
    let f1 = (f(1, 0), f(1, 1), f(1, 2));
    let f2 = (f(2, 0), f(2, 1), f(2, 2));
    let v = (
        entry_value(CAT02_INVERSE_F64, i, 0),
        entry_value(CAT02_INVERSE_F64, i, 1),
        entry_value(CAT02_INVERSE_F64, i, 2),
    );
    let s = (exact(g, src[0]), exact(g, src[1]), exact(g, src[2]));
    let d = (exact(g, dst[0]), exact(g, dst[1]), exact(g, dst[2]));
    let k = (exact(g, gain(0, src, dst)), exact(g, gain(1, src, dst)), exact(g, gain(2, src, dst)));
    lemma_dot(g, 0, src);
    lemma_dot(g, 1, src);
    lemma_dot(g, 2, src);
    lemma_dot(g, 0, dst);
    lemma_dot(g, 1, dst);
    lemma_dot(g, 2, dst);
    lemma_ratio_undone(exact(g, response(0, dst)), exact(g, response(0, src)));
    lemma_ratio_undone(exact(g, response(1, dst)), exact(g, response(1, src)));
    lemma_ratio_undone(exact(g, response(2, dst)), exact(g, response(2, src)));
    lemma_gathered(v, k, f0, f1, f2, s);
    lemma_spread(v, f0, f1, f2, d);
    lemma_row(g, i, 0, src, dst);
    lemma_row(g, i, 1, src, dst);
    lemma_row(g, i, 2, src, dst);
    lemma_inverse_error(i, 0);
    lemma_inverse_error(i, 1);
    lemma_inverse_error(i, 2);
    let (e0, e1, e2) = (inverse_error(i, 0), inverse_error(i, 1), inverse_error(i, 2));
    lemma_small_share(e0, tiny(), d.0);
    lemma_small_share(e1, tiny(), d.1);
    lemma_small_share(e2, tiny(), d.2);
    lemma_times_sum(tiny(), size_of_real(d.0), size_of_real(d.1), size_of_real(d.2));
    lemma_one_more(e0, d.0);
    lemma_one_more(e1, d.1);
    lemma_one_more(e2, d.2);
    lemma_channel(g, i, src, dst, src);
    assert(k.0 == exact(g, response(0, dst)) / exact(g, response(0, src)));
    assert(k.1 == exact(g, response(1, dst)) / exact(g, response(1, src)));
    assert(k.2 == exact(g, response(2, dst)) / exact(g, response(2, src)));
    let reached = exact(g, adapted_channel(i, src, dst, src));
    assert(reached == v.0 * exact(g, response(0, dst)) + v.1 * exact(g, response(1, dst)) + v.2
        * exact(g, response(2, dst)));
    assert(reached - exact(g, dst[i]) == e0 * d.0 + e1 * d.1 + e2 * d.2);
}

proof fn lemma_one_more(e: real, d: real)
    by (nonlinear_arith)
    ensures
        (e + 1real) * d == e * d + d,
{
}

proof fn lemma_channel(
    g: Functions,
    i: int,
    src: Seq<Formula>,
    dst: Seq<Formula>,
    colour: Seq<Formula>,
)
    ensures
        exact(g, adapted_channel(i, src, dst, colour)) == exact(g, adaptation(i, 0, src, dst))
            * exact(g, colour[0]) + exact(g, adaptation(i, 1, src, dst)) * exact(g, colour[1])
            + exact(g, adaptation(i, 2, src, dst)) * exact(g, colour[2]),
{
    reveal_with_fuel(exact, 4);
}

proof fn lemma_dot(g: Functions, i: int, white: Seq<Formula>)
    ensures
        exact(g, response(i, white)) == entry_value(CAT02_FORWARD_F64, i, 0) * exact(g, white[0])
            + entry_value(CAT02_FORWARD_F64, i, 1) * exact(g, white[1]) + entry_value(
            CAT02_FORWARD_F64,
            i,
            2,
        ) * exact(g, white[2]),
{
    reveal_with_fuel(exact, 4);
}

proof fn lemma_row(g: Functions, i: int, j: int, src: Seq<Formula>, dst: Seq<Formula>)
    ensures
        exact(g, adaptation(i, j, src, dst)) == entry_value(CAT02_INVERSE_F64, i, 0) * exact(
            g,
            gain(0, src, dst),
        ) * entry_value(CAT02_FORWARD_F64, 0, j) + entry_value(CAT02_INVERSE_F64, i, 1) * exact(
            g,
            gain(1, src, dst),
        ) * entry_value(CAT02_FORWARD_F64, 1, j) + entry_value(CAT02_INVERSE_F64, i, 2) * exact(
            g,
            gain(2, src, dst),
        ) * entry_value(CAT02_FORWARD_F64, 2, j),
{
    reveal_with_fuel(exact, 5);
}

/// Without rounding, the adaptation of a white to itself is the identity,
/// within 1e-15.
pub proof fn lemma_same_white(g: Functions, white: Seq<Formula>, i: int, j: int)
    requires
        exact(g, response(0, white)) != 0real,
        exact(g, response(1, white)) != 0real,
        exact(g, response(2, white)) != 0real,
        0 <= i < 3,
        0 <= j < 3,
    ensures
        size_of_real(
            exact(g, adaptation(i, j, white, white)) - if i == j {
                1real
            } else {
                0real
            },
        ) <= tiny(),
{
    lemma_row(g, i, j, white, white);
    lemma_own_ratio(exact(g, response(0, white)));
    lemma_own_ratio(exact(g, response(1, white)));
    lemma_own_ratio(exact(g, response(2, white)));
    assert(exact(g, gain(0, white, white)) == 1real);
    assert(exact(g, gain(1, white, white)) == 1real);
    assert(exact(g, gain(2, white, white)) == 1real);
    lemma_inverse_error(i, j);
    lemma_unit(entry_value(CAT02_INVERSE_F64, i, 0));
    lemma_unit(entry_value(CAT02_INVERSE_F64, i, 1));
    lemma_unit(entry_value(CAT02_INVERSE_F64, i, 2));
}

proof fn lemma_unit(a: real)
    by (nonlinear_arith)
    ensures
        a * 1real == a,
{
}

proof fn lemma_own_ratio(a: real)
    by (nonlinear_arith)
    requires
        a != 0real,
    ensures
        a / a == 1real,
{
}

// ── Under rounding ───────────────────────────────────────────────────────

/// Formulas of the four rules need no functions.
pub open spec fn plain() -> Functions {
    Functions { unary: |op: Unary, v: real| 0real, power: |a: real, b: real| 0real }
}

/// A white of three channels: none above 1.5, and every cone responds by 0.2
/// to 2.
pub open spec fn is_plain_white(white: Seq<Formula>) -> bool {
    &&& size_of_real(exact(plain(), white[0])) <= 3real / 2real
    &&& size_of_real(exact(plain(), white[1])) <= 3real / 2real
    &&& size_of_real(exact(plain(), white[2])) <= 3real / 2real
    &&& forall|k: int|
        0 <= k < 3 ==> 1real / 5real <= exact(plain(), #[trigger] response(k, white)) <= 2real
}

/// No cone responds to the one white more than four times as much as to the
/// other.
pub open spec fn is_reach(src: Seq<Formula>, dst: Seq<Formula>) -> bool {
    forall|k: int|
        0 <= k < 3 ==> exact(plain(), #[trigger] response(k, dst)) <= 4real * exact(
            plain(),
            response(k, src),
        )
}

/// Such a white in three formulas that are not rounded.
spec fn is_common_white<A: Arithmetic>(ar: &A, white: Seq<Formula>) -> bool {
    &&& tracks(ar, plain(), white[0], 3real / 2real, 0real)
    &&& tracks(ar, plain(), white[1], 3real / 2real, 0real)
    &&& tracks(ar, plain(), white[2], 3real / 2real, 0real)
    &&& forall|k: int|
        0 <= k < 3 ==> 1real / 5real <= exact(plain(), #[trigger] response(k, white)) <= 2real
}

proof fn lemma_entries<A: Arithmetic>(ar: &A, i: int, j: int)
    requires
        0 <= i < 3,
        0 <= j < 3,
    ensures
        tracks(ar, plain(), forward(i, j), 17real / 10real, 0real),
        tracks(ar, plain(), inverse(i, j), 11real / 10real, 0real),
{
    lemma_forward_values();
    lemma_inverse_values();
    let f = Double { bits: CAT02_FORWARD_F64@[i]@[j] };
    let v = Double { bits: CAT02_INVERSE_F64@[i]@[j] };
    assert(f.finite() && v.finite()) by {
        lemma_finite_entries(i, j);
    }
    lemma_tracks_leaf(ar, plain(), f, 17real / 10real);
    lemma_tracks_leaf(ar, plain(), v, 11real / 10real);
}

proof fn lemma_finite_entries(i: int, j: int)
    requires
        0 <= i < 3,
        0 <= j < 3,
    ensures
        (Double { bits: CAT02_FORWARD_F64@[i]@[j] }).finite(),
        (Double { bits: CAT02_INVERSE_F64@[i]@[j] }).finite(),
{
}

proof fn lemma_term_tracks<A: Arithmetic>(ar: &A, f: Formula, w: Formula)
    requires
        sound(ar),
        tracks(ar, plain(), f, 17real / 10real, 0real),
        tracks(ar, plain(), w, 3real / 2real, 0real),
    ensures
        tracks(ar, plain(), times(f, w), 255real / 100real, 1real / 100000000000000real),
{
    let sizes = (17real / 10real, 3real / 2real);
    let errors = (0real, 0real);
    lemma_plain_term(sizes.0, sizes.1, errors.0, errors.1);
    lemma_tracks_times(ar, plain(), f, w, sizes, errors, 1real / 100000000000000real);
}

proof fn lemma_plain_term(m: real, n: real, d: real, e: real)
    by (nonlinear_arith)
    requires
        m == 17real / 10real,
        n == 3real / 2real,
        d == 0real,
        e == 0real,
    ensures
        m * n == 255real / 100real,
        m * e + n * d + d * e == 0real,
{
}

proof fn lemma_response_tracks<A: Arithmetic>(ar: &A, k: int, white: Seq<Formula>)
    requires
        sound(ar),
        is_common_white(ar, white),
        0 <= k < 3,
    ensures
        tracks(ar, plain(), response(k, white), 2real, 5real / 100000000000000real),
{
    lemma_entries(ar, k, 0);
    lemma_entries(ar, k, 1);
    lemma_entries(ar, k, 2);
    let g = plain();
    let (a, b, c) = (
        times(forward(k, 0), white[0]),
        times(forward(k, 1), white[1]),
        times(forward(k, 2), white[2]),
    );
    lemma_term_tracks(ar, forward(k, 0), white[0]);
    lemma_term_tracks(ar, forward(k, 1), white[1]);
    lemma_term_tracks(ar, forward(k, 2), white[2]);
    lemma_tracks_plus(
        ar,
        g,
        a,
        b,
        (255real / 100real, 255real / 100real),
        (1real / 100000000000000real, 1real / 100000000000000real),
        3real / 100000000000000real,
    );
    lemma_tracks_plus(
        ar,
        g,
        plus(a, b),
        c,
        (51real / 10real, 255real / 100real),
        (3real / 100000000000000real, 1real / 100000000000000real),
        5real / 100000000000000real,
    );
    assert(response(k, white) == plus(plus(a, b), c));
    assert(size_of_real(exact(g, response(k, white))) <= 2real);
}

proof fn lemma_gain_limits(a: real, b: real)
    by (nonlinear_arith)
    requires
        0real <= a <= 4real * b,
        1real / 5real <= b,
    ensures
        0real <= a / b <= 4real,
{
    assert((a / b) * b == a);
}

proof fn lemma_gain_tracks<A: Arithmetic>(ar: &A, k: int, src: Seq<Formula>, dst: Seq<Formula>)
    requires
        sound(ar),
        is_common_white(ar, src),
        is_common_white(ar, dst),
        is_reach(src, dst),
        0 <= k < 3,
    ensures
        tracks(ar, plain(), gain(k, src, dst), 4real, 3real / 100000000000real),
{
    let g = plain();
    let e = 5real / 100000000000000real;
    lemma_response_tracks(ar, k, src);
    lemma_response_tracks(ar, k, dst);
    lemma_tracks_over(
        ar,
        g,
        response(k, dst),
        response(k, src),
        (2real, 2real),
        (e, e),
        3real / 100000000000real,
    );
    lemma_gain_limits(exact(g, response(k, dst)), exact(g, response(k, src)));
    assert(exact(g, gain(k, src, dst)) == exact(g, response(k, dst)) / exact(
        g,
        response(k, src),
    ));
}

proof fn lemma_cone_tracks<A: Arithmetic>(
    ar: &A,
    i: int,
    k: int,
    j: int,
    src: Seq<Formula>,
    dst: Seq<Formula>,
)
    requires
        sound(ar),
        is_common_white(ar, src),
        is_common_white(ar, dst),
        is_reach(src, dst),
        0 <= i < 3,
        0 <= k < 3,
        0 <= j < 3,
    ensures
        tracks(
            ar,
            plain(),
            times(times(inverse(i, k), gain(k, src, dst)), forward(k, j)),
            75real / 10real,
            7real / 100000000000real,
        ),
{
    let g = plain();
    lemma_entries(ar, i, k);
    lemma_entries(ar, k, j);
    lemma_gain_tracks(ar, k, src, dst);
    lemma_tracks_times(
        ar,
        g,
        inverse(i, k),
        gain(k, src, dst),
        (11real / 10real, 4real),
        (0real, 3real / 100000000000real),
        4real / 100000000000real,
    );
    lemma_tracks_times(
        ar,
        g,
        times(inverse(i, k), gain(k, src, dst)),
        forward(k, j),
        (44real / 10real, 17real / 10real),
        (4real / 100000000000real, 0real),
        7real / 100000000000real,
    );
}

/// Where the arithmetic rounds as it should, an entry of the adaptation is
/// within 3e-10 of its exact value.
proof fn lemma_adaptation_tracks<A: Arithmetic>(
    ar: &A,
    i: int,
    j: int,
    src: Seq<Formula>,
    dst: Seq<Formula>,
)
    requires
        sound(ar),
        is_common_white(ar, src),
        is_common_white(ar, dst),
        is_reach(src, dst),
        0 <= i < 3,
        0 <= j < 3,
    ensures
        tracks(ar, plain(), adaptation(i, j, src, dst), 225real / 10real, 3real / 10000000000real),
{
    let g = plain();
    lemma_cone_tracks(ar, i, 0, j, src, dst);
    lemma_cone_tracks(ar, i, 1, j, src, dst);
    lemma_cone_tracks(ar, i, 2, j, src, dst);
    let a = times(times(inverse(i, 0), gain(0, src, dst)), forward(0, j));
    let b = times(times(inverse(i, 1), gain(1, src, dst)), forward(1, j));
    let c = times(times(inverse(i, 2), gain(2, src, dst)), forward(2, j));
    let m = 75real / 10real;
    let e = 7real / 100000000000real;
    lemma_tracks_plus(ar, g, a, b, (m, m), (e, e), 15real / 100000000000real);
    lemma_tracks_plus(
        ar,
        g,
        plus(a, b),
        c,
        (15real, m),
        (15real / 100000000000real, e),
        3real / 10000000000real,
    );
}

proof fn lemma_image_error(
    m: (real, real, real),
    x: (real, real, real),
    v: (real, real, real),
    e: real,
)
    by (nonlinear_arith)
    requires
        -e <= m.0 - x.0 <= e,
        -e <= m.1 - x.1 <= e,
        -e <= m.2 - x.2 <= e,
        -(3real / 2real) <= v.0 <= 3real / 2real,
        -(3real / 2real) <= v.1 <= 3real / 2real,
        -(3real / 2real) <= v.2 <= 3real / 2real,
    ensures
        -(45real / 10real * e) <= (m.0 * v.0 + m.1 * v.1 + m.2 * v.2) - (x.0 * v.0 + x.1 * v.1
            + x.2 * v.2) <= 45real / 10real * e,
{
    lemma_share_of_error(m.0 - x.0, v.0, e);
    lemma_share_of_error(m.1 - x.1, v.1, e);
    lemma_share_of_error(m.2 - x.2, v.2, e);
    assert(m.0 * v.0 - x.0 * v.0 == (m.0 - x.0) * v.0);
    assert(m.1 * v.1 - x.1 * v.1 == (m.1 - x.1) * v.1);
    assert(m.2 * v.2 - x.2 * v.2 == (m.2 - x.2) * v.2);
}

proof fn lemma_share_of_error(d: real, v: real, e: real)
    by (nonlinear_arith)
    requires
        -e <= d <= e,
        -(3real / 2real) <= v <= 3real / 2real,
    ensures
        -(15real / 10real * e) <= d * v <= 15real / 10real * e,
{
}

/// A matrix times a vector, within 1e-12 of the exact product.
proof fn lemma_image_tracks<A: Arithmetic>(
    ar: &A,
    m: [[Double; 3]; 3],
    v: [Double; 3],
    i: int,
    r: Double,
)
    requires
        sound(ar),
        0 <= i < 3,
        forall|j: int|
            0 <= j < 3 ==> (#[trigger] m@[i]@[j]).finite() && size_of_real(double_value(m@[i]@[j]))
                <= 23real,
        forall|j: int|
            0 <= j < 3 ==> (#[trigger] v@[j]).finite() && size_of_real(double_value(v@[j]))
                <= 3real / 2real,
        is_double(
            ar,
            dot3(
                seq![double(m@[i]@[0]), double(m@[i]@[1]), double(m@[i]@[2])],
                seq![double(v@[0]), double(v@[1]), double(v@[2])],
            ),
            r,
        ),
    ensures
        r.finite(),
        size_of_real(
            double_value(r) - (double_value(m@[i]@[0]) * double_value(v@[0]) + double_value(
                m@[i]@[1],
            ) * double_value(v@[1]) + double_value(m@[i]@[2]) * double_value(v@[2])),
        ) <= 1real / 1000000000000real,
{
    let g = plain();
    let (a, b, c) = (
        times(double(m@[i]@[0]), double(v@[0])),
        times(double(m@[i]@[1]), double(v@[1])),
        times(double(m@[i]@[2]), double(v@[2])),
    );
    lemma_product_tracks(ar, m@[i]@[0], v@[0]);
    lemma_product_tracks(ar, m@[i]@[1], v@[1]);
    lemma_product_tracks(ar, m@[i]@[2], v@[2]);
    lemma_tracks_plus(
        ar,
        g,
        a,
        b,
        (345real / 10real, 345real / 10real),
        (1real / 10000000000000real, 1real / 10000000000000real),
        3real / 10000000000000real,
    );
    lemma_tracks_plus(
        ar,
        g,
        plus(a, b),
        c,
        (69real, 345real / 10real),
        (3real / 10000000000000real, 1real / 10000000000000real),
        1real / 1000000000000real,
    );
    assert(exact(g, plus(plus(a, b), c)) == exact(g, a) + exact(g, b) + exact(g, c)) by {
        reveal_with_fuel(exact, 3);
    }
}

proof fn lemma_product_tracks<A: Arithmetic>(ar: &A, x: Double, y: Double)
    requires
        sound(ar),
        x.finite(),
        y.finite(),
        size_of_real(double_value(x)) <= 23real,
        size_of_real(double_value(y)) <= 3real / 2real,
    ensures
        tracks(
            ar,
            plain(),
            times(double(x), double(y)),
            345real / 10real,
            1real / 10000000000000real,
        ),
        exact(plain(), times(double(x), double(y))) == double_value(x) * double_value(y),
{
    lemma_tracks_leaf(ar, plain(), x, 23real);
    lemma_tracks_leaf(ar, plain(), y, 3real / 2real);
    lemma_tracks_times(
        ar,
        plain(),
        double(x),
        double(y),
        (23real, 3real / 2real),
        (0real, 0real),
        1real / 10000000000000real,
    );
    reveal_with_fuel(exact, 2);
}

proof fn lemma_plain_leaf<A: Arithmetic>(ar: &A, x: Double)
    requires
        x.finite(),
        size_of_real(exact(plain(), double(x))) <= 3real / 2real,
    ensures
        tracks(ar, plain(), double(x), 3real / 2real, 0real),
{
    lemma_tracks_leaf(ar, plain(), x, 3real / 2real);
}

/// Where the arithmetic rounds as it should, the adaptation takes the one
/// white to the other within 1e-8, and that of a white to itself is the
/// identity within 1e-9.
pub proof fn lemma_white_reached<A: Arithmetic>(
    ar: &A,
    src: [Double; 3],
    dst: [Double; 3],
    m: [[Double; 3]; 3],
    r: [Double; 3],
    i: int,
)
    requires
        sound(ar),
        forall|j: int| 0 <= j < 3 ==> (#[trigger] src@[j]).finite() && dst@[j].finite(),
        is_plain_white(leaves3(src)),
        is_plain_white(leaves3(dst)),
        is_reach(leaves3(src), leaves3(dst)),
        is_adaptation(ar, src, dst, m),
        is_image(ar, m, src, r),
        0 <= i < 3,
    ensures
        r@[i].finite(),
        size_of_real(double_value(r@[i]) - double_value(dst@[i])) <= 1real / 100000000real,
        src == dst ==> forall|j: int|
            0 <= j < 3 ==> size_of_real(
                double_value(#[trigger] m@[i]@[j]) - if i == j {
                    1real
                } else {
                    0real
                },
            ) <= 1real / 1000000000real,
{
    let g = plain();
    let (s, d) = (leaves3(src), leaves3(dst));
    assert(src@[0].finite() && src@[1].finite() && src@[2].finite());
    lemma_plain_leaf(ar, src@[0]);
    lemma_plain_leaf(ar, src@[1]);
    lemma_plain_leaf(ar, src@[2]);
    lemma_plain_leaf(ar, dst@[0]);
    lemma_plain_leaf(ar, dst@[1]);
    lemma_plain_leaf(ar, dst@[2]);
    assert(is_common_white(ar, s));
    assert(is_common_white(ar, d));
    lemma_adaptation_tracks(ar, i, 0, s, d);
    lemma_adaptation_tracks(ar, i, 1, s, d);
    lemma_adaptation_tracks(ar, i, 2, s, d);
    assert(is_double(ar, adaptation(i, 0, s, d), m@[i]@[0]));
    assert(is_double(ar, adaptation(i, 1, s, d), m@[i]@[1]));
    assert(is_double(ar, adaptation(i, 2, s, d), m@[i]@[2]));
    lemma_common_leaves(ar, src);
    lemma_common_leaves(ar, dst);
    assert(is_double(
        ar,
        dot3(
            seq![double(m@[i]@[0]), double(m@[i]@[1]), double(m@[i]@[2])],
            seq![double(src@[0]), double(src@[1]), double(src@[2])],
        ),
        r@[i],
    )) by {
        assert(evaluates(
            ar,
            dot3(
                seq![num(m@[i]@[0]), num(m@[i]@[1]), num(m@[i]@[2])],
                seq![num(src@[0]), num(src@[1]), num(src@[2])],
            ),
            r@[i].number(),
        ));
    }
    lemma_image_tracks(ar, m, src, i, r@[i]);
    lemma_channel(g, i, s, d, s);
    assert(exact(g, response(0, s)) != 0real);
    assert(exact(g, response(1, s)) != 0real);
    assert(exact(g, response(2, s)) != 0real);
    lemma_white_adapted(g, s, d, i);
    let x = (
        exact(g, adaptation(i, 0, s, d)),
        exact(g, adaptation(i, 1, s, d)),
        exact(g, adaptation(i, 2, s, d)),
    );
    let v = (double_value(src@[0]), double_value(src@[1]), double_value(src@[2]));
    lemma_image_error(
        (
            double_value(m@[i]@[0]),
            double_value(m@[i]@[1]),
            double_value(m@[i]@[2]),
        ),
        x,
        v,
        3real / 10000000000real,
    );
    assert(exact(g, d[i]) == double_value(dst@[i])) by {
        if i == 0 {
            assert(d[i] == d[0]);
        } else if i == 1 {
            assert(d[i] == d[1]);
        } else {
            assert(d[i] == d[2]);
        }
    }
    let sum = size_of_real(exact(g, d[0])) + size_of_real(exact(g, d[1])) + size_of_real(
        exact(g, d[2]),
    );
    assert(sum <= 45real / 10real);
    let off = tiny() * sum;
    lemma_tiny_share(tiny(), sum);
    let reached = exact(g, adapted_channel(i, s, d, s));
    assert(reached == x.0 * v.0 + x.1 * v.1 + x.2 * v.2);
    assert(size_of_real(reached - double_value(dst@[i])) <= off);
    if src == dst {
        lemma_same_white(g, s, i, 0);
        lemma_same_white(g, s, i, 1);
        lemma_same_white(g, s, i, 2);
    }
}

proof fn lemma_tiny_share(t: real, sum: real)
    by (nonlinear_arith)
    requires
        t == 1real / 1000000000000000real,
        0real <= sum <= 45real / 10real,
    ensures
        0real <= t * sum <= 1real / 100000000000real,
{
}

/// The channels of a common white.
proof fn lemma_common_leaves<A: Arithmetic>(ar: &A, w: [Double; 3])
    requires
        is_common_white(ar, leaves3(w)),
    ensures
        forall|j: int|
            0 <= j < 3 ==> (#[trigger] w@[j]).finite() && size_of_real(double_value(w@[j]))
                <= 3real / 2real,
        exact(plain(), leaves3(w)[0]) == double_value(w@[0]),
        exact(plain(), leaves3(w)[1]) == double_value(w@[1]),
        exact(plain(), leaves3(w)[2]) == double_value(w@[2]),
{
    assert(is_double(ar, double(w@[0]), w@[0]));
    assert(is_double(ar, double(w@[1]), w@[1]));
    assert(is_double(ar, double(w@[2]), w@[2]));
}

/// One entry in single precision.
proof fn lemma_short_entry<A: Arithmetic>(
    ar: &A,
    i: int,
    j: int,
    src: Seq<Formula>,
    dst: Seq<Formula>,
    m: Single,
)
    requires
        sound(ar),
        sound_single(ar),
        is_common_white(ar, src),
        is_common_white(ar, dst),
        is_reach(src, dst),
        0 <= i < 3,
        0 <= j < 3,
        is_single(ar, narrow(adaptation(i, j, src, dst)), m),
    ensures
        m.finite(),
        size_of_real(single_value(m)) <= 23real,
        size_of_real(single_value(m) - exact(plain(), adaptation(i, j, src, dst))) <= 23real
            / 10000000real,
{
    lemma_adaptation_tracks(ar, i, j, src, dst);
    let x = lemma_narrowed(ar, adaptation(i, j, src, dst), m);
}

proof fn lemma_short_term<A: Arithmetic>(ar: &A, m: Single, v: Single, r: Single)
    requires
        sound_single(ar),
        m.finite(),
        v.finite(),
        size_of_real(single_value(m)) <= 23real,
        size_of_real(single_value(v)) <= 3real / 2real,
        is_single(ar, times(single(m), single(v)), r),
    ensures
        r.finite(),
        size_of_real(single_value(r)) <= 35real,
        size_of_real(single_value(r) - single_value(m) * single_value(v)) <= 35real / 10000000real,
{
    let (x, y) = lemma_binary_single(ar, Binary::Times, single(m), single(v), r);
    assert(x == m && y == v);
    lemma_term_size(single_value(m), single_value(v));
}

proof fn lemma_term_size(m: real, v: real)
    by (nonlinear_arith)
    requires
        -23real <= m <= 23real,
        -(3real / 2real) <= v <= 3real / 2real,
    ensures
        -(345real / 10real) <= m * v <= 345real / 10real,
{
}

/// A matrix times a vector in single precision.
proof fn lemma_short_image<A: Arithmetic>(
    ar: &A,
    m: (Single, Single, Single),
    v: (Single, Single, Single),
    r: Single,
)
    requires
        sound_single(ar),
        m.0.finite() && size_of_real(single_value(m.0)) <= 23real,
        m.1.finite() && size_of_real(single_value(m.1)) <= 23real,
        m.2.finite() && size_of_real(single_value(m.2)) <= 23real,
        v.0.finite() && size_of_real(single_value(v.0)) <= 3real / 2real,
        v.1.finite() && size_of_real(single_value(v.1)) <= 3real / 2real,
        v.2.finite() && size_of_real(single_value(v.2)) <= 3real / 2real,
        is_single(
            ar,
            dot3(
                seq![single(m.0), single(m.1), single(m.2)],
                seq![single(v.0), single(v.1), single(v.2)],
            ),
            r,
        ),
    ensures
        r.finite(),
        size_of_real(
            single_value(r) - (single_value(m.0) * single_value(v.0) + single_value(m.1)
                * single_value(v.1) + single_value(m.2) * single_value(v.2)),
        ) <= 4real / 100000real,
{
    let (a, b, c) = (
        times(single(m.0), single(v.0)),
        times(single(m.1), single(v.1)),
        times(single(m.2), single(v.2)),
    );
    let (ab, z) = lemma_binary_single(ar, Binary::Plus, plus(a, b), c, r);
    let (x, y) = lemma_binary_single(ar, Binary::Plus, a, b, ab);
    lemma_short_term(ar, m.0, v.0, x);
    lemma_short_term(ar, m.1, v.1, y);
    lemma_short_term(ar, m.2, v.2, z);
    assert(ab.finite());
    assert(size_of_real(single_value(ab)) <= 71real);
}

/// The same in single precision: where the arithmetic rounds as it should, the
/// adaptation takes the one white to the other within 1e-4, and that of a
/// white to itself is the identity within 1e-5.
pub proof fn lemma_short_white_reached<A: Arithmetic>(
    ar: &A,
    src: [Single; 3],
    dst: [Single; 3],
    m: [[Single; 3]; 3],
    r: [Single; 3],
    i: int,
)
    requires
        sound(ar),
        sound_single(ar),
        forall|j: int| 0 <= j < 3 ==> (#[trigger] src@[j]).finite() && dst@[j].finite(),
        is_plain_white(wide_leaves3(src)),
        is_plain_white(wide_leaves3(dst)),
        is_reach(wide_leaves3(src), wide_leaves3(dst)),
        forall|k: int, j: int|
            0 <= k < 3 && 0 <= j < 3 ==> is_single(
                ar,
                narrow(adaptation(k, j, wide_leaves3(src), wide_leaves3(dst))),
                #[trigger] m@[k]@[j],
            ),
        is_image(ar, m, src, r),
        0 <= i < 3,
    ensures
        r@[i].finite(),
        size_of_real(single_value(r@[i]) - single_value(dst@[i])) <= 1real / 10000real,
        src == dst ==> forall|j: int|
            0 <= j < 3 ==> size_of_real(
                single_value(#[trigger] m@[i]@[j]) - if i == j {
                    1real
                } else {
                    0real
                },
            ) <= 1real / 100000real,
{
    let g = plain();
    let (s, d) = (wide_leaves3(src), wide_leaves3(dst));
    assert(src@[0].finite() && src@[1].finite() && src@[2].finite());
    lemma_wide_leaf(src, 0);
    lemma_wide_leaf(src, 1);
    lemma_wide_leaf(src, 2);
    lemma_wide_leaf(dst, 0);
    lemma_wide_leaf(dst, 1);
    lemma_wide_leaf(dst, 2);
    lemma_tracks_widened(ar, g, src@[0], 3real / 2real);
    lemma_tracks_widened(ar, g, src@[1], 3real / 2real);
    lemma_tracks_widened(ar, g, src@[2], 3real / 2real);
    lemma_tracks_widened(ar, g, dst@[0], 3real / 2real);
    lemma_tracks_widened(ar, g, dst@[1], 3real / 2real);
    lemma_tracks_widened(ar, g, dst@[2], 3real / 2real);
    assert(is_common_white(ar, s));
    assert(is_common_white(ar, d));
    lemma_short_entry(ar, i, 0, s, d, m@[i]@[0]);
    lemma_short_entry(ar, i, 1, s, d, m@[i]@[1]);
    lemma_short_entry(ar, i, 2, s, d, m@[i]@[2]);
    assert(is_single(
        ar,
        dot3(
            seq![single(m@[i]@[0]), single(m@[i]@[1]), single(m@[i]@[2])],
            seq![single(src@[0]), single(src@[1]), single(src@[2])],
        ),
        r@[i],
    )) by {
        assert(evaluates(
            ar,
            dot3(
                seq![num(m@[i]@[0]), num(m@[i]@[1]), num(m@[i]@[2])],
                seq![num(src@[0]), num(src@[1]), num(src@[2])],
            ),
            r@[i].number(),
        ));
    }
    lemma_short_image(
        ar,
        (m@[i]@[0], m@[i]@[1], m@[i]@[2]),
        (src@[0], src@[1], src@[2]),
        r@[i],
    );
    lemma_channel(g, i, s, d, s);
    assert(exact(g, response(0, s)) != 0real);
    assert(exact(g, response(1, s)) != 0real);
    assert(exact(g, response(2, s)) != 0real);
    lemma_white_adapted(g, s, d, i);
    let x = (
        exact(g, adaptation(i, 0, s, d)),
        exact(g, adaptation(i, 1, s, d)),
        exact(g, adaptation(i, 2, s, d)),
    );
    let v = (single_value(src@[0]), single_value(src@[1]), single_value(src@[2]));
    lemma_image_error(
        (
            single_value(m@[i]@[0]),
            single_value(m@[i]@[1]),
            single_value(m@[i]@[2]),
        ),
        x,
        v,
        23real / 10000000real,
    );
    lemma_wide_leaf(dst, i);
    let sum = size_of_real(exact(g, d[0])) + size_of_real(exact(g, d[1])) + size_of_real(
        exact(g, d[2]),
    );
    assert(sum <= 45real / 10real);
    let off = tiny() * sum;
    lemma_tiny_share(tiny(), sum);
    let reached = exact(g, adapted_channel(i, s, d, s));
    assert(reached == x.0 * v.0 + x.1 * v.1 + x.2 * v.2);
    assert(size_of_real(reached - single_value(dst@[i])) <= off);
    if src == dst {
        lemma_same_white(g, s, i, 0);
        lemma_same_white(g, s, i, 1);
        lemma_same_white(g, s, i, 2);
    }
}

proof fn lemma_wide_leaf(w: [Single; 3], i: int)
    requires
        0 <= i < 3,
    ensures
        exact(plain(), wide_leaves3(w)[i]) == single_value(w@[i]),
{
    reveal_with_fuel(exact, 2);
    if i == 0 {
    } else if i == 1 {
    } else {
    }
}

} // verus!
