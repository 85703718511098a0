//! Light sources: black bodies, and the whites of illuminants by their
//! spectra.

use vstd::prelude::*;

use crate::arith::{constant, double, is_double, is_single, larger, minus, narrow, over, plus};
use crate::arith::{single, times, unary, whole_power, widen, Arithmetic, Formula, Traced, Unary};
use crate::bits::{Double, Single};
use crate::colorspace::{illuminant_white, standard_white};
use crate::couplers::{are_wide, wide_numbers};
use crate::density_curves::ONE;
use crate::hanatos::{is_xy, xyz_to_xy_f64};
use crate::pchip::TWO;
use crate::scanning::{short_light_of, short_light_sum};
use crate::spectral::{cmf, short_response, Illuminant};

verus! {

// ── Black bodies ─────────────────────────────────────────────────────────

/// Planck's constant, in joule seconds.
pub const PLANCK: u64 = 0x390b_860b_de02_3111;

/// The speed of light, in metres per second.
pub const LIGHT_SPEED: u64 = 0x41b1_de78_4a00_0000;

/// Boltzmann's constant, in joules per kelvin.
pub const BOLTZMANN: u64 = 0x3b30_b0e6_d55e_647c;

/// Radiance of a black body by Planck's law:
/// `2 h c^2 / (l^5 (e^(h c / (l k t)) - 1))`.
pub open spec fn radiance(wavelength_nm: Single, temperature_k: Single) -> Formula {
    let length = times(widen(single(wavelength_nm)), constant(0x3e11_2e0b_e826_d695));
    let h = constant(PLANCK);
    let c = constant(LIGHT_SPEED);
    let top = over(times(times(times(constant(TWO), h), c), c), whole_power(length, 5));
    let heat = times(times(length, constant(BOLTZMANN)), widen(single(temperature_k)));
    let bottom = minus(unary(Unary::Exp, over(times(h, c), heat)), constant(ONE));
    narrow(over(top, bottom))
}

/// Radiance of a black body at a wavelength, in nanometres, and a
/// temperature, in kelvins.
pub fn blackbody_radiance<A: Arithmetic>(ar: &A, wavelength_nm: Single, temperature_k: Single) -> (r:
    Single)
    ensures
        is_single(ar, radiance(wavelength_nm, temperature_k), r),
{
    let w: Traced<Single> = Traced::new(ar, wavelength_nm);
    let t: Traced<Single> = Traced::new(ar, temperature_k);
    let nano: Traced<Double> = Traced::constant(ar, 0x3e11_2e0b_e826_d695);
    let h: Traced<Double> = Traced::constant(ar, PLANCK);
    let c: Traced<Double> = Traced::constant(ar, LIGHT_SPEED);
    let k: Traced<Double> = Traced::constant(ar, BOLTZMANN);
    let one: Traced<Double> = Traced::constant(ar, ONE);
    let two: Traced<Double> = Traced::constant(ar, TWO);
    let length = w.widen(ar).times(ar, nano);
    let top = two.times(ar, h).times(ar, c).times(ar, c).over(
        ar,
        length.unary(ar, Unary::WholePower(5)),
    );
    let heat = length.times(ar, k).times(ar, t.widen(ar));
    let bottom = h.times(ar, c).over(ar, heat).unary(ar, Unary::Exp).minus(ar, one);
    top.over(ar, bottom).narrow(ar).value
}

/// Wavelength `i` of the grid, in single precision.
pub open spec fn grid_wavelength(i: int) -> Formula {
    plus(
        single(Single { bits: 0x43be_0000 }),
        times(narrow(Formula::Whole(i as u64)), single(Single { bits: 0x40a0_0000 })),
    )
}

/// `raw` is the radiance of a black body over the grid.
pub open spec fn are_radiances<A: Arithmetic>(ar: &A, temperature_k: Single, raw: Seq<Single>) -> bool {
    raw.len() == 81 && forall|i: int|
        0 <= i < 81 ==> #[trigger] is_radiance_at(ar, temperature_k, i, raw[i])
}

/// `r` is the radiance at wavelength `i` of the grid.
pub open spec fn is_radiance_at<A: Arithmetic>(
    ar: &A,
    temperature_k: Single,
    i: int,
    r: Single,
) -> bool {
    exists|wl: Single| #[trigger]
        is_single(ar, grid_wavelength(i), wl) && is_single(ar, radiance(wl, temperature_k), r)
}

/// The largest of the first `n` numbers, or 0.
pub open spec fn largest(xs: Seq<Single>, n: int) -> Formula
    decreases n,
{
    if n <= 0 {
        single(Single { bits: 0 })
    } else {
        larger(largest(xs, n - 1), single(xs[n - 1]))
    }
}

/// `r` is numbers over the largest of them, where that is above 0.
pub open spec fn are_relative<A: Arithmetic>(
    ar: &A,
    raw: Seq<Single>,
    top: Single,
    r: Seq<Single>,
) -> bool {
    &&& r.len() == raw.len()
    &&& if (Single { bits: 0 }).below(top) {
        forall|i: int|
            0 <= i < r.len() ==> is_single(ar, over(single(raw[i]), single(top)), #[trigger] r[i])
    } else {
        r == raw
    }
}

fn grid_radiance<A: Arithmetic>(ar: &A, temperature_k: Single, i: usize) -> (r: Single)
    ensures
        is_radiance_at(ar, temperature_k, i as int, r),
{
    let first: Traced<Single> = Traced::new(ar, Single { bits: 0x43be_0000 });
    let step: Traced<Single> = Traced::new(ar, Single { bits: 0x40a0_0000 });
    let at: Traced<Double> = Traced::whole(ar, i as u64);
    let wl = first.plus(ar, at.narrow(ar).times(ar, step)).value;
    assert(is_single(ar, grid_wavelength(i as int), wl));
    blackbody_radiance(ar, wl, temperature_k)
}

/// The spectrum of a black body over the grid, with its peak at 1.
pub fn blackbody_spd<A: Arithmetic>(ar: &A, temperature_k: Single) -> (r: Vec<Single>)
    ensures
        r@.len() == 81,
        exists|raw: Seq<Single>, top: Single|
            {
                &&& #[trigger] are_radiances(ar, temperature_k, raw)
                &&& is_single(ar, largest(raw, 81), top)
                &&& #[trigger] are_relative(ar, raw, top, r@)
            },
{
    let mut raw: Vec<Single> = Vec::new();
    let mut top: Traced<Single> = Traced::new(ar, Single { bits: 0 });
    let mut i: usize = 0;
    while i < 81
        invariant
            i <= 81,
            raw@.len() == i,
            forall|k: int| 0 <= k < i ==> #[trigger] is_radiance_at(ar, temperature_k, k, raw@[k]),
        decreases 81 - i,
    {
        let v = grid_radiance(ar, temperature_k, i);
        let ghost before = raw@;
        raw.push(v);
        proof {
            assert forall|k: int| 0 <= k < i + 1 implies #[trigger] is_radiance_at(
                ar,
                temperature_k,
                k,
                raw@[k],
            ) by {
                if k < i {
                    assert(is_radiance_at(ar, temperature_k, k, before[k]));
                }
            }
        }
        i += 1;
    }
    assert(are_radiances(ar, temperature_k, raw@));
    let mut i: usize = 0;
    while i < raw.len()
        invariant
            i <= raw@.len(),
            top.holds(ar),
            top.formula@ == largest(raw@, i as int),
        decreases raw.len() - i,
    {
        top = top.larger(ar, Traced::new(ar, raw[i]));
        i += 1;
    }
    let none = Single { bits: 0 };
    if !none.is_below(top.value) {
        assert(are_relative(ar, raw@, top.value, raw@));
        return raw;
    }
    let mut r: Vec<Single> = Vec::new();
    let mut i: usize = 0;
    while i < raw.len()
        invariant
            i <= raw@.len(),
            r@.len() == i,
            forall|k: int|
                0 <= k < i ==> is_single(
                    ar,
                    over(single(raw@[k]), single(top.value)),
                    #[trigger] r@[k],
                ),
        decreases raw.len() - i,
    {
        let x: Traced<Single> = Traced::new(ar, raw[i]);
        r.push(x.over(ar, Traced::new(ar, top.value)).value);
        i += 1;
    }
    assert(are_relative(ar, raw@, top.value, r@));
    r
}

// ── Whites by spectra ────────────────────────────────────────────────────

/// Encoding of 1e-6 in single precision.
pub const CLOSE: u32 = 0x3586_37bd;

/// A spectrum begins like that of an illuminant.
pub open spec fn begins_like<A: Arithmetic>(
    ar: &A,
    first: Single,
    illuminant: Illuminant,
    r: bool,
) -> bool {
    exists|off: Single| #[trigger]
        is_single(
            ar,
            unary(
                Unary::Absolute,
                minus(single(first), single(illuminant.short_powers()[0])),
            ),
            off,
        ) && r == off.below(Single { bits: CLOSE })
}

fn like<A: Arithmetic>(ar: &A, first: Single, illuminant: Illuminant) -> (r: bool)
    ensures
        begins_like(ar, first, illuminant, r),
{
    let known = illuminant.power_numbers();
    let x: Traced<Single> = Traced::new(ar, first);
    let off = x.minus(ar, Traced::new(ar, known[0])).unary(ar, Unary::Absolute).value;
    proof {
        assert(is_single(
            ar,
            unary(
                Unary::Absolute,
                minus(single(first), single(illuminant.short_powers()[0])),
            ),
            off,
        ));
    }
    off.is_below(Single { bits: CLOSE })
}

/// `r` is the illuminant that a spectrum of the whole grid begins like; D55
/// is tried first, then D65 and D50.
pub open spec fn is_recognised<A: Arithmetic>(
    ar: &A,
    power: Seq<Single>,
    r: Option<Illuminant>,
) -> bool {
    if power.len() == 81 {
        match r {
            Some(Illuminant::D55) => begins_like(ar, power[0], Illuminant::D55, true),
            Some(Illuminant::D65) => {
                &&& begins_like(ar, power[0], Illuminant::D55, false)
                &&& begins_like(ar, power[0], Illuminant::D65, true)
            },
            Some(Illuminant::D50) => {
                &&& begins_like(ar, power[0], Illuminant::D55, false)
                &&& begins_like(ar, power[0], Illuminant::D65, false)
                &&& begins_like(ar, power[0], Illuminant::D50, true)
            },
            None => {
                &&& begins_like(ar, power[0], Illuminant::D55, false)
                &&& begins_like(ar, power[0], Illuminant::D65, false)
                &&& begins_like(ar, power[0], Illuminant::D50, false)
            },
        }
    } else {
        r is None
    }
}

/// The illuminant that a spectrum is known to be.
pub fn recognise<A: Arithmetic>(ar: &A, power: &[Single]) -> (r: Option<Illuminant>)
    ensures
        is_recognised(ar, power@, r),
{
    if power.len() != 81 {
        return None;
    }
    if like(ar, power[0], Illuminant::D55) {
        return Some(Illuminant::D55);
    }
    if like(ar, power[0], Illuminant::D65) {
        return Some(Illuminant::D65);
    }
    if like(ar, power[0], Illuminant::D50) {
        return Some(Illuminant::D50);
    }
    None
}

/// The wavelengths of the grid that a spectrum covers.
pub open spec fn covered_by(power: Seq<Single>) -> int {
    if power.len() < 81 {
        power.len() as int
    } else {
        81
    }
}

/// `r` is the white of a spectrum by its chromaticity, with Y at 1; a grey
/// where it has no light.
pub open spec fn is_spectrum_white<A: Arithmetic>(
    ar: &A,
    power: Seq<Double>,
    n: int,
    r: [Double; 3],
) -> bool {
    exists|x: Double, y: Double, z: Double, sum: Double|
        {
            &&& #[trigger] is_double(ar, short_light_sum(power, short_response(0), n), x)
            &&& #[trigger] is_double(ar, short_light_sum(power, short_response(1), n), y)
            &&& #[trigger] is_double(ar, short_light_sum(power, short_response(2), n), z)
            &&& #[trigger] is_double(ar, plus(plus(double(x), double(y)), double(z)), sum)
            &&& is_white_of(ar, x, y, sum, r)
        }
}

/// `r` is the white of X and Y among a sum.
pub open spec fn is_white_of<A: Arithmetic>(
    ar: &A,
    x: Double,
    y: Double,
    sum: Double,
    r: [Double; 3],
) -> bool {
    let grey = seq![Double { bits: ONE }, Double { bits: ONE }, Double { bits: ONE }];
    if sum.at_most(Double { bits: 0 }) {
        r@ == grey
    } else {
        exists|cx: Double, cy: Double|
            {
                &&& #[trigger] is_double(ar, over(double(x), double(sum)), cx)
                &&& #[trigger] is_double(ar, over(double(y), double(sum)), cy)
                &&& if cy.at_most(Double { bits: 0 }) {
                    r@ == grey
                } else {
                    &&& is_double(ar, over(double(cx), double(cy)), r@[0])
                    &&& r@[1].bits == ONE
                    &&& is_double(
                        ar,
                        over(
                            minus(minus(constant(ONE), double(cx)), double(cy)),
                            double(cy),
                        ),
                        r@[2],
                    )
                }
            }
    }
}

/// `r` is the white of a spectrum: that of the illuminant that it is known
/// to be, and one computed from it otherwise.
pub open spec fn is_white_by_spectrum<A: Arithmetic>(
    ar: &A,
    power: Seq<Single>,
    r: [Double; 3],
) -> bool {
    exists|known: Option<Illuminant>, wide: Seq<Double>|
        {
            &&& #[trigger] is_recognised(ar, power, known)
            &&& #[trigger] are_wide(ar, power, wide)
            &&& match known {
                Some(i) => r@ == illuminant_white(i),
                None => is_spectrum_white(ar, wide, covered_by(power), r),
            }
        }
}

/// The white of a spectrum.
pub fn illuminant_xyz_f64<A: Arithmetic>(ar: &A, power: &[Single]) -> (r: [Double; 3])
    ensures
        is_white_by_spectrum(ar, power@, r),
{
    let known = recognise(ar, power);
    let wide = wide_numbers(ar, power);
    proof {
        assert(is_recognised(ar, power@, known));
        assert(are_wide(ar, power@, wide@));
    }
    if let Some(i) = known {
        return standard_white(i);
    }
    let n: usize = if power.len() < 81 {
        power.len()
    } else {
        81
    };
    let x = short_light_of(ar, &wide, &cmf(0), n).value;
    let y = short_light_of(ar, &wide, &cmf(1), n).value;
    let z = short_light_of(ar, &wide, &cmf(2), n).value;
    let xt: Traced<Double> = Traced::new(ar, x);
    let yt: Traced<Double> = Traced::new(ar, y);
    let sum = xt.plus(ar, yt).plus(ar, Traced::new(ar, z)).value;
    let r = white_of(ar, x, y, sum);
    proof {
        assert(is_double(ar, short_light_sum(wide@, short_response(0), n as int), x));
        assert(is_double(ar, short_light_sum(wide@, short_response(1), n as int), y));
        assert(is_double(ar, short_light_sum(wide@, short_response(2), n as int), z));
        assert(is_double(ar, plus(plus(double(x), double(y)), double(z)), sum));
        assert(is_white_of(ar, x, y, sum, r));
        assert(is_spectrum_white(ar, wide@, n as int, r));
    }
    r
}

fn white_of<A: Arithmetic>(ar: &A, x: Double, y: Double, sum: Double) -> (r: [Double; 3])
    ensures
        is_white_of(ar, x, y, sum, r),
{
    let one = Double { bits: ONE };
    let grey = [one, one, one];
    assert(grey@ =~= seq![one, one, one]);
    if sum.is_at_most(Double { bits: 0 }) {
        return grey;
    }
    let xt: Traced<Double> = Traced::new(ar, x);
    let yt: Traced<Double> = Traced::new(ar, y);
    let st: Traced<Double> = Traced::new(ar, sum);
    let cx = xt.over(ar, st).value;
    let cy = yt.over(ar, st).value;
    proof {
        assert(is_double(ar, over(double(x), double(sum)), cx));
        assert(is_double(ar, over(double(y), double(sum)), cy));
    }
    if cy.is_at_most(Double { bits: 0 }) {
        return grey;
    }
    let a: Traced<Double> = Traced::new(ar, cx);
    let b: Traced<Double> = Traced::new(ar, cy);
    let unit: Traced<Double> = Traced::constant(ar, ONE);
    let last = unit.minus(ar, a).minus(ar, b).over(ar, b).value;
    [a.over(ar, b).value, one, last]
}

/// The chromaticity of a spectrum.
pub fn illuminant_to_xy<A: Arithmetic>(ar: &A, power: &[Single]) -> (r: (Double, Double))
    ensures
        exists|white: [Double; 3]| #[trigger]
            is_xy(ar, white, r) && is_white_by_spectrum(ar, power@, white),
{
    let white = illuminant_xyz_f64(ar, power);
    xyz_to_xy_f64(ar, white)
}

/// Colour of an illuminant in single precision, with Y at 1.
pub open spec fn short_illuminant_white(illuminant: Illuminant) -> Seq<Single> {
    match illuminant {
        // 0.964220 and 0.825210
        Illuminant::D50 => seq![
            Single { bits: 0x3f76_d71f },
            Single { bits: 0x3f80_0000 },
            Single { bits: 0x3f53_40f6 },
        ],
        // 0.956791 and 0.921367
        Illuminant::D55 => seq![
            Single { bits: 0x3f74_f041 },
            Single { bits: 0x3f80_0000 },
            Single { bits: 0x3f6b_deb5 },
        ],
        // 0.950456 and 1.089058
        Illuminant::D65 => seq![
            Single { bits: 0x3f73_5116 },
            Single { bits: 0x3f80_0000 },
            Single { bits: 0x3f8b_6641 },
        ],
    }
}

/// `r` is the sums of a spectrum's light over Y, in single precision; as they
/// are where it has no light.
pub open spec fn is_short_spectrum_white<A: Arithmetic>(
    ar: &A,
    power: Seq<Double>,
    n: int,
    r: [Single; 3],
) -> bool {
    exists|x: Double, y: Double, z: Double|
        {
            &&& #[trigger] is_double(ar, short_light_sum(power, short_response(0), n), x)
            &&& #[trigger] is_double(ar, short_light_sum(power, short_response(1), n), y)
            &&& #[trigger] is_double(ar, short_light_sum(power, short_response(2), n), z)
            &&& if (Double { bits: 0 }).below(y) {
                let s = over(constant(ONE), double(y));
                &&& is_single(ar, narrow(times(double(x), s)), r@[0])
                &&& is_single(ar, narrow(constant(ONE)), r@[1])
                &&& is_single(ar, narrow(times(double(z), s)), r@[2])
            } else {
                &&& is_single(ar, narrow(double(x)), r@[0])
                &&& is_single(ar, narrow(double(y)), r@[1])
                &&& is_single(ar, narrow(double(z)), r@[2])
            }
        }
}

/// `r` is the white of a spectrum in single precision.
pub open spec fn is_short_white_by_spectrum<A: Arithmetic>(
    ar: &A,
    power: Seq<Single>,
    r: [Single; 3],
) -> bool {
    exists|known: Option<Illuminant>, wide: Seq<Double>|
        {
            &&& #[trigger] is_recognised(ar, power, known)
            &&& #[trigger] are_wide(ar, power, wide)
            &&& match known {
                Some(i) => r@ == short_illuminant_white(i),
                None => is_short_spectrum_white(ar, wide, covered_by(power), r),
            }
        }
}

/// Colour of a spectrum in single precision.
pub fn illuminant_xyz<A: Arithmetic>(ar: &A, power: &[Single]) -> (r: [Single; 3])
    ensures
        is_short_white_by_spectrum(ar, power@, r),
{
    let known = recognise(ar, power);
    let wide = wide_numbers(ar, power);
    proof {
        assert(is_recognised(ar, power@, known));
        assert(are_wide(ar, power@, wide@));
    }
    if let Some(i) = known {
        let one = Single { bits: 0x3f80_0000 };
        let r = match i {
            Illuminant::D50 => [Single { bits: 0x3f76_d71f }, one, Single { bits: 0x3f53_40f6 }],
            Illuminant::D55 => [Single { bits: 0x3f74_f041 }, one, Single { bits: 0x3f6b_deb5 }],
            Illuminant::D65 => [Single { bits: 0x3f73_5116 }, one, Single { bits: 0x3f8b_6641 }],
        };
        assert(r@ =~= short_illuminant_white(i));
        return r;
    }
    let n: usize = if power.len() < 81 {
        power.len()
    } else {
        81
    };
    let x = short_light_of(ar, &wide, &cmf(0), n).value;
    let y = short_light_of(ar, &wide, &cmf(1), n).value;
    let z = short_light_of(ar, &wide, &cmf(2), n).value;
    let xt: Traced<Double> = Traced::new(ar, x);
    let yt: Traced<Double> = Traced::new(ar, y);
    let zt: Traced<Double> = Traced::new(ar, z);
    proof {
        assert(is_double(ar, short_light_sum(wide@, short_response(0), n as int), x));
        assert(is_double(ar, short_light_sum(wide@, short_response(1), n as int), y));
        assert(is_double(ar, short_light_sum(wide@, short_response(2), n as int), z));
    }
    let none = Double { bits: 0 };
    let r = if none.is_below(y) {
        let one: Traced<Double> = Traced::constant(ar, ONE);
        let s = one.over(ar, yt);
        [
            xt.times(ar, s).narrow(ar).value,
            one.narrow(ar).value,
            zt.times(ar, s).narrow(ar).value,
        ]
    } else {
        [xt.narrow(ar).value, yt.narrow(ar).value, zt.narrow(ar).value]
    };
    assert(is_short_spectrum_white(ar, wide@, n as int, r));
    r
}

} // verus!
