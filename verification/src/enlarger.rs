//! The enlarger: its light, and the print exposure of a grey card.

use vstd::prelude::*;

use crate::arith::{constant, double, is_double, minus, over, power, single, sum_from, times};
use crate::arith::{unary, widen, Arithmetic, Formula, Traced, Unary};
use crate::backend::{is_usable, usable};
use crate::bits::{Double, Single};
use crate::density_curves::{develop_simple_f64, is_gamma_axis, is_read, normalized, ONE};
use crate::filming::{is_logarithm, logarithm};
use crate::hanatos::{hanatos2025_rgb_to_raw, is_taken};
use crate::image::ImageBuf;
use crate::params::RuntimeParams;
use crate::pchip::TWO;
use crate::pipeline::Enlarger;
use crate::printing::{base_at, light_through, spectral_density, TEN};
use crate::profile::{entry_or_zero, Profile};
use crate::spectral::{color_space_named, input_color_space, ColorSpace, Illuminant};
use crate::spectral::N_WAVELENGTHS;
use crate::spectral_service::TcLut;
use crate::text::same;

verus! {

/// Encoding of 0.184, the share of the light that a grey card reflects.
pub const GREY_CARD: u64 = 0x3fc7_8d4f_df3b_645a;

/// Encoding of 100.0.
pub const HUNDRED: u64 = 0x4059_0000_0000_0000;

/// A lamp: its power by wavelength.
pub struct Lamp {
    pub name: String,
    pub power: Vec<Double>,
}

/// The lamps and the filters of an enlarger, by wavelength, and the arithmetic
/// that it is computed with.
pub struct Lights<A> {
    pub ar: A,
    pub lamps: Vec<Lamp>,
    pub cyan: Vec<Double>,
    pub magenta: Vec<Double>,
    pub yellow: Vec<Double>,
}

// ── Light ────────────────────────────────────────────────────────────────

/// The value of a curve at a wavelength; 1 beyond its end.
pub open spec fn at_wavelength(curve: Seq<Double>, wl: int) -> Double {
    if wl < curve.len() {
        curve[wl]
    } else {
        Double { bits: ONE }
    }
}

/// The power of the first lamp of a name, among those from `n` on; none where
/// no lamp has it.
pub open spec fn power_of(lamps: Seq<Lamp>, name: Seq<char>, n: int) -> Seq<Double>
    decreases lamps.len() - n,
{
    if n < 0 || n >= lamps.len() {
        Seq::empty()
    } else if lamps[n].name@ == name {
        lamps[n].power@
    } else {
        power_of(lamps, name, n + 1)
    }
}

/// What a filter lets through when it is turned in by `cc` hundredths of a
/// density.
pub open spec fn let_through(full: Double, cc: Double) -> Formula {
    minus(
        constant(ONE),
        times(
            minus(constant(ONE), double(full)),
            minus(
                constant(ONE),
                power(constant(TEN), over(unary(Unary::Negate, double(cc)), constant(HUNDRED))),
            ),
        ),
    )
}

/// A lamp's power behind three filters.
pub open spec fn filtered(
    power: Double,
    filters: [Double; 3],
    c: Double,
    m: Double,
    y: Double,
) -> Formula {
    times(
        times(
            times(double(power), let_through(filters@[0], c)),
            let_through(filters@[1], m),
        ),
        let_through(filters@[2], y),
    )
}

impl<A: Arithmetic> Lights<A> {
    /// `r` is the light of a lamp behind the filters.
    pub open spec fn is_light(
        &self,
        lamp: Seq<char>,
        c: Double,
        m: Double,
        y: Double,
        r: Seq<Double>,
    ) -> bool {
        r.len() == N_WAVELENGTHS && forall|wl: int|
            0 <= wl < r.len() ==> is_double(
                &self.ar,
                filtered(
                    at_wavelength(power_of(self.lamps@, lamp, 0), wl),
                    [
                        at_wavelength(self.cyan@, wl),
                        at_wavelength(self.magenta@, wl),
                        at_wavelength(self.yellow@, wl),
                    ],
                    c,
                    m,
                    y,
                ),
                #[trigger] r[wl],
            )
    }
}

fn curve_at(curve: &Vec<Double>, wl: usize) -> (r: Double)
    ensures
        r == at_wavelength(curve@, wl as int),
{
    if wl < curve.len() {
        curve[wl]
    } else {
        Double { bits: ONE }
    }
}

fn find_lamp(lamps: &Vec<Lamp>, name: &str) -> (r: Option<usize>)
    ensures
        match r {
            Some(i) => i < lamps@.len() && power_of(lamps@, name@, 0) == lamps@[i as int].power@,
            None => power_of(lamps@, name@, 0) == Seq::<Double>::empty(),
        },
{
    let mut i: usize = 0;
    while i < lamps.len()
        invariant
            i <= lamps@.len(),
            power_of(lamps@, name@, 0) == power_of(lamps@, name@, i as int),
        decreases lamps.len() - i,
    {
        if same(lamps[i].name.as_str(), name) {
            return Some(i);
        }
        i += 1;
    }
    None
}

fn let_through_of<A: Arithmetic>(ar: &A, full: Double, cc: Double) -> (r: Traced<Double>)
    ensures
        r.holds(ar),
        r.formula@ == let_through(full, cc),
{
    let one: Traced<Double> = Traced::constant(ar, ONE);
    let ten: Traced<Double> = Traced::constant(ar, TEN);
    let hundred: Traced<Double> = Traced::constant(ar, HUNDRED);
    let density: Traced<Double> = Traced::new(ar, cc);
    let dimmed = ten.power(ar, density.unary(ar, Unary::Negate).over(ar, hundred));
    let stopped = one.minus(ar, Traced::new(ar, full)).times(ar, one.minus(ar, dimmed));
    one.minus(ar, stopped)
}

// ── The grey card ────────────────────────────────────────────────────────

/// What a grey card reflects, in a scene that is brighter by `ev` stops.
pub open spec fn grey(ev: Option<Single>) -> Formula {
    match ev {
        Some(e) => times(constant(GREY_CARD), power(constant(TWO), widen(single(e)))),
        None => constant(GREY_CARD),
    }
}

/// `r` is the density that a film develops to.
pub open spec fn is_simply_developed<A: Arithmetic>(
    ar: &A,
    log: ImageBuf<Double>,
    axis: Seq<Double>,
    curves: Seq<[Double; 3]>,
    gamma: Double,
    r: ImageBuf<Double>,
) -> bool {
    exists|stretched: Seq<Double>, low: [Double; 3], norm: Seq<[Double; 3]>|
        #[trigger] is_gamma_axis(ar, axis, gamma, stretched) && #[trigger] normalized(
            ar,
            curves,
            low,
            norm,
        ) && is_read(ar, log, stretched, norm, r)
}

/// The rows hold a film's density curves.
pub open spec fn are_film_curves(film: Profile, r: Seq<[Double; 3]>) -> bool {
    &&& r.len() == film.data.density_curves@.len()
    &&& forall|i: int, c: int|
        0 <= i < r.len() && 0 <= c < 3 ==> #[trigger] r[i]@[c] == entry_or_zero(
            film.data.density_curves@[i]@,
            c,
        )
}

/// The rows hold a film's densities by channel.
pub open spec fn are_film_dyes(film: Profile, r: Seq<[Double; 3]>) -> bool {
    &&& r.len() == film.data.channel_density@.len()
    &&& forall|i: int, c: int|
        0 <= i < r.len() && 0 <= c < 3 ==> #[trigger] r[i]@[c] == entry_or_zero(
            film.data.channel_density@[i]@,
            c,
        )
}

/// `r` is the density of three dyes by wavelength, with that of the base.
pub open spec fn is_spectrum<A: Arithmetic>(
    ar: &A,
    dyes: Seq<[Double; 3]>,
    base: Seq<Double>,
    cmy: Seq<Double>,
    r: Seq<Double>,
) -> bool {
    r.len() == dyes.len() && forall|wl: int|
        0 <= wl < r.len() ==> is_double(
            ar,
            spectral_density(
                seq![double(cmy[0]), double(cmy[1]), double(cmy[2])],
                dyes[wl],
                base_at(base, dyes.len() as int, wl),
            ),
            #[trigger] r[wl],
        )
}

/// The tables of the film are complete.
pub open spec fn can_expose(lut: TcLut, film: Profile) -> bool {
    &&& usable(lut)
    &&& film.data.log_exposure@.len() == film.data.density_curves@.len()
    &&& film.data.log_exposure@.len() > 0
}

/// `r` is the spectral density of a grey card on film.
pub open spec fn is_card_density<A: Arithmetic>(
    ar: &A,
    lut: TcLut,
    film: Profile,
    params: RuntimeParams,
    illuminant: Illuminant,
    ev: Option<Single>,
    r: Seq<Double>,
) -> bool {
    exists|
        card: ImageBuf<Double>,
        raw: ImageBuf<Double>,
        log: ImageBuf<Double>,
        curves: Seq<[Double; 3]>,
        gamma: Double,
        density: ImageBuf<Double>,
        dyes: Seq<[Double; 3]>,
    |
        {
            &&& #[trigger] is_card(ar, ev, card)
            &&& #[trigger] is_taken(
                ar,
                card,
                lut,
                color_space_named(params.io.input_color_space@, ColorSpace::ProPhoto),
                illuminant.short_powers(),
                raw,
            )
            &&& #[trigger] is_logarithm(ar, raw, log)
            &&& are_film_curves(film, curves)
            &&& is_double(ar, widen(single(params.film_render.density_curve_gamma)), gamma)
            &&& #[trigger] is_simply_developed(
                ar,
                log,
                film.data.log_exposure@,
                curves,
                gamma,
                density,
            )
            &&& are_film_dyes(film, dyes)
            &&& #[trigger] is_spectrum(ar, dyes, film.data.base_density@, density.data@, r)
        }
}

/// An image of one pixel, of a grey card.
pub open spec fn is_card<A: Arithmetic>(ar: &A, ev: Option<Single>, card: ImageBuf<Double>) -> bool {
    exists|g: Double| #[trigger]
        is_double(ar, grey(ev), g) && card.width == 1 && card.height == 1 && card.data@ == seq![
            g,
            g,
            g,
        ]
}

fn grey_card<A: Arithmetic>(ar: &A, ev: Option<Single>) -> (r: ImageBuf<Double>)
    ensures
        is_card(ar, ev, r),
        r.valid(),
        r.width == 1,
        r.height == 1,
{
    let share: Traced<Double> = Traced::constant(ar, GREY_CARD);
    let g = match ev {
        Some(e) => {
            let two: Traced<Double> = Traced::constant(ar, TWO);
            let stops: Traced<Single> = Traced::new(ar, e);
            share.times(ar, two.power(ar, stops.widen(ar))).value
        },
        None => share.value,
    };
    let mut data: Vec<Double> = Vec::new();
    data.push(g);
    data.push(g);
    data.push(g);
    assert(is_double(ar, grey(ev), g));
    assert(data@ =~= seq![g, g, g]);
    assert(crate::image::pixels_of(1, 1) == 1);
    ImageBuf { width: 1, height: 1, data }
}

fn spectrum<A: Arithmetic>(
    ar: &A,
    dyes: &Vec<[Double; 3]>,
    base: &Vec<Double>,
    cmy: &Vec<Double>,
) -> (r: Vec<Double>)
    requires
        cmy@.len() == 3,
    ensures
        is_spectrum(ar, dyes@, base@, cmy@, r@),
{
    let has_base: bool = base.len() > 0 && base.len() >= dyes.len();
    let mut r: Vec<Double> = Vec::new();
    let mut wl: usize = 0;
    while wl < dyes.len()
        invariant
            wl <= dyes@.len(),
            cmy@.len() == 3,
            has_base == (base@.len() > 0 && base@.len() >= dyes@.len()),
            r@.len() == wl,
            forall|i: int|
                0 <= i < wl ==> is_double(
                    ar,
                    spectral_density(
                        seq![double(cmy@[0]), double(cmy@[1]), double(cmy@[2])],
                        dyes@[i],
                        base_at(base@, dyes@.len() as int, i),
                    ),
                    #[trigger] r@[i],
                ),
        decreases dyes.len() - wl,
    {
        let row = dyes[wl];
        let a: Traced<Double> = Traced::new(ar, cmy[0]);
        let b: Traced<Double> = Traced::new(ar, cmy[1]);
        let c: Traced<Double> = Traced::new(ar, cmy[2]);
        let all = a.times(ar, Traced::new(ar, row[0])).plus(
            ar,
            b.times(ar, Traced::new(ar, row[1])),
        ).plus(ar, c.times(ar, Traced::new(ar, row[2])));
        let v = if has_base {
            all.plus(ar, Traced::new(ar, base[wl])).value
        } else {
            all.value
        };
        r.push(v);
        wl += 1;
    }
    r
}

// ── Exposure ─────────────────────────────────────────────────────────────

/// The exposure of a channel by the light through a density, over `n`
/// wavelengths.
pub open spec fn card_exposure(
    density: Seq<Double>,
    light: Seq<Double>,
    sensitivity: Seq<[Double; 3]>,
    c: int,
    n: int,
) -> Formula {
    sum_from(
        constant(0),
        |wl: int|
            times(light_through(double(density[wl]), light[wl]), double(sensitivity[wl]@[c])),
        n,
    )
}

/// How many wavelengths all three tables have.
pub open spec fn common(density: nat, light: nat, sensitivity: nat) -> int {
    if density <= light && density <= sensitivity {
        density as int
    } else if light <= sensitivity {
        light as int
    } else {
        sensitivity as int
    }
}

/// One over the geometric mean of the exposures of the three channels.
pub open spec fn midgray_factor(
    density: Seq<Double>,
    light: Seq<Double>,
    sensitivity: Seq<[Double; 3]>,
) -> Formula {
    let n = common(density.len(), light.len(), sensitivity.len());
    over(
        constant(ONE),
        unary(
            Unary::CubeRoot,
            times(
                times(
                    card_exposure(density, light, sensitivity, 0, n),
                    card_exposure(density, light, sensitivity, 1, n),
                ),
                card_exposure(density, light, sensitivity, 2, n),
            ),
        ),
    )
}

fn card_exposure_of<A: Arithmetic>(
    ar: &A,
    density: &Vec<Double>,
    light: &Vec<Double>,
    sensitivity: &Vec<[Double; 3]>,
    c: usize,
    n: usize,
) -> (r: Traced<Double>)
    requires
        c < 3,
        n <= density@.len(),
        n <= light@.len(),
        n <= sensitivity@.len(),
    ensures
        r.holds(ar),
        r.formula@ == card_exposure(density@, light@, sensitivity@, c as int, n as int),
{
    let mut sum: Traced<Double> = Traced::constant(ar, 0);
    let mut wl: usize = 0;
    while wl < n
        invariant
            wl <= n,
            c < 3,
            n <= density@.len(),
            n <= light@.len(),
            n <= sensitivity@.len(),
            sum.holds(ar),
            sum.formula@ == card_exposure(density@, light@, sensitivity@, c as int, wl as int),
        decreases n - wl,
    {
        let ten: Traced<Double> = Traced::constant(ar, TEN);
        let d: Traced<Double> = Traced::new(ar, density[wl]);
        let row = sensitivity[wl];
        let t = ten.power(ar, d.unary(ar, Unary::Negate));
        let passed = t.times(ar, Traced::new(ar, light[wl])).without_nan(ar);
        sum = sum.plus(ar, passed.times(ar, Traced::new(ar, row[c])));
        wl += 1;
    }
    sum
}

// ── The enlarger ─────────────────────────────────────────────────────────

impl<A: Arithmetic> Enlarger for Lights<A> {
    fn filtered_illuminant(&self, lamp: &str, c: Double, m: Double, y: Double) -> (r: Vec<Double>)
        ensures
            self.is_light(lamp@, c, m, y, r@),
    {
        let ar = &self.ar;
        let found = find_lamp(&self.lamps, lamp);
        let ghost power = power_of(self.lamps@, lamp@, 0);
        let mut r: Vec<Double> = Vec::new();
        let mut wl: usize = 0;
        while wl < N_WAVELENGTHS
            invariant
                wl <= N_WAVELENGTHS,
                ar == &self.ar,
                power == power_of(self.lamps@, lamp@, 0),
                match found {
                    Some(i) => i < self.lamps@.len() && power == self.lamps@[i as int].power@,
                    None => power == Seq::<Double>::empty(),
                },
                r@.len() == wl,
                forall|k: int|
                    0 <= k < wl ==> is_double(
                        ar,
                        filtered(
                            at_wavelength(power, k),
                            [
                                at_wavelength(self.cyan@, k),
                                at_wavelength(self.magenta@, k),
                                at_wavelength(self.yellow@, k),
                            ],
                            c,
                            m,
                            y,
                        ),
                        #[trigger] r@[k],
                    ),
            decreases N_WAVELENGTHS - wl,
        {
            let strength = match found {
                Some(i) => curve_at(&self.lamps[i].power, wl),
                None => Double { bits: ONE },
            };
            let light: Traced<Double> = Traced::new(ar, strength);
            let v = light.times(ar, let_through_of(ar, curve_at(&self.cyan, wl), c)).times(
                ar,
                let_through_of(ar, curve_at(&self.magenta, wl), m),
            ).times(ar, let_through_of(ar, curve_at(&self.yellow, wl), y));
            r.push(v.value);
            wl += 1;
        }
        r
    }

    /// Gives nothing where the tables of the film are incomplete.
    fn midgray_density(
        &self,
        lut: &TcLut,
        film: &Profile,
        params: &RuntimeParams,
        illuminant: Illuminant,
        ev: Option<Single>,
    ) -> (r: Vec<Double>)
        ensures
            if can_expose(*lut, *film) {
                is_card_density(&self.ar, *lut, *film, *params, illuminant, ev, r@)
            } else {
                r@.len() == 0
            },
    {
        let ar = &self.ar;
        let n: usize = film.data.log_exposure.len();
        if !is_usable(lut) || n != film.data.density_curves.len() || n == 0 {
            return Vec::new();
        }
        let card = grey_card(ar, ev);
        let space = input_color_space(params.io.input_color_space.as_str());
        let light = illuminant.power_numbers();
        let raw = hanatos2025_rgb_to_raw(ar, &card, lut, space, light.as_slice());
        assert(is_taken(ar, card, *lut, space, illuminant.short_powers(), raw));
        let log = logarithm(ar, &raw);
        let axis = film.log_exposure_f64();
        let curves = film.density_curves_f64();
        let g: Traced<Single> = Traced::new(ar, params.film_render.density_curve_gamma);
        let gamma = g.widen(ar).value;
        let density = develop_simple_f64(ar, &log, axis.as_slice(), curves.as_slice(), gamma);
        assert(is_simply_developed(ar, log, axis@, curves@, gamma, density));
        let dyes = film.channel_density_f64();
        let r = spectrum(ar, &dyes, &film.data.base_density, &density.data);
        proof {
            assert(are_film_curves(*film, curves@));
            assert(are_film_dyes(*film, dyes@));
            assert(is_spectrum(ar, dyes@, film.data.base_density@, density.data@, r@));
        }
        r
    }

    fn exposure_factor(
        &self,
        density: &Vec<Double>,
        illuminant: &Vec<Double>,
        sensitivity: &Vec<[Double; 3]>,
    ) -> (r: Double)
        ensures
            is_double(&self.ar, midgray_factor(density@, illuminant@, sensitivity@), r),
    {
        let ar = &self.ar;
        let n: usize = if density.len() <= illuminant.len() && density.len()
            <= sensitivity.len() {
            density.len()
        } else if illuminant.len() <= sensitivity.len() {
            illuminant.len()
        } else {
            sensitivity.len()
        };
        let a = card_exposure_of(ar, density, illuminant, sensitivity, 0, n);
        let b = card_exposure_of(ar, density, illuminant, sensitivity, 1, n);
        let c = card_exposure_of(ar, density, illuminant, sensitivity, 2, n);
        let one: Traced<Double> = Traced::constant(ar, ONE);
        one.over(ar, a.times(ar, b).times(ar, c).unary(ar, Unary::CubeRoot)).value
    }
}

} // verus!
