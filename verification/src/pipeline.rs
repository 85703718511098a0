//! The pipeline: an image onto film, the film onto paper, and the result
//! scanned.

use vstd::prelude::*;

use crate::arith::{double, evaluates, is_double, is_single, narrow, over, plus, single, widen};
use crate::arith::{Arithmetic, Sample, Traced};
use crate::backend::{addressable, is_usable, usable, ComputeBackend};
use crate::bits::{Double, Single};
use crate::colorspace::{srgb_encode, srgb_encoded};
use crate::density_curves::ONE;
use crate::filming::is_filmed;
use crate::glare::draws_counted;
use crate::image::ImageBuf;
use crate::neutral_filters::{FilterKey, NeutralFilters};
use crate::npy::{is_array_of, NpyArray, NpyError};
use crate::params::{DirCouplersParams, EnlargerParams, FilmRenderingParams, RuntimeParams};
use crate::printing::{are_sensitivities, buildable, is_buildable, is_printed};
use crate::printing::{process_with_calibration, sensitivities};
use crate::profile::Profile;
use crate::resident::{resident_inputs, ChainInputs};
use crate::scanning::{clip, is_clipped, is_scan, scan, unit, unit_of};
use crate::spectral::{illuminant_named, select_illuminant, Illuminant};
use crate::spectral_service::{are_operands, compute_tc_lut, compute_tc_lut_with_window};
use crate::spectral_service::{counted_wavelengths, fills, is_tc_lut, load_spectra_lut, loaded};
use crate::spectral_service::{multiplies, ProductShape, SpectraLut, TcLut};

verus! {

/// What the enlarger is asked for.
pub trait Enlarger {
    /// Its light, with a lamp and three filters.
    fn filtered_illuminant(&self, lamp: &str, c: Double, m: Double, y: Double) -> Vec<Double>;

    /// The spectral density of a grey card on film; with `ev`, of one in a
    /// scene that is brighter by this many stops.
    fn midgray_density(
        &self,
        lut: &TcLut,
        film: &Profile,
        params: &RuntimeParams,
        illuminant: Illuminant,
        ev: Option<Single>,
    ) -> Vec<Double>;

    /// The factor that brings the light through a density to middle exposure.
    fn exposure_factor(
        &self,
        density: &Vec<Double>,
        illuminant: &Vec<Double>,
        sensitivity: &Vec<[Double; 3]>,
    ) -> Double;
}

/// A film and a paper with all that a render needs.
pub struct Pipeline {
    pub film: Profile,
    pub print: Profile,
    pub params: RuntimeParams,
    pub tc_lut: Option<TcLut>,
    pub print_exposure_factor: Double,
    pub print_illuminant: Vec<Double>,
}

// ── What the kind of film sets ───────────────────────────────────────────

/// The couplers have these gammas, and are otherwise as they were.
pub open spec fn has_gammas(
    p: DirCouplersParams,
    r: DirCouplersParams,
    same: Seq<Double>,
    red: Seq<Double>,
    green: Seq<Double>,
    blue: Seq<Double>,
) -> bool {
    &&& r.gamma_samelayer_rgb@ == same
    &&& r.gamma_interlayer_r_to_gb@ == red
    &&& r.gamma_interlayer_g_to_rb@ == green
    &&& r.gamma_interlayer_b_to_rg@ == blue
    &&& r.active == p.active
    &&& r.amount == p.amount
    &&& r.inhibition_samelayer == p.inhibition_samelayer
    &&& r.inhibition_interlayer == p.inhibition_interlayer
    &&& r.diffusion_size_um == p.diffusion_size_um
    &&& r.diffusion_tail_um == p.diffusion_tail_um
    &&& r.diffusion_tail_weight == p.diffusion_tail_weight
}

/// The couplers of a film: those of its kind.
pub open spec fn are_film_couplers(
    film: Profile,
    p: DirCouplersParams,
    r: DirCouplersParams,
) -> bool {
    if film.info.film_type@ == "positive"@ {
        // 0.12, 0.08 and 0.06
        has_gammas(
            p,
            r,
            seq![
                Double { bits: 0x3fbe_b851_eb85_1eb8 },
                Double { bits: 0x3fb4_7ae1_47ae_147b },
                Double { bits: 0x3fae_b851_eb85_1eb8 },
            ],
            seq![Double { bits: 0x3fbe_b851_eb85_1eb8 }, Double { bits: 0x3fae_b851_eb85_1eb8 }],
            seq![Double { bits: 0x3fb4_7ae1_47ae_147b }, Double { bits: 0x3fae_b851_eb85_1eb8 }],
            seq![Double { bits: 0x3fae_b851_eb85_1eb8 }, Double { bits: 0x3fae_b851_eb85_1eb8 }],
        )
    } else if film.info.film_type@ == "negative"@ {
        // 0.336, 0.319, 0.273; 0.353, 0.302; 0.154, 0.353; 0.168, 0.226
        has_gammas(
            p,
            r,
            seq![
                Double { bits: 0x3fd5_8106_24dd_2f1b },
                Double { bits: 0x3fd4_6a7e_f9db_22d1 },
                Double { bits: 0x3fd1_78d4_fdf3_b646 },
            ],
            seq![Double { bits: 0x3fd6_978d_4fdf_3b64 }, Double { bits: 0x3fd3_53f7_ced9_1687 }],
            seq![Double { bits: 0x3fc3_b645_a1ca_c083 }, Double { bits: 0x3fd6_978d_4fdf_3b64 }],
            seq![Double { bits: 0x3fc5_8106_24dd_2f1b }, Double { bits: 0x3fcc_ed91_6872_b021 }],
        )
    } else {
        r == p
    }
}

/// Parameters with other couplers.
pub open spec fn with_couplers(p: RuntimeParams, d: DirCouplersParams) -> RuntimeParams {
    RuntimeParams {
        film_render: FilmRenderingParams { dir_couplers: d, ..p.film_render },
        ..p
    }
}

/// `r` is the parameters with what the kind of film sets.
pub open spec fn is_specific(film: Profile, p: RuntimeParams, r: RuntimeParams) -> bool {
    &&& r == with_couplers(p, r.film_render.dir_couplers)
    &&& are_film_couplers(
        film,
        p.film_render.dir_couplers,
        r.film_render.dir_couplers,
    )
}

/// Sets what the kind of film sets: the gammas of the couplers.
pub fn apply_film_specifics(film: &Profile, params: RuntimeParams) -> (r: RuntimeParams)
    ensures
        is_specific(*film, params, r),
{
    let mut r = params;
    if film.is_positive() {
        let a = Double { bits: 0x3fbe_b851_eb85_1eb8 };
        let b = Double { bits: 0x3fb4_7ae1_47ae_147b };
        let c = Double { bits: 0x3fae_b851_eb85_1eb8 };
        r.film_render.dir_couplers.gamma_samelayer_rgb = [a, b, c];
        r.film_render.dir_couplers.gamma_interlayer_r_to_gb = [a, c];
        r.film_render.dir_couplers.gamma_interlayer_g_to_rb = [b, c];
        r.film_render.dir_couplers.gamma_interlayer_b_to_rg = [c, c];
        proof {
            let d = r.film_render.dir_couplers;
            assert(d.gamma_samelayer_rgb@ =~= seq![a, b, c]);
            assert(d.gamma_interlayer_r_to_gb@ =~= seq![a, c]);
            assert(d.gamma_interlayer_g_to_rb@ =~= seq![b, c]);
            assert(d.gamma_interlayer_b_to_rg@ =~= seq![c, c]);
        }
    } else if film.is_negative() {
        let s0 = Double { bits: 0x3fd5_8106_24dd_2f1b };
        let s1 = Double { bits: 0x3fd4_6a7e_f9db_22d1 };
        let s2 = Double { bits: 0x3fd1_78d4_fdf3_b646 };
        let r0 = Double { bits: 0x3fd6_978d_4fdf_3b64 };
        let r1 = Double { bits: 0x3fd3_53f7_ced9_1687 };
        let g0 = Double { bits: 0x3fc3_b645_a1ca_c083 };
        let b0 = Double { bits: 0x3fc5_8106_24dd_2f1b };
        let b1 = Double { bits: 0x3fcc_ed91_6872_b021 };
        r.film_render.dir_couplers.gamma_samelayer_rgb = [s0, s1, s2];
        r.film_render.dir_couplers.gamma_interlayer_r_to_gb = [r0, r1];
        r.film_render.dir_couplers.gamma_interlayer_g_to_rb = [g0, r0];
        r.film_render.dir_couplers.gamma_interlayer_b_to_rg = [b0, b1];
        proof {
            let d = r.film_render.dir_couplers;
            assert(d.gamma_samelayer_rgb@ =~= seq![s0, s1, s2]);
            assert(d.gamma_interlayer_r_to_gb@ =~= seq![r0, r1]);
            assert(d.gamma_interlayer_g_to_rb@ =~= seq![g0, r0]);
            assert(d.gamma_interlayer_b_to_rg@ =~= seq![b0, b1]);
            reveal_strlit("positive");
            reveal_strlit("negative");
        }
    }
    r
}

// ── Neutral filters ──────────────────────────────────────────────────────

/// Parameters with other neutral filters.
pub open spec fn with_filters(p: RuntimeParams, c: Single, m: Single, y: Single) -> RuntimeParams {
    RuntimeParams {
        enlarger: EnlargerParams {
            c_filter_neutral: c,
            m_filter_neutral: m,
            y_filter_neutral: y,
            ..p.enlarger
        },
        ..p
    }
}

/// A name, empty where there is none.
pub open spec fn name_of(stock: Option<String>) -> Seq<char> {
    match stock {
        Some(s) => s@,
        None => Seq::empty(),
    }
}

/// What the database holds for a render, where it is asked.
pub open spec fn database_filters(
    film: Profile,
    print: Profile,
    p: RuntimeParams,
    db: NeutralFilters,
) -> Option<[Double; 3]> {
    if p.settings.neutral_print_filters_from_database {
        db.settings(
            FilterKey {
                print_stock: name_of(print.info.stock),
                illuminant: p.enlarger.illuminant@,
                film_stock: name_of(film.info.stock),
            },
        )
    } else {
        None
    }
}

/// `r` is the parameters with their neutral filters, and `cmy` the filters in
/// double precision: those of the database, or those of the parameters.
pub open spec fn are_filters<A: Arithmetic>(
    ar: &A,
    found: Option<[Double; 3]>,
    p: RuntimeParams,
    r: RuntimeParams,
    cmy: [Double; 3],
) -> bool {
    match found {
        Some(v) => {
            &&& cmy == v
            &&& r == with_filters(
                p,
                r.enlarger.c_filter_neutral,
                r.enlarger.m_filter_neutral,
                r.enlarger.y_filter_neutral,
            )
            &&& is_single(ar, narrow(double(v@[0])), r.enlarger.c_filter_neutral)
            &&& is_single(ar, narrow(double(v@[1])), r.enlarger.m_filter_neutral)
            &&& is_single(ar, narrow(double(v@[2])), r.enlarger.y_filter_neutral)
        },
        None => {
            &&& r == p
            &&& is_double(ar, widen(single(p.enlarger.c_filter_neutral)), cmy@[0])
            &&& is_double(ar, widen(single(p.enlarger.m_filter_neutral)), cmy@[1])
            &&& is_double(ar, widen(single(p.enlarger.y_filter_neutral)), cmy@[2])
        },
    }
}

fn wide<A: Arithmetic>(ar: &A, x: Single) -> (r: Double)
    ensures
        is_double(ar, widen(single(x)), r),
{
    let v: Traced<Single> = Traced::new(ar, x);
    v.widen(ar).value
}

fn short<A: Arithmetic>(ar: &A, x: Double) -> (r: Single)
    ensures
        is_single(ar, narrow(double(x)), r),
{
    let v: Traced<Double> = Traced::new(ar, x);
    v.narrow(ar).value
}

/// Sets the neutral filters from the database.
pub fn apply_database_filters<A: Arithmetic>(
    ar: &A,
    film: &Profile,
    print: &Profile,
    params: RuntimeParams,
    db: &NeutralFilters,
) -> (r: (RuntimeParams, [Double; 3]))
    ensures
        are_filters(ar, database_filters(*film, *print, params, *db), params, r.0, r.1),
{
    let mut p = params;
    if p.settings.neutral_print_filters_from_database {
        let print_stock = print.stock_or_empty();
        let film_stock = film.stock_or_empty();
        let found = db.lookup(
            print_stock.as_str(),
            p.enlarger.illuminant.as_str(),
            film_stock.as_str(),
        );
        if let Some(v) = found {
            p.enlarger.c_filter_neutral = short(ar, v[0]);
            p.enlarger.m_filter_neutral = short(ar, v[1]);
            p.enlarger.y_filter_neutral = short(ar, v[2]);
            return (p, v);
        }
    }
    let c = wide(ar, p.enlarger.c_filter_neutral);
    let m = wide(ar, p.enlarger.m_filter_neutral);
    let y = wide(ar, p.enlarger.y_filter_neutral);
    (p, [c, m, y])
}

// ── The light of the enlarger ────────────────────────────────────────────

/// `r` is the light of the enlarger with its filters.
pub open spec fn is_enlarger_light<A: Arithmetic, E: Enlarger>(
    ar: &A,
    enlarger: &E,
    p: RuntimeParams,
    cmy: [Double; 3],
    r: Vec<Double>,
) -> bool {
    exists|lamp: &str, m: Double, y: Double|
        {
            &&& lamp@ == p.enlarger.illuminant@
            &&& is_double(
                ar,
                plus(double(cmy@[1]), widen(single(p.enlarger.m_filter_shift))),
                m,
            )
            &&& is_double(
                ar,
                plus(double(cmy@[2]), widen(single(p.enlarger.y_filter_shift))),
                y,
            )
            &&& #[trigger] call_ensures(
                E::filtered_illuminant,
                (enlarger, lamp, cmy@[0], m, y),
                r,
            )
        }
}

fn enlarger_light<A: Arithmetic, E: Enlarger>(
    ar: &A,
    enlarger: &E,
    p: &RuntimeParams,
    cmy: [Double; 3],
) -> (r: Vec<Double>)
    ensures
        is_enlarger_light(ar, enlarger, *p, cmy, r),
{
    let ms: Traced<Single> = Traced::new(ar, p.enlarger.m_filter_shift);
    let ys: Traced<Single> = Traced::new(ar, p.enlarger.y_filter_shift);
    let mt: Traced<Double> = Traced::new(ar, cmy[1]);
    let yt: Traced<Double> = Traced::new(ar, cmy[2]);
    let m = mt.plus(ar, ms.widen(ar)).value;
    let y = yt.plus(ar, ys.widen(ar)).value;
    let lamp = p.enlarger.illuminant.as_str();
    let r = enlarger.filtered_illuminant(lamp, cmy[0], m, y);
    assert(call_ensures(E::filtered_illuminant, (enlarger, lamp, cmy@[0], m, y), r));
    r
}

/// `r` is the light of the enlarger with the filters of the parameters, added
/// up in single precision.
pub open spec fn is_plain_light<A: Arithmetic, E: Enlarger>(
    ar: &A,
    enlarger: &E,
    p: RuntimeParams,
    r: Vec<Double>,
) -> bool {
    exists|lamp: &str, c: Double, m: Double, y: Double|
        {
            &&& lamp@ == p.enlarger.illuminant@
            &&& is_double(ar, widen(single(p.enlarger.c_filter_neutral)), c)
            &&& is_double(
                ar,
                widen(
                    plus(
                        single(p.enlarger.m_filter_neutral),
                        single(p.enlarger.m_filter_shift),
                    ),
                ),
                m,
            )
            &&& is_double(
                ar,
                widen(
                    plus(
                        single(p.enlarger.y_filter_neutral),
                        single(p.enlarger.y_filter_shift),
                    ),
                ),
                y,
            )
            &&& #[trigger] call_ensures(E::filtered_illuminant, (enlarger, lamp, c, m, y), r)
        }
}

// ── The table of film exposure ───────────────────────────────────────────

/// The sensitivities of a film are seen through a window.
pub open spec fn windowed(film: Profile, p: RuntimeParams) -> bool {
    p.settings.apply_hanatos2025_adaptation_window
        && film.data.hanatos2025_adaptation_window_params@.len() >= 4
}

/// `r` is the table of the film's exposure.
pub open spec fn is_film_table<
    A: Arithmetic,
    P: Fn(&Vec<Double>, &Vec<Double>, ProductShape) -> Vec<Double>,
>(
    ar: &A,
    film: Profile,
    p: RuntimeParams,
    spectra: SpectraLut,
    sens: Seq<[Double; 3]>,
    product: P,
    r: TcLut,
) -> bool {
    if windowed(film, p) {
        &&& r.size == spectra.size
        &&& r.channels == 3
        &&& exists|left: Vec<Double>, right: Vec<Double>|
            multiplies(
                product,
                (spectra.size * spectra.size) as usize,
                counted_wavelengths(spectra, sens) as usize,
                left,
                right,
                r.data,
            ) && #[trigger] are_operands(
                ar,
                spectra,
                sens,
                film.data.hanatos2025_adaptation_window_params@,
                illuminant_named(film.info.reference_illuminant@, Illuminant::D55).powers(),
                left@,
                right@,
            )
    } else {
        is_tc_lut(ar, spectra, sens, r)
    }
}

fn film_table<A: Arithmetic, P: Fn(&Vec<Double>, &Vec<Double>, ProductShape) -> Vec<Double>>(
    ar: &A,
    film: &Profile,
    p: &RuntimeParams,
    spectra: &SpectraLut,
    sens: &Vec<[Double; 3]>,
    product: P,
) -> (r: TcLut)
    requires
        spectra.valid(),
        spectra.n_wavelengths == 81,
        fills(product),
    ensures
        is_film_table(ar, *film, *p, *spectra, sens@, product, r),
        r.valid(),
        r.channels == 3,
{
    let total: usize = spectra.data.len();
    proof {
        let s = spectra.size as int;
        assert(s * s * 81 == total);
        assert(0 <= s * s && s * s * 3 <= usize::MAX) by (nonlinear_arith)
            requires
                s * s * 81 <= usize::MAX,
        ;
    }
    if p.settings.apply_hanatos2025_adaptation_window
        && film.data.hanatos2025_adaptation_window_params.len() >= 4 {
        let light = select_illuminant(film.info.reference_illuminant.as_str()).power_f64();
        compute_tc_lut_with_window(
            ar,
            spectra,
            sens.as_slice(),
            film.data.hanatos2025_adaptation_window_params.as_slice(),
            light.as_slice(),
            product,
        )
    } else {
        compute_tc_lut(ar, spectra, sens.as_slice())
    }
}

// ── Exposure of the print ────────────────────────────────────────────────

/// `f` is the factor of the grey card that is exposed by `ev` less.
pub open spec fn is_card_factor<E: Enlarger>(
    enlarger: &E,
    lut: TcLut,
    film: Profile,
    p: RuntimeParams,
    light: Vec<Double>,
    sens: Vec<[Double; 3]>,
    ev: Option<Single>,
    f: Double,
) -> bool {
    exists|density: Vec<Double>|
        {
            &&& #[trigger] call_ensures(
                E::midgray_density,
                (
                    enlarger,
                    &lut,
                    &film,
                    &p,
                    illuminant_named(film.info.reference_illuminant@, Illuminant::D55),
                    ev,
                ),
                density,
            )
            &&& call_ensures(E::exposure_factor, (enlarger, &density, &light, &sens), f)
        }
}

fn card_factor<E: Enlarger>(
    enlarger: &E,
    lut: &TcLut,
    film: &Profile,
    p: &RuntimeParams,
    light: &Vec<Double>,
    sens: &Vec<[Double; 3]>,
    ev: Option<Single>,
) -> (f: Double)
    ensures
        is_card_factor(enlarger, *lut, *film, *p, *light, *sens, ev, f),
{
    let illuminant = select_illuminant(film.info.reference_illuminant.as_str());
    let density = enlarger.midgray_density(lut, film, p, illuminant, ev);
    let f = enlarger.exposure_factor(&density, light, sens);
    proof {
        assert(call_ensures(
            E::midgray_density,
            (enlarger, lut, film, p, illuminant, ev),
            density,
        ));
    }
    f
}

/// `comp` is the factor of the compensated grey card: 1 without compensation
/// of the print, and that of the plain card without one of the camera.
pub open spec fn is_compensated_factor<E: Enlarger>(
    enlarger: &E,
    lut: TcLut,
    film: Profile,
    p: RuntimeParams,
    light: Vec<Double>,
    sens: Vec<[Double; 3]>,
    plain: Double,
    comp: Double,
) -> bool {
    if !p.enlarger.print_exposure_compensation {
        comp.bits == ONE
    } else if p.camera.exposure_compensation_ev.rank() == 0 {
        comp == plain
    } else {
        is_card_factor(
            enlarger,
            lut,
            film,
            p,
            light,
            sens,
            Some(p.camera.exposure_compensation_ev),
            comp,
        )
    }
}

/// `f` is the factor of the print's exposure.
pub open spec fn is_print_factor<A: Arithmetic>(
    ar: &A,
    normalize: bool,
    compensate: bool,
    plain: Double,
    comp: Double,
    f: Double,
) -> bool {
    if normalize {
        f == if compensate {
            comp
        } else {
            plain
        }
    } else if compensate {
        is_double(ar, over(double(comp), double(plain)), f)
    } else {
        f.bits == ONE
    }
}

/// The factor of the print's exposure, from the factors of the plain and the
/// compensated grey card.
pub fn print_factor<A: Arithmetic>(
    ar: &A,
    normalize: bool,
    compensate: bool,
    plain: Double,
    comp: Double,
) -> (f: Double)
    ensures
        is_print_factor(ar, normalize, compensate, plain, comp, f),
{
    match (normalize, compensate) {
        (true, true) => comp,
        (true, false) => plain,
        (false, true) => {
            let c: Traced<Double> = Traced::new(ar, comp);
            c.over(ar, Traced::new(ar, plain)).value
        },
        (false, false) => Double { bits: ONE },
    }
}

// ── Calibration ──────────────────────────────────────────────────────────

impl Pipeline {
    /// The pipeline is calibrated for a film, a paper and parameters, with a
    /// table of spectra.
    pub open spec fn is_calibrated<
        A: Arithmetic,
        E: Enlarger,
        P: Fn(&Vec<Double>, &Vec<Double>, ProductShape) -> Vec<Double>,
    >(
        &self,
        ar: &A,
        film: Profile,
        print: Profile,
        params: RuntimeParams,
        db: NeutralFilters,
        spectra: SpectraLut,
        enlarger: &E,
        product: P,
    ) -> bool {
        &&& self.film == film
        &&& self.print == print
        &&& exists|
            specific: RuntimeParams,
            cmy: [Double; 3],
            film_sens: Seq<[Double; 3]>,
            print_sens: Vec<[Double; 3]>,
            lut: TcLut,
            plain: Double,
            comp: Double,
        |
            {
                &&& is_specific(film, params, specific)
                &&& #[trigger] are_filters(
                    ar,
                    database_filters(film, print, specific, db),
                    specific,
                    self.params,
                    cmy,
                )
                &&& are_sensitivities(ar, film, film_sens)
                &&& #[trigger] is_film_table(
                    ar,
                    film,
                    self.params,
                    spectra,
                    film_sens,
                    product,
                    lut,
                )
                &&& self.tc_lut == Some(lut)
                &&& is_enlarger_light(ar, enlarger, self.params, cmy, self.print_illuminant)
                &&& are_sensitivities(ar, print, print_sens@)
                &&& is_card_factor(
                    enlarger,
                    lut,
                    film,
                    self.params,
                    self.print_illuminant,
                    print_sens,
                    None,
                    plain,
                )
                &&& #[trigger] is_compensated_factor(
                    enlarger,
                    lut,
                    film,
                    self.params,
                    self.print_illuminant,
                    print_sens,
                    plain,
                    comp,
                )
                &&& is_print_factor(
                    ar,
                    self.params.enlarger.normalize_print_exposure,
                    self.params.enlarger.print_exposure_compensation,
                    plain,
                    comp,
                    self.print_exposure_factor,
                )
            }
    }

    /// A pipeline without a table of spectra.
    pub fn new<A: Arithmetic, E: Enlarger>(
        ar: &A,
        film: Profile,
        print: Profile,
        params: RuntimeParams,
        enlarger: &E,
    ) -> (r: Pipeline)
        ensures
            r.film == film,
            r.print == print,
            r.params == params,
            r.tc_lut is None,
            r.print_exposure_factor.bits == ONE,
            is_plain_light(ar, enlarger, params, r.print_illuminant),
    {
        let e = &params.enlarger;
        let mn: Traced<Single> = Traced::new(ar, e.m_filter_neutral);
        let yn: Traced<Single> = Traced::new(ar, e.y_filter_neutral);
        let c = wide(ar, e.c_filter_neutral);
        let m = mn.plus(ar, Traced::new(ar, e.m_filter_shift)).widen(ar).value;
        let y = yn.plus(ar, Traced::new(ar, e.y_filter_shift)).widen(ar).value;
        let lamp = e.illuminant.as_str();
        let light = enlarger.filtered_illuminant(lamp, c, m, y);
        proof {
            assert(call_ensures(E::filtered_illuminant, (enlarger, lamp, c, m, y), light));
        }
        Pipeline {
            film,
            print,
            params,
            tc_lut: None,
            print_exposure_factor: Double { bits: ONE },
            print_illuminant: light,
        }
    }

    /// A pipeline calibrated with the table of spectra in the contents of a
    /// file. `product` multiplies matrices.
    pub fn new_with_spectral<
        A: Arithmetic,
        E: Enlarger,
        P: Fn(&Vec<Double>, &Vec<Double>, ProductShape) -> Vec<Double>,
    >(
        ar: &A,
        film: Profile,
        print: Profile,
        params: RuntimeParams,
        db: &NeutralFilters,
        spectra_file: &[u8],
        enlarger: &E,
        product: P,
    ) -> (r: Result<Pipeline, String>)
        requires
            fills(product),
        ensures
            exists|array: Result<NpyArray, NpyError>, spectra: Result<SpectraLut, String>|
                {
                    &&& is_array_of(spectra_file@, array)
                    &&& #[trigger] loaded(ar, array, spectra)
                    &&& match spectra {
                        Err(e) => r matches Err(t) && t == e,
                        Ok(s) => r matches Ok(p) && p.is_calibrated(
                            ar,
                            film,
                            print,
                            params,
                            *db,
                            s,
                            enlarger,
                            product,
                        ),
                    }
                },
            r matches Ok(p) ==> p.tc_lut matches Some(l) && l.valid() && l.channels == 3,
    {
        let specific = apply_film_specifics(&film, params);
        let ghost kept = specific;
        let (p, cmy) = apply_database_filters(ar, &film, &print, specific, db);
        let loaded_table = load_spectra_lut(ar, spectra_file);
        let ghost array = choose|array: Result<NpyArray, NpyError>|
            #[trigger] is_array_of(spectra_file@, array) && loaded(ar, array, loaded_table);
        assert(is_array_of(spectra_file@, array) && loaded(ar, array, loaded_table));
        let ghost told = loaded_table;
        let spectra = match loaded_table {
            Err(e) => {
                return Err(e);
            },
            Ok(s) => s,
        };
        let film_sens = sensitivities(ar, &film);
        let lut = film_table(ar, &film, &p, &spectra, &film_sens, product);
        let ghost the_lut = lut;
        let light = enlarger_light(ar, enlarger, &p, cmy);
        let print_sens = sensitivities(ar, &print);
        let plain = card_factor(enlarger, &lut, &film, &p, &light, &print_sens, None);
        let ev = p.camera.exposure_compensation_ev;
        let comp = if !p.enlarger.print_exposure_compensation {
            Double { bits: ONE }
        } else if ev.is_zero() {
            plain
        } else {
            card_factor(enlarger, &lut, &film, &p, &light, &print_sens, Some(ev))
        };
        let f = print_factor(
            ar,
            p.enlarger.normalize_print_exposure,
            p.enlarger.print_exposure_compensation,
            plain,
            comp,
        );
        let r = Pipeline {
            film,
            print,
            params: p,
            tc_lut: Some(lut),
            print_exposure_factor: f,
            print_illuminant: light,
        };
        proof {
            assert(are_filters(
                ar,
                database_filters(film, print, kept, *db),
                kept,
                r.params,
                cmy,
            ));
            assert(is_film_table(
                ar,
                film,
                r.params,
                spectra,
                film_sens@,
                product,
                the_lut,
            ));
            assert(is_compensated_factor(
                enlarger,
                the_lut,
                film,
                r.params,
                r.print_illuminant,
                print_sens,
                plain,
                comp,
            ));
            assert(r.is_calibrated(
                ar,
                film,
                print,
                params,
                *db,
                spectra,
                enlarger,
                product,
            ));
        }
        Ok(r)
    }
}

impl Pipeline {
    /// The table of the film's exposure, where there is one.
    pub fn tc_lut(&self) -> (r: Option<&TcLut>)
        ensures
            is_reference(r, self.tc_lut),
    {
        match &self.tc_lut {
            Some(l) => Some(l),
            None => None,
        }
    }

    /// The factor of the print's exposure.
    pub fn print_exposure_factor(&self) -> (r: Double)
        ensures
            r == self.print_exposure_factor,
    {
        self.print_exposure_factor
    }

    /// The light of the enlarger.
    pub fn print_illuminant_slice(&self) -> (r: &[Double])
        ensures
            r@ == self.print_illuminant@,
    {
        self.print_illuminant.as_slice()
    }
}

// ── Rendering ────────────────────────────────────────────────────────────

/// `r` is an image encoded for output where that is asked for, and kept
/// between 0 and 1.
pub open spec fn is_post_scan<T: Sample, A: Arithmetic>(
    ar: &A,
    img: ImageBuf<T>,
    encode: bool,
    r: ImageBuf<T>,
) -> bool {
    if encode {
        &&& r.width == img.width
        &&& r.height == img.height
        &&& r.data@.len() == img.data@.len()
        &&& forall|i: int|
            0 <= i < img.data@.len() ==> evaluates(
                ar,
                srgb_encoded(unit(img.data@[i])),
                (#[trigger] r.data@[i]).number(),
            )
    } else {
        is_clipped(img, r)
    }
}

/// Finishes the image of a resident render.
pub fn apply_post_scan<T: Sample, A: Arithmetic>(ar: &A, rgb: &ImageBuf<T>, encode: bool) -> (r:
    ImageBuf<T>)
    ensures
        is_post_scan(ar, *rgb, encode, r),
{
    if !encode {
        return clip(rgb);
    }
    let mut data: Vec<T> = Vec::new();
    let mut i: usize = 0;
    while i < rgb.data.len()
        invariant
            i <= rgb.data@.len(),
            data@.len() == i,
            forall|k: int|
                0 <= k < i ==> evaluates(
                    ar,
                    srgb_encoded(unit(rgb.data@[k])),
                    (#[trigger] data@[k]).number(),
                ),
        decreases rgb.data.len() - i,
    {
        data.push(srgb_encode(ar, unit_of(rgb.data[i])));
        i += 1;
    }
    ImageBuf { width: rgb.width, height: rgb.height, data }
}

impl Pipeline {
    /// A render can stay on the GPU: nothing is asked for that its passes do
    /// not do.
    pub open spec fn stays_resident(&self) -> bool {
        &&& !self.params.io.scan_film
        &&& self.tc_lut is Some
        &&& self.params.camera.lens_blur_um.rank() == 0
        &&& !self.params.scanner.white_correction
        &&& !self.params.scanner.black_correction
        &&& self.params.scanner.lens_blur.rank() == 0
    }

    pub fn is_resident(&self) -> (r: bool)
        ensures
            r == self.stays_resident(),
    {
        !self.params.io.scan_film && self.tc_lut.is_some()
            && self.params.camera.lens_blur_um.is_zero() && !self.params.scanner.white_correction
            && !self.params.scanner.black_correction && self.params.scanner.lens_blur.is_zero()
    }

    /// A render can be made: the tables are complete.
    pub open spec fn ready(&self) -> bool {
        &&& self.film.data.log_exposure@.len() == self.film.data.density_curves@.len()
        &&& self.film.data.log_exposure@.len() > 0
        &&& self.print.data.log_exposure@.len() == self.print.data.density_curves@.len()
        &&& self.print.data.log_exposure@.len() > 0
        &&& self.tc_lut matches Some(l) ==> usable(l)
        &&& self.params.settings.use_enlarger_lut || self.params.settings.use_scanner_lut
            ==> buildable(self.params.settings.lut_resolution)
        &&& self.stays_resident() ==> self.print.data.channel_density@.len() <= 81
    }

    /// A render can be made.
    pub fn is_ready(&self) -> (r: bool)
        ensures
            r == self.ready(),
    {
        let film = &self.film.data;
        let print = &self.print.data;
        let readable = match &self.tc_lut {
            Some(l) => is_usable(l),
            None => true,
        };
        let s = &self.params.settings;
        let built = !(s.use_enlarger_lut || s.use_scanner_lut) || is_buildable(s.lut_resolution);
        film.log_exposure.len() == film.density_curves.len() && film.log_exposure.len() > 0
            && print.log_exposure.len() == print.density_curves.len() && print.log_exposure.len()
            > 0 && readable && built && (!self.is_resident() || print.channel_density.len() <= 81)
    }

    /// `r` is the render stage by stage: the film, and the scan of it or of
    /// its print. Nothing where the grain stops short.
    pub open spec fn is_staged<
        T: Sample,
        A: Arithmetic,
        B: ComputeBackend<T>,
        D: Fn(Double, Double, u64, usize) -> Vec<Double>,
    >(
        &self,
        ar: &A,
        backend: &B,
        image: ImageBuf<T>,
        draw: D,
        r: Option<ImageBuf<T>>,
    ) -> bool {
        exists|lut: Option<&TcLut>, filmed: Option<ImageBuf<T>>|
            {
                &&& is_reference(lut, self.tc_lut)
                &&& #[trigger] is_filmed(
                    ar,
                    backend,
                    image,
                    self.film,
                    self.params,
                    lut,
                    filmed,
                )
                &&& match filmed {
                    None => r is None,
                    Some(f) => r matches Some(v) && self.is_shown(ar, backend, f, draw, v),
                }
            }
    }

    /// `r` is what is made of a film: its scan, or the scan of its print.
    pub open spec fn is_shown<
        T: Sample,
        A: Arithmetic,
        B: ComputeBackend<T>,
        D: Fn(Double, Double, u64, usize) -> Vec<Double>,
    >(&self, ar: &A, backend: &B, filmed: ImageBuf<T>, draw: D, r: ImageBuf<T>) -> bool {
        if self.params.io.scan_film {
            is_scan(ar, backend, filmed, self.film, self.params, draw, r)
        } else {
            exists|printed: ImageBuf<T>| #[trigger]
                is_printed(
                    ar,
                    backend,
                    filmed,
                    self.film,
                    self.print,
                    self.params,
                    self.print_illuminant@,
                    self.print_exposure_factor,
                    printed,
                ) && is_scan(ar, backend, printed, self.print, self.params, draw, r)
        }
    }

    /// `r` is the render of an image: on the GPU where it can stay there and
    /// the backend takes it, and stage by stage otherwise.
    pub open spec fn is_render<
        T: Sample,
        A: Arithmetic,
        B: ComputeBackend<T>,
        D: Fn(Double, Double, u64, usize) -> Vec<Double>,
    >(
        &self,
        ar: &A,
        backend: &B,
        image: ImageBuf<T>,
        draw: D,
        r: Option<ImageBuf<T>>,
    ) -> bool {
        if self.stays_resident() {
            exists|inputs: ChainInputs, made: Option<ImageBuf<T>>|
                {
                    &&& #[trigger] inputs.is_for(
                        ar,
                        image,
                        self.film,
                        self.print,
                        self.params,
                        self.print_illuminant@,
                        self.print_exposure_factor,
                    )
                    &&& #[trigger] call_ensures(
                        B::try_run_film_chain,
                        (backend, &image, &self.tc_lut->0, &inputs),
                        made,
                    )
                    &&& match made {
                        Some(out) => r matches Some(v) && is_post_scan(
                            ar,
                            out,
                            self.params.io.output_cctf_encoding,
                            v,
                        ),
                        None => self.is_staged(ar, backend, image, draw, r),
                    }
                }
        } else {
            self.is_staged(ar, backend, image, draw, r)
        }
    }

    fn staged<
        T: Sample,
        A: Arithmetic,
        B: ComputeBackend<T>,
        D: Fn(Double, Double, u64, usize) -> Vec<Double>,
    >(&self, ar: &A, backend: &B, image: &ImageBuf<T>, draw: &D) -> (r: Option<
        ImageBuf<T>,
    >)
        requires
            image.valid(),
            addressable(*image),
            self.ready(),
            draws_counted(*draw),
        ensures
            self.is_staged(ar, backend, *image, *draw, r),
            r matches Some(v) ==> v.width == image.width && v.height == image.height && v.valid(),
            !self.params.film_render.grain.active ==> r is Some,
    {
        let lut = self.tc_lut();
        let filmed = crate::filming::process(
            ar,
            backend,
            image,
            &self.film,
            &self.params,
            lut,
        );
        proof {
            assert(is_filmed(
                ar,
                backend,
                *image,
                self.film,
                self.params,
                lut,
                filmed,
            ));
        }
        match filmed {
            None => None,
            Some(f) => {
                if self.params.io.scan_film {
                    Some(scan(ar, backend, &f, &self.film, &self.params, draw))
                } else {
                    let printed = process_with_calibration(
                        ar,
                        backend,
                        &f,
                        &self.film,
                        &self.print,
                        &self.params,
                        self.print_illuminant.as_slice(),
                        self.print_exposure_factor,
                    );
                    let r = scan(ar, backend, &printed, &self.print, &self.params, draw);
                    proof {
                        assert(is_printed(
                            ar,
                            backend,
                            f,
                            self.film,
                            self.print,
                            self.params,
                            self.print_illuminant@,
                            self.print_exposure_factor,
                            printed,
                        ));
                    }
                    Some(r)
                }
            },
        }
    }

    /// Renders an image; `draw` gives the samples of the glare. Gives nothing
    /// where a sample of the grain is not found within as many tries as 64 bits
    /// can count.
    pub fn process<
        T: Sample,
        A: Arithmetic,
        B: ComputeBackend<T>,
        D: Fn(Double, Double, u64, usize) -> Vec<Double>,
    >(&self, ar: &A, backend: &B, image: &ImageBuf<T>, draw: &D) -> (r: Option<
        ImageBuf<T>,
    >)
        requires
            image.valid(),
            addressable(*image),
            self.ready(),
            draws_counted(*draw),
        ensures
            self.is_render(ar, backend, *image, *draw, r),
            r matches Some(v) ==> v.width == image.width && v.height == image.height && v.valid(),
            !self.params.film_render.grain.active ==> r is Some,
    {
        if self.is_resident() {
            if let Some(lut) = &self.tc_lut {
                let inputs = resident_inputs(
                    ar,
                    image,
                    &self.film,
                    &self.print,
                    &self.params,
                    &self.print_illuminant,
                    self.print_exposure_factor,
                );
                let made = backend.try_run_film_chain(image, lut, &inputs);
                proof {
                    assert(inputs.is_for(
                        ar,
                        *image,
                        self.film,
                        self.print,
                        self.params,
                        self.print_illuminant@,
                        self.print_exposure_factor,
                    ));
                    assert(call_ensures(
                        B::try_run_film_chain,
                        (backend, image, &self.tc_lut->0, &inputs),
                        made,
                    ));
                }
                return match made {
                    Some(out) => {
                        let v = apply_post_scan(
                            ar,
                            &out,
                            self.params.io.output_cctf_encoding,
                        );
                        Some(v)
                    },
                    None => self.staged(ar, backend, image, draw),
                };
            }
        }
        self.staged(ar, backend, image, draw)
    }
}

/// A film that is scanned needs no paper: whatever the paper, the light of
/// the enlarger and its exposure, the renders are the same.
pub proof fn lemma_scan_needs_no_paper<
    T: Sample,
    A: Arithmetic,
    B: ComputeBackend<T>,
    D: Fn(Double, Double, u64, usize) -> Vec<Double>,
>(
    ar: &A,
    backend: &B,
    image: ImageBuf<T>,
    draw: D,
    p: Pipeline,
    q: Pipeline,
    r: Option<ImageBuf<T>>,
)
    requires
        p.params.io.scan_film,
        q.params == p.params,
        q.film == p.film,
        q.tc_lut == p.tc_lut,
    ensures
        p.is_render(ar, backend, image, draw, r) == q.is_render(
            ar,
            backend,
            image,
            draw,
            r,
        ),
{
}

/// A reference to what an option holds.
pub open spec fn is_reference(r: Option<&TcLut>, o: Option<TcLut>) -> bool {
    match o {
        Some(l) => r matches Some(x) && *x == l,
        None => r is None,
    }
}

} // verus!
