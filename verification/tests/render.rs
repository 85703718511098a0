use spektrafilm::arith::{Arithmetic, Binary, Rounding, Unary};
use spektrafilm::backend::{gaussian_blur_multi, ComputeBackend};
use spektrafilm::bits::{Double, Single};
use spektrafilm::colorspace::{colorspace_to_xyz, rgb_to_rgb_matrix};
use spektrafilm::commands::{lut_params, sample_cube};
use spektrafilm::cpu_backend::CpuBackend;
use spektrafilm::density_curves::develop_simple_f64;
use spektrafilm::diffusion::{apply_gaussian_blur_um, apply_halation_um, apply_unsharp_mask};
use spektrafilm::enlarger::{Lamp, Lights};
use spektrafilm::film_chain::{BlurId, Buffer, Shader, Step};
use spektrafilm::filming;
use spektrafilm::gpu_setup::chain_params;
use spektrafilm::gpu_tables::{
    density_dispatch, hanatos_dispatch, print_dispatch, sanitize_spectral_inputs, scan_dispatch,
    upload, Upload, OPAQUE_DENSITY,
};
use spektrafilm::hanatos::{hanatos2025_rgb_to_raw, rgb_to_tc_b};
use spektrafilm::image::ImageBuf;
use spektrafilm::neutral_filters::NeutralFilters;
use spektrafilm::numpy_rng::{GaussRng, MtStream};
use spektrafilm::params::RuntimeParams;
use spektrafilm::pipeline::{Enlarger, Pipeline};
use spektrafilm::profile::{
    profile_file, validate_profile, Profile, ProfileData, ProfileInfo, ProfileMetadata,
};
use spektrafilm::resident::resident_inputs;
use spektrafilm::spectral::{ColorSpace, Illuminant};
use spektrafilm::spectral_service::{
    compute_midgray_normalization, compute_tc_lut, compute_tc_lut_with_window, ProductShape,
    SpectraLut, TcLut,
};

/// The machine's arithmetic.
struct Ieee;

fn d(x: f64) -> Double {
    Double { bits: x.to_bits() }
}

fn s(x: f32) -> Single {
    Single { bits: x.to_bits() }
}

fn fd(x: Double) -> f64 {
    f64::from_bits(x.bits)
}

fn fs(x: Single) -> f32 {
    f32::from_bits(x.bits)
}

impl Arithmetic for Ieee {
    fn binary_double(&self, op: Binary, a: Double, b: Double) -> Double {
        let (x, y) = (fd(a), fd(b));
        d(match op {
            Binary::Plus => x + y,
            Binary::Minus => x - y,
            Binary::Times => x * y,
            Binary::Over => x / y,
            Binary::Power => x.powf(y),
            Binary::Max => x.max(y),
            Binary::Min => x.min(y),
        })
    }

    fn binary_single(&self, op: Binary, a: Single, b: Single) -> Single {
        let (x, y) = (fs(a), fs(b));
        s(match op {
            Binary::Plus => x + y,
            Binary::Minus => x - y,
            Binary::Times => x * y,
            Binary::Over => x / y,
            Binary::Power => x.powf(y),
            Binary::Max => x.max(y),
            Binary::Min => x.min(y),
        })
    }

    fn unary_double(&self, op: Unary, a: Double) -> Double {
        let x = fd(a);
        d(match op {
            Unary::Negate => -x,
            Unary::Log10 => x.log10(),
            Unary::Log2 => x.log2(),
            Unary::Ln => x.ln(),
            Unary::Exp => x.exp(),
            Unary::SquareRoot => x.sqrt(),
            Unary::CubeRoot => x.cbrt(),
            Unary::Erf => libm::erf(x),
            Unary::Absolute => x.abs(),
            Unary::Floor => x.floor(),
            Unary::LnOnePlus => x.ln_1p(),
            Unary::LogGamma => libm::lgamma(x),
            Unary::WholePower(n) => x.powi(n as i32),
        })
    }

    fn unary_single(&self, op: Unary, a: Single) -> Single {
        let x = fs(a);
        s(match op {
            Unary::Negate => -x,
            Unary::Log10 => x.log10(),
            Unary::Log2 => x.log2(),
            Unary::Ln => x.ln(),
            Unary::Exp => x.exp(),
            Unary::SquareRoot => x.sqrt(),
            Unary::CubeRoot => x.cbrt(),
            Unary::Erf => libm::erff(x),
            Unary::Absolute => x.abs(),
            Unary::Floor => x.floor(),
            Unary::LnOnePlus => x.ln_1p(),
            Unary::LogGamma => libm::lgammaf(x),
            Unary::WholePower(n) => x.powi(n as i32),
        })
    }

    fn narrow(&self, a: Double) -> Single {
        s(fd(a) as f32)
    }

    fn widen(&self, a: Single) -> Double {
        d(fs(a) as f64)
    }

    fn widen_half(&self, bits: u16) -> Single {
        s(half::f16::from_bits(bits).to_f32())
    }

    fn whole(&self, n: u64) -> Double {
        d(n as f64)
    }

    fn rounded(&self, how: Rounding, x: Double) -> i64 {
        let v = fd(x);
        match how {
            Rounding::Down => v.floor() as i64,
            Rounding::Up => v.ceil() as i64,
            Rounding::Nearest => v.round() as i64,
            Rounding::NearestEven => v.round_ties_even() as i64,
        }
    }
}

// ── A film, a paper and an enlarger for the tests ────────────────────────

fn bump(wl: f64, centre: f64, width: f64) -> f64 {
    (-((wl - centre) / width).powi(2)).exp()
}

fn profile(stock: &str, support: &str, positive_slope: f64) -> Profile {
    let wavelengths: Vec<f64> = (0..81).map(|i| 380.0 + 5.0 * i as f64).collect();
    let axis: Vec<f64> = (0..64).map(|i| -4.0 + 7.0 * i as f64 / 63.0).collect();
    let stage = if support == "paper" { "printing" } else { "filming" };
    Profile {
        metadata: ProfileMetadata {
            version: String::new(),
            copyright: String::new(),
            created: String::new(),
            license: String::new(),
            citation: String::new(),
            datasource: String::new(),
        },
        info: ProfileInfo {
            stock: Some(stock.to_string()),
            name: None,
            film_type: "negative".to_string(),
            support: support.to_string(),
            stage: stage.to_string(),
            usage: "still".to_string(),
            antihalation: "weak".to_string(),
            target_print: None,
            channel_model: "color".to_string(),
            densitometer: "status_M".to_string(),
            log_sensitivity_density_over_min: d(0.2),
            reference_illuminant: "D55".to_string(),
            viewing_illuminant: "D50".to_string(),
        },
        data: ProfileData {
            wavelengths: wavelengths.iter().map(|&w| d(w)).collect(),
            log_sensitivity: wavelengths
                .iter()
                .map(|&w| {
                    [630.0, 540.0, 450.0]
                        .map(|c| d((bump(w, c, 35.0) + 1e-4).log10()))
                        .to_vec()
                })
                .collect(),
            hanatos2025_adaptation_window_params: vec![],
            hanatos2025_adaptation_surface_params: vec![],
            channel_density: wavelengths
                .iter()
                .map(|&w| [640.0, 540.0, 440.0].map(|c| d(bump(w, c, 50.0))).to_vec())
                .collect(),
            base_density: vec![d(0.05); 81],
            midscale_neutral_density: vec![d(0.5); 81],
            log_exposure: axis.iter().map(|&x| d(x)).collect(),
            density_curves: axis
                .iter()
                .map(|&x| vec![d(2.4 / (1.0 + (-positive_slope * (x + 0.4)).exp())); 3])
                .collect(),
            density_curves_layers: vec![],
        },
    }
}

/// An enlarger with an even light.
struct Even;

impl Enlarger for Even {
    fn filtered_illuminant(&self, _lamp: &str, _c: Double, _m: Double, _y: Double) -> Vec<Double> {
        vec![d(1.0); 81]
    }

    fn midgray_density(
        &self,
        _lut: &TcLut,
        _film: &Profile,
        _params: &RuntimeParams,
        _illuminant: Illuminant,
        _ev: Option<Single>,
    ) -> Vec<Double> {
        vec![d(0.5); 81]
    }

    fn exposure_factor(
        &self,
        _density: &Vec<Double>,
        _illuminant: &Vec<Double>,
        _sensitivity: &Vec<[Double; 3]>,
    ) -> Double {
        d(0.02)
    }
}

fn plain() -> RuntimeParams {
    let mut p = RuntimeParams::default();
    p.film_render.grain.active = false;
    p.film_render.halation.active = false;
    p.film_render.dir_couplers.active = false;
    p.print_render.glare.active = false;
    p.camera.auto_exposure = false;
    p
}

fn no_draw(_mu: Double, _sigma: Double, _seed: u64, n: usize) -> Vec<Double> {
    vec![d(1.0); n]
}

fn grey(w: u32, h: u32, v: f64) -> ImageBuf<Double> {
    ImageBuf::filled(w, h, d(v))
}

fn mean(img: &ImageBuf<Double>) -> f64 {
    img.data.iter().map(|v| fd(*v)).sum::<f64>() / img.data.len() as f64
}

/// The file of a table of spectra: every spectrum is flat.
fn spectra_file(size: usize) -> Vec<u8> {
    let header = format!(
        "{{'descr': '<f4', 'fortran_order': False, 'shape': ({size}, {size}, 81), }}\n"
    );
    let mut b = vec![0x93, b'N', b'U', b'M', b'P', b'Y', 1, 0];
    b.extend_from_slice(&(header.len() as u16).to_le_bytes());
    b.extend_from_slice(header.as_bytes());
    for _ in 0..size * size * 81 {
        b.extend_from_slice(&(0.3f32).to_le_bytes());
    }
    b
}

fn multiply(a: &Vec<Double>, b: &Vec<Double>, shape: ProductShape) -> Vec<Double> {
    let mut r = vec![d(0.0); shape.rows * 3];
    for i in 0..shape.rows {
        for c in 0..3 {
            let mut sum = 0.0;
            for k in 0..shape.inner {
                sum += fd(a[i * shape.inner + k]) * fd(b[k * 3 + c]);
            }
            r[i * 3 + c] = d(sum);
        }
    }
    r
}

fn backend() -> CpuBackend<Ieee> {
    CpuBackend { ar: Ieee }
}

// ── Renders ──────────────────────────────────────────────────────────────

#[test]
fn a_grey_card_prints_grey() {
    let film = profile("film", "film", 1.2);
    let print = profile("paper", "paper", 2.0);
    let pipeline = Pipeline::new(&Ieee, film, print, plain(), &Even);
    assert_eq!(pipeline.print_exposure_factor(), d(1.0));
    assert_eq!(pipeline.print_illuminant_slice().len(), 81);
    assert!(pipeline.tc_lut().is_none());
    let out = pipeline.process(&Ieee, &backend(), &grey(8, 8, 0.184), &no_draw).unwrap();
    assert_eq!((out.width, out.height), (8, 8));
    for v in &out.data {
        assert!(fd(*v) >= 0.0 && fd(*v) <= 1.0);
    }
    assert_eq!(out.get(0, 0), out.get(7, 7));
}

#[test]
fn more_light_gives_a_denser_negative() {
    let film = profile("film", "film", 1.2);
    let params = plain();
    let dark = filming::process(&Ieee, &backend(), &grey(2, 2, 0.05), &film, &params, None);
    let light = filming::process(&Ieee, &backend(), &grey(2, 2, 0.5), &film, &params, None);
    assert!(mean(&light.unwrap()) > mean(&dark.unwrap()));
}

#[test]
fn a_scanned_film_needs_no_paper() {
    let film = profile("film", "film", 1.2);
    let print = film.clone();
    let mut params = plain();
    params.io.scan_film = true;
    let pipeline = Pipeline::new(&Ieee, film, print, params, &Even);
    let out = pipeline.process(&Ieee, &backend(), &grey(4, 4, 0.184), &no_draw).unwrap();
    let m = mean(&out);
    assert!(m > 0.01 && m < 0.99);
}

#[test]
fn a_table_of_spectra_calibrates() {
    let film = profile("film", "film", 1.2);
    let print = profile("paper", "paper", 2.0);
    let mut params = plain();
    params.io.input_color_space = "sRGB".to_string();
    let file = spectra_file(6);
    let db = NeutralFilters::new();
    let made =
        Pipeline::new_with_spectral(&Ieee, film, print, params, &db, &file, &Even, multiply);
    let pipeline = match made {
        Ok(p) => p,
        Err(e) => panic!("{e}"),
    };
    let lut = pipeline.tc_lut().unwrap();
    assert_eq!((lut.size, lut.channels), (6, 3));
    assert!(lut.data.iter().all(|v| fd(*v) > 0.0));
    let out = pipeline.process(&Ieee, &backend(), &grey(4, 4, 0.184), &no_draw).unwrap();
    for v in &out.data {
        assert!(fd(*v) >= 0.0 && fd(*v) <= 1.0);
    }
}

#[test]
fn a_window_keeps_the_white() {
    let light: Vec<f32> = (0..81).map(|i| 0.5 + i as f32 / 128.0).collect();
    let sensitivity: Vec<[Double; 3]> = (0..81)
        .map(|i| [600.0, 540.0, 450.0].map(|c| d(bump(380.0 + 5.0 * i as f64, c, 60.0))))
        .collect();
    let mut data: Vec<Single> = light.iter().map(|v| s(*v)).collect();
    data.extend((0..3 * 81).map(|i| s(if i % 81 < 10 { 1.0 } else { 0.1 })));
    let spectra = SpectraLut { size: 2, n_wavelengths: 81, data };
    let window = [d(420.0), d(15.0), d(660.0), d(12.0)];
    let illuminant: Vec<Double> = light.iter().map(|v| d(*v as f64)).collect();
    let plain = compute_tc_lut(&Ieee, &spectra, &sensitivity);
    let seen = compute_tc_lut_with_window(
        &Ieee,
        &spectra,
        &sensitivity,
        &window,
        &illuminant,
        multiply,
    );
    for c in 0..3 {
        let (a, b) = (fd(plain.data[c]), fd(seen.data[c]));
        assert!((a - b).abs() < 1e-9 * a);
    }
    assert!((fd(plain.data[5]) - fd(seen.data[5])).abs() > 1e-3);
}

#[test]
fn the_backend_exposes_by_the_table() {
    let lut = TcLut { size: 2, channels: 3, data: vec![d(0.5); 12] };
    let light = Illuminant::D55.power_numbers();
    let img = grey(2, 1, 0.184);
    let r = backend().hanatos2025_rgb_to_raw(&img, &lut, ColorSpace::Srgb, &light);
    let same = hanatos2025_rgb_to_raw(&Ieee, &img, &lut, ColorSpace::Srgb, &light);
    assert_eq!(r.data, same.data);
    let b = fd(rgb_to_tc_b(&Ieee, [d(0.184); 3], ColorSpace::Srgb, &light).b);
    assert!((fd(r.data[0]) - 0.5 * b).abs() < 1e-9);
}

#[test]
fn a_broken_table_of_spectra_is_told() {
    let film = profile("film", "film", 1.2);
    let print = profile("paper", "paper", 2.0);
    let db = NeutralFilters::new();
    let made = Pipeline::new_with_spectral(
        &Ieee,
        film,
        print,
        plain(),
        &db,
        b"no array",
        &Even,
        multiply,
    );
    match made {
        Ok(_) => panic!("a pipeline"),
        Err(e) => assert!(e.contains("not a .npy file")),
    }
}

#[test]
fn tables_stand_in_for_the_spectral_stages() {
    let film = profile("film", "film", 1.2);
    let print = profile("paper", "paper", 2.0);
    let exact = Pipeline::new(&Ieee, film.clone(), print.clone(), plain(), &Even);
    let mut params = plain();
    params.settings.use_enlarger_lut = true;
    params.settings.use_scanner_lut = true;
    params.settings.lut_resolution = 9;
    let quick = Pipeline::new(&Ieee, film, print, params, &Even);
    let mut img = grey(4, 2, 0.184);
    for (i, v) in img.data.iter_mut().enumerate() {
        *v = d(0.05 + 0.02 * i as f64);
    }
    let a = exact.process(&Ieee, &backend(), &img, &no_draw).unwrap();
    let b = quick.process(&Ieee, &backend(), &img, &no_draw).unwrap();
    for (x, y) in a.data.iter().zip(b.data.iter()) {
        assert!((fd(*x) - fd(*y)).abs() < 0.02);
    }
}

#[test]
fn every_effect_runs() {
    let film = profile("film", "film", 1.2);
    let print = profile("paper", "paper", 2.0);
    let mut params = RuntimeParams::default();
    params.film_render.grain.n_sub_layers = 1;
    params.print_render.glare.active = true;
    let pipeline = Pipeline::new(&Ieee, film, print, params, &Even);
    let img = grey(8, 8, 0.184);
    let a = pipeline.process(&Ieee, &backend(), &img, &no_draw).unwrap();
    let b = pipeline.process(&Ieee, &backend(), &img, &no_draw).unwrap();
    // The grain comes from fixed seeds: two renders agree.
    assert_eq!(a.data, b.data);
    assert!(a.data.iter().any(|v| *v != a.data[0]));
}

#[test]
fn single_precision_agrees() {
    let film = profile("film", "film", 1.2);
    let print = profile("paper", "paper", 2.0);
    let pipeline = Pipeline::new(&Ieee, film, print, plain(), &Even);
    let wide = pipeline.process(&Ieee, &backend(), &grey(2, 2, 0.184), &no_draw).unwrap();
    let img: ImageBuf<Single> = ImageBuf::filled(2, 2, s(0.184));
    let short = pipeline.process(&Ieee, &backend(), &img, &no_draw).unwrap();
    for (x, y) in wide.data.iter().zip(short.data.iter()) {
        assert!((fd(*x) - fs(*y) as f64).abs() < 1e-3);
    }
}

#[test]
fn a_cube_samples_the_pipeline() {
    let film = profile("film", "film", 1.2);
    let print = profile("paper", "paper", 2.0);
    let mut params = lut_params();
    params.print_render.glare.active = false;
    let pipeline = Pipeline::new(&Ieee, film, print, params, &Even);
    let cube: Vec<[Double; 3]> = sample_cube(&Ieee, &pipeline, &backend(), &no_draw, 2);
    assert_eq!(cube.len(), 8);
    // Red goes fastest, then green, then blue.
    let mut img = grey(1, 1, 0.0);
    img.set(0, 0, [d(1.0), d(0.0), d(0.0)]);
    let red = pipeline.process(&Ieee, &backend(), &img, &no_draw).unwrap();
    assert_eq!(cube[1], red.get(0, 0));
    img.set(0, 0, [d(0.0), d(0.0), d(1.0)]);
    let blue = pipeline.process(&Ieee, &backend(), &img, &no_draw).unwrap();
    assert_eq!(cube[4], blue.get(0, 0));
}

#[test]
fn a_resident_chain_is_planned() {
    let film = profile("film", "film", 1.2);
    let print = profile("paper", "paper", 2.0);
    let params = RuntimeParams::default();
    let light = vec![d(1.0); 81];
    let img = grey(64, 32, 0.184);
    let inputs = resident_inputs(&Ieee, &img, &film, &print, &params, &light, d(0.5));
    let chain = chain_params(&Ieee, 64, 32, 6, &inputs);
    assert_eq!((chain.width, chain.height, chain.lut_size), (64, 32, 6));
    assert_eq!(chain.film_curve_len, 64);
    assert_eq!(chain.film_wavelengths, 81);
    assert!(chain.halation.is_some());
    assert!(chain.dir_couplers.is_some());
    let steps = chain.run_film_chain();
    assert_eq!(steps[0], Step::Hanatos);
    assert!(steps.contains(&Step::PrintSpectral));
    for step in steps {
        if let Some(shader) = step.shader() {
            assert_eq!(shader.layout().len(), step.bindings().len() + 1);
        }
        assert!(chain.uniform(step).len() % 4 == 0);
        let b = step.bindings();
        assert!(!b[..b.len() - 1].contains(&b[b.len() - 1]));
    }
}

#[test]
fn kinds_of_profiles() {
    let film = profile("film", "film", 1.2);
    let print = profile("paper", "paper", 2.0);
    assert!(film.is_film() && !film.is_paper() && film.is_negative() && !film.is_positive());
    assert!(print.is_paper() && print.is_printing() && !print.is_filming());
    assert!(validate_profile(&film).is_ok());
    let mut empty = film.clone();
    empty.data.log_exposure.clear();
    match validate_profile(&empty) {
        Ok(()) => panic!("valid"),
        Err(e) => assert_eq!(e.message(), "invalid profile: log_exposure is empty"),
    }
    let mut short = film.clone();
    short.data.density_curves.pop();
    match validate_profile(&short) {
        Ok(()) => panic!("valid"),
        Err(e) => assert_eq!(
            e.message(),
            "invalid profile: density_curves length must match log_exposure length"
        ),
    }
    assert_eq!(film.density_curves_f64().len(), 64);
    let narrow = film.density_curves_f32(&Ieee);
    assert_eq!(narrow[0][0], s(fd(film.data.density_curves[0][0]) as f32));
    assert_eq!(film.log_exposure_f32(&Ieee)[0], s(-4.0));
    assert_eq!(film.log_sensitivity_f32(&Ieee).len(), 81);
    assert_eq!(profile_file("kodak_gold_200"), "kodak_gold_200.json");
}

#[test]
fn halation_without_light_changes_nothing() {
    let mut p = RuntimeParams::default().film_render.halation;
    p.scatter_amount = d(0.0);
    p.halation_n_bounces = 0;
    let mut img = grey(4, 4, 0.1);
    img.set(1, 1, [d(4.0), d(5.0), d(6.0)]);
    let r = apply_halation_um(&Ieee, &img, s(5.0), &p);
    assert_eq!(r.data, img.data);
    let lit = apply_halation_um(
        &Ieee,
        &img,
        s(5.0),
        &RuntimeParams::default().film_render.halation,
    );
    assert!(fd(lit.get(1, 1)[0]) < 4.0);
    assert!(fd(lit.get(2, 1)[0]) > 0.1);
}

/// The words behind a number in single precision.
fn word(x: f64) -> u32 {
    (x as f32).to_bits()
}

fn words(u: Upload) -> Vec<u32> {
    match u {
        Upload::Words(w) => w,
        _ => panic!("no table"),
    }
}

fn small_lut() -> TcLut {
    TcLut { size: 2, channels: 3, data: (0..12).map(|i| d(i as f64 * 0.1)).collect() }
}

#[test]
fn missing_measurements_are_made_opaque() {
    let nan = f64::NAN;
    let rows = [[d(0.5), d(nan), d(0.25)], [d(1.0), d(2.0), d(3.0)], [d(0.0), d(0.0), d(0.0)]];
    let base = [d(0.1), d(0.2)];
    let (cd, bd) = sanitize_spectral_inputs(&Ieee, &rows, &base);
    assert_eq!(&cd[..3], &[word(0.5), 0, word(0.25)]);
    assert_eq!(&cd[3..6], &[word(1.0), word(2.0), word(3.0)]);
    assert_eq!(bd, vec![OPAQUE_DENSITY, word(0.2), OPAQUE_DENSITY]);
    assert_eq!(f32::from_bits(OPAQUE_DENSITY), 1000.0);
}

#[test]
fn tables_of_a_resident_chain() {
    let film = profile("film", "film", 1.2);
    let print = profile("paper", "paper", 2.0);
    let light = vec![d(0.75); 81];
    let img = grey(8, 4, 0.184);
    let lut = small_lut();
    let all = RuntimeParams::default();
    let inputs = resident_inputs(&Ieee, &img, &film, &print, &all, &light, d(0.5));
    let table = |b: Buffer| upload(&Ieee, &lut, &inputs, b);
    assert_eq!(words(table(Buffer::TcLut))[3], word(0.1 * 3.0));
    assert_eq!(words(table(Buffer::PrintIlluminant)), vec![word(0.75); 81]);
    assert_eq!(words(table(Buffer::FilmLogExposure))[0], word(-4.0));
    assert_eq!(words(table(Buffer::FilmCurves)).len(), 64 * 3);
    assert_eq!(words(table(Buffer::FilmBaseDensity)), vec![word(0.05); 81]);
    assert_eq!(words(table(Buffer::CmfY)).len(), 81);
    assert_eq!(words(table(Buffer::DirCurves)).len(), 64 * 3);
    assert!(matches!(table(Buffer::ImageA), Upload::Scratch));
    let kernel = words(table(Buffer::Weights(BlurId::Grain)));
    // 3 times 0.65, up: 2 on each side.
    assert_eq!(kernel.len(), 5);
    let total: f32 = kernel.iter().map(|w| f32::from_bits(*w)).sum();
    assert!((total - 1.0).abs() < 1e-6);
    assert!(matches!(table(Buffer::Weights(BlurId::Bounce(3))), Upload::Absent));
    let bare = resident_inputs(&Ieee, &img, &film, &print, &plain(), &light, d(0.5));
    for b in [Buffer::DirLogExposure, Buffer::DirCurves, Buffer::Weights(BlurId::Grain)] {
        assert!(matches!(upload(&Ieee, &lut, &bare, b), Upload::Absent));
    }
}

#[test]
fn stages_on_their_own() {
    let img = ImageBuf::from_data(2, 1, vec![s(0.1), s(0.2), s(0.3), s(0.4), s(0.5), s(0.6)]);
    let pixels: Vec<u32> = img.data.iter().map(|v| v.bits).collect();
    let lut = small_lut();
    let h = hanatos_dispatch(&Ieee, &img, &lut, ColorSpace::Srgb, &Illuminant::D55.power_numbers());
    assert_eq!(h.shader, Shader::Hanatos);
    assert_eq!(&h.uniform[..4], &[2, 1, 2, 0]);
    assert_eq!(h.uniform.len(), 16);
    assert_eq!(h.inputs[0], pixels);
    assert_eq!(h.inputs[1].len(), 12);

    let axis = [d(0.0), d(1.0), d(2.0)];
    let curves = [[d(0.0); 3], [d(1.0), d(f64::NAN), d(1.0)], [d(2.0); 3]];
    let c = density_dispatch(&Ieee, &img, &axis, &curves, d(2.0));
    assert_eq!(c.shader, Shader::DensityCurve);
    assert_eq!(&c.uniform[..3], &[2, 1, 3]);
    assert!(c.uniform.contains(&word(0.5)));
    assert_eq!(c.inputs[1], vec![word(0.0), word(1.0), word(2.0)]);
    assert_eq!(c.inputs[2][3..6], [word(1.0), 0, word(1.0)]);
    let flat = density_dispatch(&Ieee, &img, &axis, &curves, d(0.0));
    assert!(flat.uniform.contains(&word(1.0)));

    let rows = [[d(0.1), d(0.2), d(0.3)]];
    let sens = [[d(1.0), d(2.0), d(3.0)]];
    let p = print_dispatch(&Ieee, &img, &rows, &[d(0.4)], &[d(5.0)], &sens, d(0.25));
    assert_eq!(p.shader, Shader::PrintSpectral);
    assert_eq!(p.uniform, vec![2, 1, 1, word(0.25)]);
    assert_eq!(p.inputs[2], vec![word(0.4)]);
    assert_eq!(p.inputs[3], vec![word(5.0)]);
    assert_eq!(p.inputs[4], vec![word(1.0), word(2.0), word(3.0)]);

    let one = [[d(1.0), d(0.0), d(0.0)], [d(0.0), d(1.0), d(0.0)], [d(0.0), d(0.0), d(1.0)]];
    let two = one.map(|r| r.map(|v| d(fd(v) * 2.0)));
    let q = scan_dispatch(&Ieee, &img, &rows, &[], &[d(5.0)], d(0.5), &one, &two);
    assert_eq!(q.shader, Shader::ScanSpectral);
    assert_eq!(&q.uniform[..5], &[2, 1, 1, word(0.5), word(2.0)]);
    assert_eq!(q.inputs.len(), 7);
    assert_eq!(q.inputs[2], vec![OPAQUE_DENSITY]);
}

#[test]
fn a_pipeline_tells_whether_it_is_ready() {
    let film = profile("film", "film", 1.2);
    let print = profile("paper", "paper", 2.0);
    let mut p = Pipeline::new(&Ieee, film, print, plain(), &Even);
    assert!(p.is_ready());
    p.params.settings.use_enlarger_lut = true;
    p.params.settings.lut_resolution = 1;
    assert!(!p.is_ready());
    p.params.settings.lut_resolution = 70_000;
    assert!(!p.is_ready());
    p.params.settings.lut_resolution = 2;
    assert!(p.is_ready());
    p.tc_lut = Some(TcLut { size: 2, channels: 3, data: vec![d(0.0); 11] });
    assert!(!p.is_ready());
    p.tc_lut = Some(small_lut());
    assert!(p.is_ready());
    p.film.data.density_curves.pop();
    assert!(!p.is_ready());
    // One point makes a curve.
    p.film.data.density_curves.truncate(1);
    p.film.data.log_exposure.truncate(1);
    assert!(p.is_ready());
    let out = p.process(&Ieee, &backend(), &grey(2, 2, 0.184), &no_draw).unwrap();
    assert_eq!((out.width, out.height), (2, 2));
}

#[test]
fn gauss_follows_the_stream() {
    let mut g = GaussRng::new(42);
    let first = fd(g.gauss(&Ieee).unwrap());
    let second = fd(g.gauss(&Ieee).unwrap());
    assert!((first - 0.4967141530112327).abs() < 1e-15);
    assert!((second - -0.13826430117118466).abs() < 1e-15);
    let mut other = GaussRng::from_mt(MtStream::new(42));
    assert_eq!(fd(other.gauss(&Ieee).unwrap()), first);
}

#[test]
fn masks_and_blurs_by_length() {
    let img = ImageBuf::from_data(1, 1, vec![d(0.5), d(0.25), d(1.0)]);
    let halved = |i: &ImageBuf<Double>, _s: Single| {
        ImageBuf::from_data(i.width, i.height, i.data.iter().map(|v| d(fd(*v) / 2.0)).collect())
    };
    let sharp = apply_unsharp_mask(&Ieee, img.clone(), s(1.0), s(2.0), halved);
    // x + 2 (x - x / 2)
    assert_eq!(sharp.data, vec![d(1.0), d(0.5), d(2.0)]);
    let kept = apply_unsharp_mask(&Ieee, img.clone(), s(0.0), s(2.0), halved);
    assert_eq!(kept.data, img.data);
    let seen = std::cell::Cell::new(0.0f32);
    let watch = |i: &ImageBuf<Double>, w: Single| {
        seen.set(fs(w));
        i.clone()
    };
    let blurred = apply_gaussian_blur_um(&Ieee, img.clone(), s(6.0), s(4.0), watch);
    assert_eq!(blurred.data, img.data);
    assert_eq!(seen.get(), 1.5);
}

#[test]
fn a_colour_space_to_itself_is_no_change() {
    let to = colorspace_to_xyz(ColorSpace::Srgb);
    let white = [s(0.95047), s(1.0), s(1.08883)];
    let one = [[s(1.0), s(0.0), s(0.0)], [s(0.0), s(1.0), s(0.0)], [s(0.0), s(0.0), s(1.0)]];
    let m = rgb_to_rgb_matrix(&Ieee, &to, white, &one, white);
    for i in 0..3 {
        for j in 0..3 {
            assert!((fs(m[i][j]) - fs(to[i][j])).abs() < 1e-4);
        }
    }
}

#[test]
fn development_starts_at_zero_density() {
    let axis = [d(0.0), d(1.0), d(2.0)];
    let curves = [[d(0.5); 3], [d(1.5); 3], [d(2.5); 3]];
    let log = ImageBuf::from_data(1, 1, vec![d(0.0), d(0.5), d(9.0)]);
    let r = develop_simple_f64(&Ieee, &log, &axis, &curves, d(1.0));
    assert_eq!(r.data, vec![d(0.0), d(0.5), d(2.0)]);
}

#[test]
fn midgray_is_normalized_by_green() {
    let sens = [[d(9.0), d(2.0), d(9.0)], [d(9.0), d(3.0), d(9.0)]];
    let r = compute_midgray_normalization(&Ieee, &sens, &[s(1.0), s(4.0)]);
    assert!((fd(r) - 1.0 / (0.184 * (2.0 + 4.0 * 3.0))).abs() < 1e-12);
    let dark = compute_midgray_normalization(&Ieee, &sens, &[s(0.0), s(0.0)]);
    assert_eq!(fd(dark), 1.0);
}

#[test]
fn several_blurs_of_one_image() {
    let data = (0..12).map(|i| d(i as f64)).collect();
    let img = ImageBuf::from_data(2, 2, data);
    let all = gaussian_blur_multi(&backend(), &img, &[s(0.0), s(1.0)]);
    assert_eq!(all.len(), 2);
    assert_eq!(all[0].data, img.data);
    assert_eq!(all[1].data, backend().gaussian_blur(&img, s(1.0)).data);
    assert!(all[1].data != img.data);
}

fn lights() -> Lights<Ieee> {
    Lights {
        ar: Ieee,
        lamps: vec![
            Lamp { name: "dark".to_string(), power: vec![d(0.25); 81] },
            Lamp { name: "bright".to_string(), power: vec![d(8.0), d(4.0)] },
        ],
        cyan: vec![d(0.0); 81],
        magenta: vec![d(0.5); 81],
        yellow: vec![],
    }
}

#[test]
fn filters_dim_the_lamp() {
    let l = lights();
    let open = l.filtered_illuminant("bright", d(0.0), d(0.0), d(0.0));
    assert_eq!(open.len(), 81);
    assert_eq!((fd(open[0]), fd(open[1]), fd(open[2])), (8.0, 4.0, 1.0));
    // A cyan filter that stops everything, turned in by a density of 1.
    let dim = l.filtered_illuminant("dark", d(100.0), d(0.0), d(0.0));
    assert!((fd(dim[40]) - 0.025).abs() < 1e-15);
    // Half of the magenta is stopped, and the yellow filter stops nothing.
    let half = l.filtered_illuminant("dark", d(0.0), d(1e6), d(50.0));
    assert_eq!(fd(half[80]), 0.125);
    assert_eq!(fd(l.filtered_illuminant("none", d(0.0), d(0.0), d(0.0))[0]), 1.0);
}

#[test]
fn the_factor_undoes_the_exposure_of_the_card() {
    let l = lights();
    let density = vec![d(1.0), d(f64::NAN)];
    let sens = vec![[d(1.0), d(2.0), d(4.0)]; 3];
    // A tenth of the light, over channels with a mean of 2.
    let f = l.exposure_factor(&density, &vec![d(5.0); 3], &sens);
    assert!((fd(f) - 1.0).abs() < 1e-12);
}

#[test]
fn a_card_in_more_light_is_denser() {
    let l = lights();
    let film = profile("film", "film", 1.2);
    let lut = TcLut { size: 2, channels: 3, data: vec![d(1.0); 12] };
    let p = plain();
    let card = l.midgray_density(&lut, &film, &p, Illuminant::D55, None);
    let same = l.midgray_density(&lut, &film, &p, Illuminant::D55, Some(s(0.0)));
    let brighter = l.midgray_density(&lut, &film, &p, Illuminant::D55, Some(s(1.0)));
    assert_eq!(card.len(), 81);
    assert_eq!(card, same);
    assert!(fd(brighter[50]) > fd(card[50]));
    let broken = TcLut { size: 2, channels: 3, data: vec![] };
    assert!(l.midgray_density(&broken, &film, &p, Illuminant::D55, None).is_empty());
}
