use rand::rngs::StdRng;
use rand::{Rng, SeedableRng};
use rand_distr::{Distribution, Normal, Poisson};
use spektrafilm::arith::{Arithmetic, Binary, Rounding, Unary};
use spektrafilm::bits::{Double, Single};
use spektrafilm::colorspace::{
    chromatic_adaptation_matrix, chromatic_adaptation_matrix_f64, colorspace_white_xyz, mat3_mul,
    srgb_decode, srgb_encode, standard_white, D65_XYZ, SRGB_TO_XYZ, SRGB_TO_XYZ_F64, XYZ_TO_SRGB,
};
use spektrafilm::couplers::{compute_exposure_correction, Diffusion};
use spektrafilm::density_curves::{interpolate_density, max_density, normalize_density_curves};
use spektrafilm::emulsion::{
    compute_density_spectral, density_to_light, develop_simple, fast_interp_image,
    fast_interp_image_perchannel, fast_interp_image_perchannel_f64, interpolate_exposure_to_density,
};
use spektrafilm::files::{
    decoded_image, levels_16, levels_8, linear_image, make_texture, preview_levels_16,
    preview_levels_8, raw_bytes, raw_image, texture_of,
};
use spektrafilm::gaussian::{gaussian_blur, gaussian_blur_channel, make_gaussian_kernel};
use spektrafilm::glare::add_glare;
use spektrafilm::grain::layer_seed;
use spektrafilm::hanatos::{
    bicubic_2d, bicubic_2d_f64, hanatos2025_rgb_to_raw_with_matrix, rgb_to_tc_b, tc_to_xy,
    xy_to_tc, xyz_to_xy,
};
use spektrafilm::illuminants::{
    blackbody_radiance, blackbody_spd, illuminant_to_xy, illuminant_xyz, illuminant_xyz_f64,
};
use spektrafilm::image::ImageBuf;
use spektrafilm::interp::{interp_1d, interp_uniform, interp_uniform_3ch};
use spektrafilm::lut::{reflect_index, trilinear_3d};
use spektrafilm::numpy_rng::{rk_binomial, rk_poisson, MtStream};
use spektrafilm::pchip::{fill_monotone_slopes_1d, pchip_interp, prepare_pchip_3d};
use spektrafilm::pchip3d::idx4;
use spektrafilm::preview::{
    drag_view, drawn_size, fit, fit_scale, fps_label, zoom_label, zoom_view, Point,
};
use spektrafilm::scanning::clip;
use spektrafilm::spectral::{ColorSpace, Illuminant};
use spektrafilm::spectral_service::{pairwise_sum_f64_pub, TcLut};
use spektrafilm::stats::{sample_binomial, sample_lognormal, sample_poisson};

/// The machine's arithmetic.
struct Ieee;

fn d(x: f64) -> Double {
    Double { bits: x.to_bits() }
}

fn s(x: f32) -> Single {
    Single { bits: x.to_bits() }
}

fn fd(x: Double) -> f64 {
    f64::from_bits(x.bits)
}

fn fs(x: Single) -> f32 {
    f32::from_bits(x.bits)
}

impl Arithmetic for Ieee {
    fn binary_double(&self, op: Binary, a: Double, b: Double) -> Double {
        let (x, y) = (fd(a), fd(b));
        d(match op {
            Binary::Plus => x + y,
            Binary::Minus => x - y,
            Binary::Times => x * y,
            Binary::Over => x / y,
            Binary::Power => x.powf(y),
            Binary::Max => x.max(y),
            Binary::Min => x.min(y),
        })
    }

    fn binary_single(&self, op: Binary, a: Single, b: Single) -> Single {
        let (x, y) = (fs(a), fs(b));
        s(match op {
            Binary::Plus => x + y,
            Binary::Minus => x - y,
            Binary::Times => x * y,
            Binary::Over => x / y,
            Binary::Power => x.powf(y),
            Binary::Max => x.max(y),
            Binary::Min => x.min(y),
        })
    }

    fn unary_double(&self, op: Unary, a: Double) -> Double {
        let x = fd(a);
        d(match op {
            Unary::Negate => -x,
            Unary::Log10 => x.log10(),
            Unary::Log2 => x.log2(),
            Unary::Ln => x.ln(),
            Unary::Exp => x.exp(),
            Unary::SquareRoot => x.sqrt(),
            Unary::CubeRoot => x.cbrt(),
            Unary::Erf => libm::erf(x),
            Unary::Absolute => x.abs(),
            Unary::Floor => x.floor(),
            Unary::LnOnePlus => x.ln_1p(),
            Unary::LogGamma => libm::lgamma(x),
            Unary::WholePower(n) => x.powi(n as i32),
        })
    }

    fn unary_single(&self, op: Unary, a: Single) -> Single {
        let x = fs(a);
        s(match op {
            Unary::Negate => -x,
            Unary::Log10 => x.log10(),
            Unary::Log2 => x.log2(),
            Unary::Ln => x.ln(),
            Unary::Exp => x.exp(),
            Unary::SquareRoot => x.sqrt(),
            Unary::CubeRoot => x.cbrt(),
            Unary::Erf => libm::erff(x),
            Unary::Absolute => x.abs(),
            Unary::Floor => x.floor(),
            Unary::LnOnePlus => x.ln_1p(),
            Unary::LogGamma => libm::lgammaf(x),
            Unary::WholePower(n) => x.powi(n as i32),
        })
    }

    fn narrow(&self, a: Double) -> Single {
        s(fd(a) as f32)
    }

    fn widen(&self, a: Single) -> Double {
        d(fs(a) as f64)
    }

    fn widen_half(&self, bits: u16) -> Single {
        s(half::f16::from_bits(bits).to_f32())
    }

    fn whole(&self, n: u64) -> Double {
        d(n as f64)
    }

    fn rounded(&self, how: Rounding, x: Double) -> i64 {
        let v = fd(x);
        match how {
            Rounding::Down => v.floor() as i64,
            Rounding::Up => v.ceil() as i64,
            Rounding::Nearest => v.round() as i64,
            Rounding::NearestEven => v.round_ties_even() as i64,
        }
    }
}

fn image(w: u32, h: u32, v: &[f64]) -> ImageBuf<Double> {
    ImageBuf::from_data(w, h, v.iter().map(|&x| d(x)).collect())
}

fn close(a: f64, b: f64, tol: f64) -> bool {
    (a - b).abs() < tol
}

// ── Images ───────────────────────────────────────────────────────────────

#[test]
fn test_new_and_dimensions() {
    let img: ImageBuf<Double> = ImageBuf::new(4, 3);
    assert_eq!(img.width, 4);
    assert_eq!(img.height, 3);
    assert_eq!(img.data.len(), 4 * 3 * 3);
    assert_eq!(img.pixel_count(), 12);
    assert!(img.data.iter().all(|v| v.bits == 0));
}

#[test]
fn test_get_set_pixel() {
    let mut img: ImageBuf<Double> = ImageBuf::new(2, 2);
    img.set(1, 0, [d(0.5), d(0.6), d(0.7)]);
    let px = img.get(1, 0);
    assert_eq!(px, [d(0.5), d(0.6), d(0.7)]);
    assert_eq!(img.get(0, 0), [d(0.0), d(0.0), d(0.0)]);
}

#[test]
fn test_pixels_iter() {
    let img = image(2, 1, &[1.0, 2.0, 3.0, 4.0, 5.0, 6.0]);
    let pixels = img.pixels();
    assert_eq!(pixels.len(), 2);
    assert_eq!(pixels[0], [d(1.0), d(2.0), d(3.0)]);
    assert_eq!(pixels[1], [d(4.0), d(5.0), d(6.0)]);
}

#[test]
fn test_extract_write_channel() {
    let mut img = image(2, 1, &[1.0, 2.0, 3.0, 4.0, 5.0, 6.0]);
    let g = img.extract_channel(1);
    assert_eq!(g, vec![d(2.0), d(5.0)]);
    img.write_channel(1, &[d(10.0), d(20.0)]);
    assert_eq!(img.get(0, 0), [d(1.0), d(10.0), d(3.0)]);
    assert_eq!(img.get(1, 0), [d(4.0), d(20.0), d(6.0)]);
}

#[test]
fn channels_go_out_and_back() {
    let img = image(2, 1, &[1.0, 2.0, 3.0, 4.0, 5.0, 6.0]);
    let back = ImageBuf::from_channels(
        2,
        1,
        &img.extract_channel(0),
        &img.extract_channel(1),
        &img.extract_channel(2),
    );
    assert_eq!(back.data, img.data);
    assert_eq!(img.describe(), "ImageBuf(2x1, 2 pixels)");
}

// ── Interpolation ────────────────────────────────────────────────────────

fn at(x: &[f64], y: &[f64], q: f64) -> f64 {
    let x: Vec<Double> = x.iter().map(|&v| d(v)).collect();
    let y: Vec<Double> = y.iter().map(|&v| d(v)).collect();
    fd(interp_1d(&Ieee, &x, &y, d(q)))
}

#[test]
fn test_interp_1d_exact() {
    let x = [0.0, 1.0, 2.0, 3.0];
    let y = [0.0, 10.0, 20.0, 30.0];
    assert_eq!(at(&x, &y, 1.0), 10.0);
    assert_eq!(at(&x, &y, 2.0), 20.0);
}

#[test]
fn test_interp_1d_midpoint() {
    let v = at(&[0.0, 1.0, 2.0], &[0.0, 10.0, 20.0], 0.5);
    assert!((v - 5.0).abs() < 1e-6);
}

#[test]
fn test_interp_1d_clamp() {
    let x = [0.0, 1.0];
    let y = [5.0, 15.0];
    assert_eq!(at(&x, &y, -1.0), 5.0);
    assert_eq!(at(&x, &y, 2.0), 15.0);
}

#[test]
fn test_interp_uniform() {
    let y = [s(0.0), s(10.0), s(20.0), s(30.0)];
    let v = fs(interp_uniform(&Ieee, s(0.0), s(3.0), &y, s(1.5)));
    assert!((v - 15.0).abs() < 1e-6);
}

#[test]
fn test_interp_uniform_3ch() {
    let table = [[s(0.0), s(0.0), s(0.0)], [s(10.0), s(20.0), s(30.0)]];
    let v = interp_uniform_3ch(&Ieee, s(0.0), s(1.0), &table, s(0.5));
    assert!((fs(v[0]) - 5.0).abs() < 1e-6);
    assert!((fs(v[1]) - 10.0).abs() < 1e-6);
    assert!((fs(v[2]) - 15.0).abs() < 1e-6);
}

#[test]
fn test_fast_interp_image() {
    let x_axis = [s(0.0), s(0.5), s(1.0)];
    let y_vals = [
        [s(0.0), s(0.0), s(0.0)],
        [s(5.0), s(10.0), s(15.0)],
        [s(10.0), s(20.0), s(30.0)],
    ];
    let img = image(2, 1, &[0.25, 0.25, 0.25, 0.75, 0.75, 0.75]);
    let out = fast_interp_image(&Ieee, &img, &x_axis, &y_vals);
    let p0 = out.get(0, 0);
    assert!(close(fd(p0[0]), 2.5, 1e-4));
    assert!(close(fd(p0[1]), 5.0, 1e-4));
    assert!(close(fd(p0[2]), 7.5, 1e-4));
    let p1 = out.get(1, 0);
    assert!(close(fd(p1[2]), 22.5, 1e-4));
}

#[test]
fn every_channel_has_its_axis() {
    let axes = [[d(0.0), d(0.0), d(0.0)], [d(1.0), d(2.0), d(4.0)]];
    let vals = [[d(0.0), d(0.0), d(0.0)], [d(8.0), d(8.0), d(8.0)]];
    let img = image(1, 1, &[1.0, 1.0, 1.0]);
    let out = fast_interp_image_perchannel_f64(&Ieee, &img, &axes, &vals);
    assert_eq!(out.get(0, 0), [d(8.0), d(4.0), d(2.0)]);
    let short_axes = [[s(0.0), s(0.0), s(0.0)], [s(1.0), s(2.0), s(4.0)]];
    let short_vals = [[s(0.0), s(0.0), s(0.0)], [s(8.0), s(8.0), s(8.0)]];
    let short = fast_interp_image_perchannel(&Ieee, &img, &short_axes, &short_vals);
    assert_eq!(short.data, out.data);
}

#[test]
fn a_curve_of_one_point_is_this_point() {
    let img = image(1, 2, &[-3.0, 0.25, 9.0, 0.0, 1.0, f64::NAN]);
    let axis = [s(0.25)];
    let vals = [[s(1.0), s(2.0), s(3.0)]];
    let out = fast_interp_image(&Ieee, &img, &axis, &vals);
    assert_eq!(out.get(0, 0), [d(1.0), d(2.0), d(3.0)]);
    assert_eq!(out.get(0, 1), [d(1.0), d(2.0), d(3.0)]);
}

fn identity_cube(size: usize) -> Vec<Single> {
    let mut data = vec![s(0.0); size * size * size * 3];
    for r in 0..size {
        for g in 0..size {
            for b in 0..size {
                let idx = (r * size * size + g * size + b) * 3;
                data[idx] = s(r as f32);
                data[idx + 1] = s(g as f32);
                data[idx + 2] = s(b as f32);
            }
        }
    }
    data
}

#[test]
fn test_trilinear_corners() {
    let data = identity_cube(2);
    let v = trilinear_3d(&Ieee, &data, 2, s(0.0), s(0.0), s(0.0));
    assert_eq!(v, [s(0.0), s(0.0), s(0.0)]);
    let v = trilinear_3d(&Ieee, &data, 2, s(1.0), s(1.0), s(1.0));
    assert_eq!(v, [s(1.0), s(1.0), s(1.0)]);
}

#[test]
fn test_trilinear_midpoint() {
    let data = identity_cube(2);
    let v = trilinear_3d(&Ieee, &data, 2, s(0.5), s(0.5), s(0.5));
    assert!((fs(v[0]) - 0.5).abs() < 1e-6);
    assert!((fs(v[1]) - 0.5).abs() < 1e-6);
    assert!((fs(v[2]) - 0.5).abs() < 1e-6);
}

#[test]
fn identity_lut_returns_input() {
    let size = 4;
    let mut data = vec![d(0.0); size * size * size * 3];
    for i in 0..size {
        for j in 0..size {
            for k in 0..size {
                let base = idx4(size, i, j, k, 0);
                data[base] = d(i as f64 / (size - 1) as f64);
                data[base + 1] = d(j as f64 / (size - 1) as f64);
                data[base + 2] = d(k as f64 / (size - 1) as f64);
            }
        }
    }
    let prep = prepare_pchip_3d(&Ieee, data, size);
    for &(r, g, b) in &[(0.0, 0.0, 0.0), (3.0, 3.0, 3.0), (1.0, 2.0, 0.0)] {
        let out = pchip_interp(&Ieee, &prep, d(r), d(g), d(b));
        assert!((fd(out[0]) - r / 3.0).abs() < 1e-12);
        assert!((fd(out[1]) - g / 3.0).abs() < 1e-12);
        assert!((fd(out[2]) - b / 3.0).abs() < 1e-12);
    }
    // Between the entries the table does not overshoot.
    let out = pchip_interp(&Ieee, &prep, d(1.5), d(1.5), d(1.5));
    for v in out {
        assert!(fd(v) >= 1.0 / 3.0 && fd(v) <= 2.0 / 3.0);
    }
}

#[test]
fn reflected_indices() {
    assert_eq!(reflect_index(-1, 4), 1);
    assert_eq!(reflect_index(-2, 4), 2);
    assert_eq!(reflect_index(4, 4), 2);
    assert_eq!(reflect_index(2, 4), 2);
    // One sample, and a row whose double does not fit.
    assert_eq!(reflect_index(0, 1), 0);
    assert_eq!(reflect_index(5, isize::MAX as usize), 5);
    for k in 0..4isize {
        assert_eq!(reflect_index(-k, 4), reflect_index(k, 4));
        assert_eq!(reflect_index(3 + k, 4), reflect_index(3 - k, 4));
    }
}

#[test]
fn bicubic_reproduces_a_constant_table() {
    let data = vec![d(2.5); 4 * 5 * 2];
    let r = bicubic_2d_f64(&Ieee, &data, 4, 5, 2, d(1.3), d(2.7));
    assert_eq!(r.len(), 2);
    assert!(close(fd(r[0]), 2.5, 1e-12) && close(fd(r[1]), 2.5, 1e-12));
    let short = vec![s(2.5); 5 * 4 * 2];
    let q = bicubic_2d(&Ieee, &short, 4, 5, 2, s(1.3), s(2.7));
    assert_eq!(q.len(), 2);
    assert!((fs(q[0]) - 2.5).abs() < 1e-6);
}

// ── Blurs ────────────────────────────────────────────────────────────────

#[test]
fn test_gaussian_kernel_normalized() {
    let k = make_gaussian_kernel(&Ieee, d(1.0), 3);
    let sum: f64 = k.iter().map(|v| fd(*v)).sum();
    assert!((sum - 1.0).abs() < 1e-6);
    assert_eq!(k.len(), 7);
}

#[test]
fn test_gaussian_blur_identity_zero_sigma() {
    let img = image(4, 4, &[0.5; 4 * 4 * 3]);
    let out = gaussian_blur(&Ieee, &img, s(0.0));
    assert_eq!(img.data, out.data);
}

#[test]
fn test_gaussian_blur_uniform_image() {
    let img = image(8, 8, &[0.42; 8 * 8 * 3]);
    let out = gaussian_blur(&Ieee, &img, s(2.0));
    for (a, b) in img.data.iter().zip(out.data.iter()) {
        assert!((fd(*a) - fd(*b)).abs() < 1e-4);
    }
}

#[test]
fn blur_spreads_a_point_and_keeps_its_light() {
    let mut v = vec![0.0; 9 * 9 * 3];
    v[(4 * 9 + 4) * 3] = 1.0;
    let out = gaussian_blur(&Ieee, &image(9, 9, &v), s(1.0));
    let sum: f64 = out.extract_channel(0).iter().map(|x| fd(*x)).sum();
    assert!(close(sum, 1.0, 1e-2));
    assert!(fd(out.get(4, 4)[0]) < 0.2);
    assert!(fd(out.get(3, 4)[0]) > 0.05);
    assert_eq!(out.get(4, 4)[1], d(0.0));
}

#[test]
fn a_width_of_three_takes_the_finite_kernel() {
    let (w, h) = (31u32, 5u32);
    let row: Vec<f64> = (0..w).map(|x| if x == 11 { 1.0 } else { 0.0 }).collect();
    let data: Vec<Double> = (0..h).flat_map(|_| row.iter().map(|v| d(*v))).collect();
    let kernel = make_gaussian_kernel(&Ieee, d(3.0), 9);
    assert_eq!(kernel.len(), 19);
    let out = gaussian_blur_channel(&Ieee, &data, w, h, s(3.0));
    for x in 0..w as i64 {
        let k = x - 11 + 9;
        let expected = if (0..19).contains(&k) { fd(kernel[k as usize]) } else { 0.0 };
        assert!(close(fd(out[(2 * w as i64 + x) as usize]), expected, 1e-12));
    }
    // Just above 3 the tail has no end.
    let wide = gaussian_blur_channel(&Ieee, &data, w, h, s(3.0000002));
    assert!(fd(wide[(2 * w + 30) as usize]) != 0.0);
    assert_eq!(fd(out[(2 * w + 30) as usize]), 0.0);
}

// ── Random streams ───────────────────────────────────────────────────────

#[test]
fn mt19937_matches_numpy_seed_0() {
    let mut g = MtStream::new(0);
    for e in [2357136044u32, 2546248239, 3071714933, 3626093760, 2588848963] {
        assert_eq!(g.next_u32(), e);
    }
}

#[test]
fn poisson_lam5_matches_numpy_seed_0() {
    let mut g = MtStream::new(0);
    let got: Vec<u64> = (0..10)
        .map(|_| rk_poisson(&Ieee, &mut g, d(5.0)).unwrap())
        .collect();
    assert_eq!(got, vec![9, 5, 6, 5, 5, 8, 4, 5, 4, 3]);
}

#[test]
fn binomial_n20_p03_matches_numpy_seed_0() {
    let mut g = MtStream::new(0);
    let got: Vec<u64> = (0..10)
        .map(|_| rk_binomial(&Ieee, &mut g, 20, d(0.3)).unwrap())
        .collect();
    assert_eq!(got, vec![6, 7, 6, 6, 6, 7, 6, 9, 10, 5]);
}

#[test]
fn likely_successes_mirror_unlikely_ones() {
    for (n, p) in [(20u64, 0.75), (1000, 0.625), (7, 1.0)] {
        for seed in 0..20 {
            let mut a = MtStream::new(seed);
            let mut b = MtStream::new(seed);
            let x = rk_binomial(&Ieee, &mut a, n, d(p)).unwrap();
            let y = rk_binomial(&Ieee, &mut b, n, d(1.0 - p)).unwrap();
            assert_eq!(x, n - y);
            assert_eq!(a.next_u32(), b.next_u32());
        }
    }
}

#[test]
fn large_rates_use_the_other_methods() {
    let mut g = MtStream::new(0);
    let mut sum = 0.0;
    for _ in 0..2000 {
        sum += rk_poisson(&Ieee, &mut g, d(50.0)).unwrap() as f64;
    }
    assert!(close(sum / 2000.0, 50.0, 1.0));
    let mut sum = 0.0;
    for _ in 0..2000 {
        sum += rk_binomial(&Ieee, &mut g, 200, d(0.4)).unwrap() as f64;
    }
    assert!(close(sum / 2000.0, 80.0, 1.0));
    assert_eq!(rk_poisson(&Ieee, &mut g, d(0.0)), Some(0));
}

#[test]
fn seeds_of_layers_differ() {
    assert_ne!(layer_seed(0, 1), layer_seed(1, 0));
    assert_ne!(layer_seed(2, 0), layer_seed(0, 2));
}

// ── Fast samples ─────────────────────────────────────────────────────────

/// The samples of the distributions, from one generator.
struct Stream {
    rng: std::cell::RefCell<StdRng>,
}

impl Stream {
    fn new(seed: u64) -> Stream {
        Stream { rng: std::cell::RefCell::new(StdRng::seed_from_u64(seed)) }
    }

    fn normal(&self, mean: f64, width: f64) -> f64 {
        Normal::new(mean, width).unwrap().sample(&mut *self.rng.borrow_mut())
    }

    fn poisson(&self, lambda: f64) -> f64 {
        Poisson::new(lambda).unwrap().sample(&mut *self.rng.borrow_mut())
    }

    fn uniform(&self) -> f64 {
        self.rng.borrow_mut().gen::<f64>()
    }
}

fn poisson_of(rng: &Stream, lambda: f64) -> u32 {
    sample_poisson(
        &Ieee,
        d(lambda),
        |m: Double, w: Double| d(rng.normal(fd(m), fd(w))),
        |l: Double| d(rng.poisson(fd(l))),
    )
}

fn binomial_of(rng: &Stream, n: u32, p: f64) -> u32 {
    sample_binomial(
        &Ieee,
        n,
        d(p),
        |m: Double, w: Double| d(rng.normal(fd(m), fd(w))),
        |_i: u32| d(rng.uniform()),
    )
}

#[test]
fn test_poisson_mean() {
    let rng = Stream::new(42);
    let lambda = 10.0;
    let n = 10000;
    let sum: f64 = (0..n).map(|_| poisson_of(&rng, lambda) as f64).sum();
    let mean = sum / n as f64;
    assert!((mean - lambda).abs() < 0.5);
}

#[test]
fn test_binomial_mean() {
    let rng = Stream::new(42);
    let n_trials = 100u32;
    let p = 0.3;
    let n_samples = 10000;
    let sum: f64 = (0..n_samples).map(|_| binomial_of(&rng, n_trials, p) as f64).sum();
    let mean = sum / n_samples as f64;
    let expected = n_trials as f64 * p;
    assert!((mean - expected).abs() < 1.0);
}

#[test]
fn test_poisson_zero() {
    let rng = Stream::new(42);
    assert_eq!(poisson_of(&rng, 0.0), 0);
}

#[test]
fn certain_outcomes_need_no_draw() {
    let never = |_m: Double, _w: Double| -> Double { panic!("drawn") };
    let no_trial = |_i: u32| -> Double { panic!("drawn") };
    assert_eq!(sample_binomial(&Ieee, 7, d(0.0), never, no_trial), 0);
    assert_eq!(sample_binomial(&Ieee, 7, d(1.0), never, no_trial), 7);
    assert_eq!(sample_binomial(&Ieee, 0, d(0.5), never, no_trial), 0);
    // The normal sample is rounded, and kept between 0 and the trials.
    let high = |_m: Double, _w: Double| d(1e9);
    let low = |_m: Double, _w: Double| d(-3.0);
    assert_eq!(sample_binomial(&Ieee, 100, d(0.5), high, no_trial), 100);
    assert_eq!(sample_binomial(&Ieee, 100, d(0.5), low, no_trial), 0);
    assert_eq!(sample_poisson(&Ieee, d(100.0), |m, _w| d(fd(m) + 0.6), |_l| d(0.0)), 101);
    let e = sample_lognormal(&Ieee, d(1.0), d(0.0), |m, _w| m);
    assert_eq!(e, d(1.0f64.exp()));
}

// ── Colour ───────────────────────────────────────────────────────────────

#[test]
fn test_srgb_roundtrip() {
    for &v in &[0.0_f64, 0.001, 0.01, 0.1, 0.18, 0.5, 0.9, 1.0] {
        let encoded = srgb_encode(&Ieee, d(v));
        let decoded = srgb_decode(&Ieee, encoded);
        assert!((v - fd(decoded)).abs() < 1e-5);
        let short = srgb_decode(&Ieee, srgb_encode(&Ieee, s(v as f32)));
        assert!((v as f32 - fs(short)).abs() < 1e-5);
    }
}

fn singles(m: [[u32; 3]; 3]) -> [[Single; 3]; 3] {
    m.map(|row| row.map(|bits| Single { bits }))
}

#[test]
fn test_identity_adaptation() {
    let white = D65_XYZ.map(|bits| Single { bits });
    let m = chromatic_adaptation_matrix(&Ieee, white, white);
    for i in 0..3 {
        for j in 0..3 {
            let expected = if i == j { 1.0 } else { 0.0 };
            assert!((fs(m[i][j]) - expected).abs() < 1e-4);
        }
    }
}

#[test]
fn a_white_is_adapted_to_the_other() {
    for src in [Illuminant::D50, Illuminant::D55, Illuminant::D65] {
        for dst in [Illuminant::D50, Illuminant::D55, Illuminant::D65] {
            let (a, b) = (standard_white(src), standard_white(dst));
            let m = chromatic_adaptation_matrix_f64(&Ieee, a, b);
            let r = mat3_mul(&Ieee, &m, a);
            for i in 0..3 {
                assert!(close(fd(r[i]), fd(b[i]), 1e-14));
            }
        }
    }
}

#[test]
fn dark_numbers_stay_dark() {
    let edge = srgb_encode(&Ieee, d(0.0031308));
    assert!(fd(edge) <= 0.04045);
    assert!(close(fd(srgb_decode(&Ieee, edge)), 0.0031308, 1e-17));
}

#[test]
fn test_srgb_xyz_roundtrip() {
    let rgb = [0.5f32, 0.3, 0.8];
    let xyz = mat3_mul(&Ieee, &singles(SRGB_TO_XYZ), rgb.map(s));
    let rgb2 = mat3_mul(&Ieee, &singles(XYZ_TO_SRGB), xyz);
    for i in 0..3 {
        assert!((rgb[i] - fs(rgb2[i])).abs() < 1e-5);
    }
}

#[test]
fn test_tc_xy_roundtrip() {
    for &(x, y) in &[(0.3127f64, 0.3290), (0.4, 0.4), (0.2, 0.3)] {
        let (tx, ty) = xy_to_tc(&Ieee, d(x), d(y));
        let (x2, y2) = tc_to_xy(&Ieee, tx, ty);
        assert!((x - fd(x2)).abs() < 0.01);
        assert!((y - fd(y2)).abs() < 0.01);
    }
}

#[test]
fn test_xyz_to_xy_white() {
    let (x, y) = xyz_to_xy(&Ieee, [s(0.95047), s(1.0), s(1.08883)]);
    assert!((fs(x) - 0.3127).abs() < 0.001);
    assert!((fs(y) - 0.3290).abs() < 0.001);
    // A colour without light has the white of daylight.
    let (x, y) = xyz_to_xy(&Ieee, [s(0.0), s(0.0), s(0.0)]);
    assert_eq!((x, y), (s(0.3127), s(0.3290)));
}

#[test]
fn test_illuminant_to_xy_d65() {
    let (x, y) = illuminant_to_xy(&Ieee, &Illuminant::D65.power_numbers());
    assert!((fd(x) - 0.3127).abs() < 0.01);
    assert!((fd(y) - 0.3290).abs() < 0.01);
}

#[test]
fn test_rgb_to_tc_b_neutral_gray() {
    let gray = [d(0.184), d(0.184), d(0.184)];
    let t = rgb_to_tc_b(&Ieee, gray, ColorSpace::Srgb, &Illuminant::D55.power_numbers());
    assert!(fd(t.b) > 0.0);
    let xy = illuminant_to_xy(&Ieee, &Illuminant::D55.power_numbers());
    let tc = xy_to_tc(&Ieee, xy.0, xy.1);
    assert!((fd(t.tx) - fd(tc.0)).abs() < 0.05);
    assert!((fd(t.ty) - fd(tc.1)).abs() < 0.05);
}

#[test]
fn one_matrix_exposes_like_two() {
    let lut = TcLut { size: 8, channels: 3, data: vec![d(0.5); 8 * 8 * 3] };
    let img = image(2, 1, &[0.2, 0.3, 0.4, 0.0, 0.0, 0.0]);
    let m = SRGB_TO_XYZ_F64.map(|row| row.map(|bits| Double { bits }));
    let r = hanatos2025_rgb_to_raw_with_matrix(&Ieee, &img, &lut, &m);
    let xyz = mat3_mul(&Ieee, &m, [d(0.2), d(0.3), d(0.4)]);
    let b = fd(xyz[0]) + fd(xyz[1]) + fd(xyz[2]);
    assert!(close(fd(r.get(0, 0)[0]), 0.5 * b, 1e-9));
    assert_eq!(r.get(1, 0), [d(0.0), d(0.0), d(0.0)]);
}

#[test]
fn whites_of_spectra() {
    let known = illuminant_xyz(&Ieee, &Illuminant::D50.power_numbers());
    assert_eq!(known, [s(0.964220), s(1.0), s(0.825210)]);
    // A spectrum that is not known is integrated.
    let flat = vec![s(7.0); 81];
    let r = illuminant_xyz(&Ieee, &flat);
    assert_eq!(r[1], s(1.0));
    assert!((fs(r[0]) - 1.0).abs() < 0.01 && (fs(r[2]) - 1.0).abs() < 0.01);
    let wide = illuminant_xyz_f64(&Ieee, &flat);
    assert!((fd(wide[0]) - 1.0).abs() < 0.01);
    // One without light is grey.
    assert_eq!(illuminant_xyz_f64(&Ieee, &[]), [d(1.0), d(1.0), d(1.0)]);
    // A colour is read under any of them.
    let rgb = [d(0.2), d(0.5), d(0.3)];
    let daylight = rgb_to_tc_b(&Ieee, rgb, ColorSpace::Srgb, &Illuminant::D55.power_numbers());
    let even = rgb_to_tc_b(&Ieee, rgb, ColorSpace::Srgb, &flat);
    assert!((fd(daylight.tx) - fd(even.tx)).abs() > 1e-4);
    let lamp = rgb_to_tc_b(&Ieee, [d(0.3); 3], ColorSpace::Srgb, &flat);
    let xy = illuminant_to_xy(&Ieee, &flat);
    let tc = xy_to_tc(&Ieee, xy.0, xy.1);
    assert!(close(fd(lamp.tx), fd(tc.0), 1e-3) && close(fd(lamp.ty), fd(tc.1), 1e-3));
    let w = colorspace_white_xyz(&Ieee, ColorSpace::Srgb);
    assert_eq!(w[1], s(1.0));
    assert!((fs(w[0]) - 0.3127 / 0.329).abs() < 1e-6);
}

// ── Curves ───────────────────────────────────────────────────────────────

#[test]
fn test_interpolate_density_midpoint() {
    let axis: Vec<Single> = (0..5).map(|i| s(i as f32)).collect();
    let curves = [
        [0.0f32, 0.0, 0.0],
        [0.5, 0.4, 0.3],
        [1.0, 0.8, 0.6],
        [1.5, 1.2, 0.9],
        [2.0, 1.6, 1.2],
    ]
    .map(|row| row.map(s));
    let v = interpolate_density(&Ieee, &axis, &curves, s(1.5), s(1.0));
    assert!((fs(v[0]) - 0.75).abs() < 1e-5);
    assert!((fs(v[1]) - 0.60).abs() < 1e-5);
    assert!((fs(v[2]) - 0.45).abs() < 1e-5);
}

#[test]
fn test_normalize_density_curves() {
    let curves = [[1.0f32, 2.0, 3.0], [2.0, 3.0, 4.0]].map(|row| row.map(s));
    let norm = normalize_density_curves(&Ieee, &curves);
    assert_eq!(norm[0], [s(0.0), s(0.0), s(0.0)]);
    assert_eq!(norm[1], [s(1.0), s(1.0), s(1.0)]);
}

#[test]
fn test_max_density() {
    let curves = [[0.1f32, 0.2, 0.3], [2.0, 1.5, 1.0], [1.5, 1.8, 0.8]].map(|row| row.map(s));
    assert_eq!(max_density(&curves), [s(2.0), s(1.8), s(1.0)]);
}

#[test]
fn developing_takes_the_lowest_density_away() {
    let curves = [[1.0f32, 1.0, 1.0], [2.0, 3.0, 4.0]].map(|row| row.map(s));
    let axis = [s(0.0), s(1.0)];
    let img = image(1, 1, &[0.5, 0.5, 1.0]);
    let r = develop_simple(&Ieee, &img, &axis, &curves, s(1.0));
    assert_eq!(r.get(0, 0), [d(0.5), d(1.0), d(3.0)]);
    // A gamma of 2 halves the axis.
    let q = interpolate_exposure_to_density(&Ieee, &img, &curves, &axis, s(2.0));
    assert_eq!(q.get(0, 0), [d(2.0), d(3.0), d(4.0)]);
}

#[test]
fn dyes_make_density_and_light() {
    let dyes = [[s(1.0), s(0.0), s(0.5)], [s(0.0), s(2.0), s(0.0)]];
    let base = [s(0.25), s(0.5)];
    let img = image(1, 1, &[1.0, 0.5, 0.5]);
    let r = compute_density_spectral(&Ieee, &dyes, &img, Some(&base));
    assert_eq!(r.len(), 1);
    assert_eq!(r[0], vec![s(1.5), s(1.5)]);
    let bare = compute_density_spectral(&Ieee, &dyes, &img, None);
    assert_eq!(bare[0], vec![s(1.25), s(1.0)]);
    let light = density_to_light(&Ieee, &[s(1.0), s(f32::NAN), s(0.0)], &[s(2.0), s(2.0)]);
    assert_eq!(light.len(), 2);
    assert!((fs(light[0]) - 0.2).abs() < 1e-7);
    assert_eq!(light[1], s(0.0));
}

// ── Black bodies ─────────────────────────────────────────────────────────

fn peak(spd: &[Single]) -> usize {
    let mut best = 0;
    for (i, v) in spd.iter().enumerate() {
        if fs(*v) > fs(spd[best]) {
            best = i;
        }
    }
    best
}

#[test]
fn test_blackbody_peak_shifts_with_temperature() {
    let spd_3000 = blackbody_spd(&Ieee, s(3000.0));
    let spd_6500 = blackbody_spd(&Ieee, s(6500.0));
    assert!(peak(&spd_3000) > peak(&spd_6500));
}

#[test]
fn test_blackbody_normalized() {
    let spd = blackbody_spd(&Ieee, s(5500.0));
    let max = spd.iter().map(|v| fs(*v)).fold(0.0f32, f32::max);
    assert!((max - 1.0).abs() < 1e-6);
    assert_eq!(spd.len(), 81);
}

#[test]
fn radiance_of_a_black_body() {
    // Planck's law at 500 nm and 5000 K, in W/(m^2 sr m).
    let v = fs(blackbody_radiance(&Ieee, s(500.0), s(5000.0)));
    assert!((v / 1.2107e13 - 1.0).abs() < 1e-3);
}

// ── Sums and slopes ──────────────────────────────────────────────────────

#[test]
fn pairwise_sums() {
    let xs: Vec<Double> = (0..300).map(|i| d(i as f64)).collect();
    assert_eq!(pairwise_sum_f64_pub(&Ieee, &xs), d(44850.0));
    assert_eq!(pairwise_sum_f64_pub(&Ieee, &[]), d(0.0));
}

#[test]
fn slopes_vanish_at_extremes() {
    let v = [0.0, 1.0, 0.0, 1.0].map(d).to_vec();
    let slopes = fill_monotone_slopes_1d(&Ieee, &v);
    assert_eq!(fd(slopes[1]), 0.0);
    assert_eq!(fd(slopes[2]), 0.0);
    let line = [0.0, 2.0, 4.0, 6.0].map(d).to_vec();
    let slopes = fill_monotone_slopes_1d(&Ieee, &line);
    assert!(slopes.iter().all(|m| close(fd(*m), 2.0, 1e-12)));
}

#[test]
fn order_of_encodings_is_the_order_of_numbers() {
    let xs = [f64::NEG_INFINITY, -2.5, -0.0, 0.0, 1e-310, 1.0, f64::INFINITY];
    for a in xs {
        for b in xs {
            assert_eq!(d(a).is_below(d(b)), a < b);
            assert_eq!(d(a).is_at_most(d(b)), a <= b);
            let (p, q) = (a as f32, b as f32);
            assert_eq!(s(p).is_below(s(q)), p < q);
            assert_eq!(s(p).is_at_most(s(q)), p <= q);
        }
        assert!(!d(f64::NAN).is_at_most(d(a)) && !d(a).is_below(d(f64::NAN)));
    }
}

#[test]
fn clipping_keeps_to_the_unit() {
    let img = image(1, 1, &[-0.5, 0.25, 7.0]);
    let once = clip(&img);
    assert_eq!(once.get(0, 0), [d(0.0), d(0.25), d(1.0)]);
    assert_eq!(clip(&once).data, once.data);
}

#[test]
fn glare_of_nothing_changes_nothing() {
    let draw = |_m: Double, _w: Double, _s: u64, n: usize| vec![d(5.0); n];
    let img = image(2, 1, &[0.1, 0.2, 0.3, 0.4, 0.5, 0.6]);
    let white = [s(0.95), s(1.0), s(1.08)];
    let same = add_glare(&Ieee, img.clone(), white, s(0.0), s(0.5), s(0.0), &draw);
    assert_eq!(same.data, img.data);
    let more = add_glare(&Ieee, img.clone(), white, s(0.1), s(0.5), s(0.0), &draw);
    assert!(fd(more.data[1]) > fd(img.data[1]));
}

// ── Files ────────────────────────────────────────────────────────────────

#[test]
fn levels_of_files() {
    let v = [0.0, 0.5, 1.0, -1.0, 2.0, 0.1, f64::NAN].map(d);
    assert_eq!(levels_8(&Ieee, &v), vec![0, 128, 255, 0, 255, 26, 0]);
    assert_eq!(levels_16(&Ieee, &v), vec![0, 32768, 65535, 0, 65535, 6554, 0]);
    // Halves go to the even level in a file, and upwards in a preview.
    let half = [d(0.5 / 255.0), d(2.5 / 255.0)];
    assert_eq!(levels_8(&Ieee, &half), vec![0, 2]);
    let exact = [s(0.5), s(1.0)];
    assert_eq!(preview_levels_8(&Ieee, &exact), vec![128, 255]);
    assert_eq!(preview_levels_16(&Ieee, &exact), vec![32768, 65535]);
    assert_eq!(texture_of(&[1, 2, 3, 4, 5, 6]), vec![1, 2, 3, 255, 4, 5, 6, 255]);
    let img = image(1, 1, &[1.0, 0.0, 0.5]);
    assert_eq!(make_texture(&Ieee, &img), vec![255, 0, 128, 255]);
}

#[test]
fn numbers_of_files() {
    let data = [s(0.0), s(0.5), s(1.0)];
    let lin: ImageBuf<Double> = linear_image(&Ieee, 1, 1, &data);
    assert_eq!(lin.get(0, 0), [d(0.0), d(0.5), d(1.0)]);
    let dec: ImageBuf<Double> = decoded_image(&Ieee, 1, 1, &data);
    assert!(close(fd(dec.get(0, 0)[1]), 0.21404114, 1e-6));
    let raw: ImageBuf<Single> = raw_image(&Ieee, 1, 1, &[0, 65535, 13107]);
    assert_eq!(raw.get(0, 0)[0], s(0.0));
    assert!((fs(raw.get(0, 0)[1]) - 1.0).abs() < 1e-6);
    assert!((fs(raw.get(0, 0)[2]) - 0.2).abs() < 1e-6);
    let bytes = raw_bytes(&Ieee, &[d(1.0), d(-2.5)]);
    let mut expected = 1.0f64.to_le_bytes().to_vec();
    expected.extend_from_slice(&(-2.5f64).to_le_bytes());
    assert_eq!(bytes, expected);
}

// ── The preview ──────────────────────────────────────────────────────────

#[test]
fn zoom_keeps_the_point_under_the_cursor() {
    let at = |x: f32, y: f32| Point { x: s(x), y: s(y) };
    let start = fit();
    let view = zoom_view(&Ieee, start, at(100.0, 100.0), Some(at(150.0, 100.0)), s(2.0), s(0.0));
    assert_eq!(view.zoom, s(2.0));
    assert_eq!(view.pan, at(-50.0, 0.0));
    // A factor too near 1 changes nothing.
    let same = zoom_view(&Ieee, view, at(0.0, 0.0), None, s(1.00001), s(0.0));
    assert_eq!(same, view);
    // The zoom stays between its limits.
    let far = zoom_view(&Ieee, start, at(0.0, 0.0), None, s(1000.0), s(0.0));
    assert_eq!(far.zoom, s(32.0));
    let near = zoom_view(&Ieee, start, at(0.0, 0.0), None, s(0.001), s(0.0));
    assert_eq!(near.zoom, s(0.1));
    let scrolled = zoom_view(&Ieee, start, at(0.0, 0.0), None, s(1.0), s(100.0));
    assert!((fs(scrolled.zoom) - 0.15f32.exp()).abs() < 1e-6);
    let dragged = drag_view(&Ieee, start, at(3.0, -4.0));
    assert_eq!(dragged.pan, at(3.0, -4.0));
    assert_eq!(fit_scale(&Ieee, at(50.0, 90.0), at(100.0, 100.0)), s(0.5));
    assert_eq!(fit_scale(&Ieee, at(500.0, 900.0), at(100.0, 100.0)), s(1.0));
    assert_eq!(drawn_size(&Ieee, at(100.0, 50.0), s(0.5), s(2.0)), at(100.0, 50.0));
    assert_eq!(zoom_label(&Ieee, s(0.5), start), "fit");
    assert_eq!(zoom_label(&Ieee, s(0.5), view), "100 %  (double-click to reset)");
}

#[test]
fn labels_of_rates() {
    assert_eq!(fps_label(s(15.9)), "60 fps");
    assert_eq!(fps_label(s(16.0)), "30 fps");
    assert_eq!(fps_label(s(66.0)), "15 fps");
    assert_eq!(fps_label(s(199.0)), "5 fps");
    assert_eq!(fps_label(s(399.0)), "2 fps");
    assert_eq!(fps_label(s(400.0)), "");
}

#[test]
fn inhibition_takes_off_where_there_is_density() {
    let log_raw = image(2, 1, &[1.0, 1.0, 1.0, 1.0, 1.0, 1.0]);
    let density = image(1, 1, &[0.5, 1.0, 0.25]);
    let unit = [[d(1.0), d(0.0), d(0.0)], [d(0.0), d(1.0), d(0.0)], [d(0.0), d(0.0), d(1.0)]];
    let still = Diffusion { size: s(0.0), tail: s(0.0), weight: d(0.0) };
    let r = compute_exposure_correction(
        &Ieee,
        &log_raw,
        &density,
        [d(2.0), d(2.0), d(2.0)],
        &unit,
        still,
        false,
    );
    assert_eq!((r.width, r.height), (2, 1));
    let got: Vec<f64> = r.data.iter().map(|&x| fd(x)).collect();
    assert_eq!(got, vec![0.5, 0.0, 0.75, 1.0, 1.0, 1.0]);
    let r = compute_exposure_correction(
        &Ieee,
        &log_raw,
        &density,
        [d(2.0), d(2.0), d(2.0)],
        &unit,
        still,
        true,
    );
    let got: Vec<f64> = r.data.iter().map(|&x| fd(x)).collect();
    assert_eq!(got, vec![-0.5, 0.0, -0.75, 1.0, 1.0, 1.0]);
}

#[test]
fn decoding_gives_back_what_was_encoded_between_the_parts_of_the_curve() {
    for &v in &[0.003130, 0.0031308, 0.00313081, 0.0031309, 0.0032, 0.04045, 0.9999] {
        let back: Double = srgb_decode(&Ieee, srgb_encode(&Ieee, d(v)));
        assert!((fd(back) - v).abs() < 1e-5);
        let short: Single = srgb_decode(&Ieee, srgb_encode(&Ieee, s(v as f32)));
        assert!((fs(short) as f64 - v).abs() < 1e-5);
    }
}
