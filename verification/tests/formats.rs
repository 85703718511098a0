use spektrafilm::bits::Single;
use spektrafilm::catalog::{
    list_names, listed_name, pick_default_stock, pick_film, pick_paper, profile_line,
    profile_stem, scan_profiles, shown_stock, FoundProfile, ProfileEntry,
};
use spektrafilm::commands::{cube_file, lut_stock, plain_params, print_stock, run_count, set_run_params};
use spektrafilm::export::{
    export_args, export_result, export_step, first_file, is_cancelled, locate_f64_cli,
    params_file, Candidate, ExportStep,
};
use spektrafilm::files::{
    input_format, input_format_of, is_raw_extension, output_format, output_format_of,
    preview_format, preview_format_of, set_input, set_input_of, InputFormat, OutputFormat,
};
use spektrafilm::film_chain::{FilmChainParams, Step};
use spektrafilm::gpu::{
    buffer_bytes, force_cpu, gaussian_blur_gpu, gaussian_blur_multi_gpu, select_backend,
    BackendKind, BlurBuffer, BlurCommand, PipelineCache,
};
use spektrafilm::neutral_filters::{FilterEntry, NeutralFilters};
use spektrafilm::npy::{extract_field, load_npy_f32, NpyData, NpyError};
use spektrafilm::params::RuntimeParams;
use spektrafilm::profile::ProfileInfo;
use spektrafilm::spectral::{HanatosLut, UnexpectedEnd};
use spektrafilm::text::{is_text_below, parse_number, signed_decimal_string};

// ── Arrays ───────────────────────────────────────────────────────────────

fn array(descr: &str, order: &str, shape: &str, body: &[u8]) -> Vec<u8> {
    let header = format!("{{'descr': '{descr}', 'fortran_order': {order}, 'shape': {shape}, }}\n");
    let mut b = vec![0x93, b'N', b'U', b'M', b'P', b'Y', 1, 0];
    b.extend_from_slice(&(header.len() as u16).to_le_bytes());
    b.extend_from_slice(header.as_bytes());
    b.extend_from_slice(body);
    b
}

#[test]
fn arrays_are_read() {
    let mut body = 1.5f32.to_le_bytes().to_vec();
    body.extend_from_slice(&(-2.0f32).to_le_bytes());
    let a = load_npy_f32(&array("<f4", "False", "(2,)", &body)).unwrap();
    assert_eq!(a.shape, vec![2]);
    match a.data {
        NpyData::Single(v) => assert_eq!(
            v,
            vec![Single { bits: 1.5f32.to_bits() }, Single { bits: (-2.0f32).to_bits() }]
        ),
        _ => panic!("not singles"),
    }
    let a = load_npy_f32(&array("<f2", "False", "(1, 2)", &[0, 0x3c, 0, 0xc0])).unwrap();
    assert_eq!(a.shape, vec![1, 2]);
    match a.data {
        NpyData::Half(v) => assert_eq!(v, vec![0x3c00, 0xc000]),
        _ => panic!("not halves"),
    }
}

#[test]
fn broken_arrays_are_refused() {
    assert!(matches!(load_npy_f32(b"\x93NUM"), Err(NpyError::Io)));
    assert!(matches!(load_npy_f32(b"no array"), Err(NpyError::BadMagic)));
    assert!(matches!(
        load_npy_f32(&array("<f4", "False", "(3,)", &[0; 8])),
        Err(NpyError::Io)
    ));
    assert!(matches!(
        load_npy_f32(&array("<i4", "False", "(2,)", &[0; 8])),
        Err(NpyError::Parse(_))
    ));
    assert!(matches!(
        load_npy_f32(&array("<f4", "True", "(2,)", &[0; 8])),
        Err(NpyError::Parse(_))
    ));
    assert_eq!(NpyError::BadMagic.message(), "not a .npy file");
    assert_eq!(NpyError::Io.message(), "IO error: failed to fill whole buffer");
    assert_eq!(NpyError::Parse("x".to_string()).message(), "parse error: x");
}

#[test]
fn bytes_that_are_no_text_are_replaced() {
    let mut b = vec![0x93, b'N', b'U', b'M', b'P', b'Y', 1, 0, 4, 0];
    b.extend_from_slice(&[0xff, 0xfe, b' ', b' ']);
    assert!(matches!(load_npy_f32(&b), Err(NpyError::Parse(_))));
    let h = "{'descr': '<f4', 'shape': (2, 3), }";
    assert_eq!(extract_field(h, "descr"), Some("'<f4'".to_string()));
    assert_eq!(extract_field(h, "shape"), Some("(2, 3)".to_string()));
    assert_eq!(extract_field(h, "order"), None);
}

#[test]
fn coefficient_tables_are_read() {
    let mut b = Vec::new();
    for word in [0u32, 0, 2, 1] {
        b.extend_from_slice(&word.to_le_bytes());
    }
    for k in 0..8 {
        b.extend_from_slice(&(k as f32).to_le_bytes());
    }
    let t = match HanatosLut::load(&b) {
        Ok(t) => t,
        Err(e) => panic!("{e:?}"),
    };
    assert_eq!((t.width, t.height), (2, 1));
    assert_eq!(t.coeffs[1][3], Single { bits: 7.0f32.to_bits() });
    b.pop();
    assert!(matches!(HanatosLut::load(&b), Err(UnexpectedEnd)));
    // A negative side counts as one that no file can fill.
    let mut n = Vec::new();
    for word in [0i32, 0, -1, 1] {
        n.extend_from_slice(&word.to_le_bytes());
    }
    assert!(matches!(HanatosLut::load(&n), Err(UnexpectedEnd)));
}

// ── Texts ────────────────────────────────────────────────────────────────

#[test]
fn texts_are_ordered_like_strings() {
    let words = ["", "a", "A", "ab", "b", "é", "z", "日本", "\u{10000}"];
    for a in words {
        for b in words {
            assert_eq!(is_text_below(a, b), a < b);
        }
    }
}

#[test]
fn numbers_in_texts() {
    let digits: Vec<char> = "1234".chars().collect();
    assert!(matches!(parse_number(&digits), Ok(1234)));
    let plus: Vec<char> = "+7".chars().collect();
    assert!(matches!(parse_number(&plus), Ok(7)));
    let none: Vec<char> = "".chars().collect();
    match parse_number(&none) {
        Ok(_) => panic!("a number"),
        Err(e) => assert_eq!(e.message(), "cannot parse integer from empty string"),
    }
    let bad: Vec<char> = "1x".chars().collect();
    match parse_number(&bad) {
        Ok(_) => panic!("a number"),
        Err(e) => assert_eq!(e.message(), "invalid digit found in string"),
    }
    let large: Vec<char> = "99999999999999999999999".chars().collect();
    match parse_number(&large) {
        Ok(_) => panic!("a number"),
        Err(e) => assert_eq!(e.message(), "number too large to fit in target type"),
    }
    assert_eq!(signed_decimal_string(i32::MIN), i32::MIN.to_string());
    assert_eq!(signed_decimal_string(42), "42");
}

// ── Formats of image files ───────────────────────────────────────────────

#[test]
fn formats_by_extension() {
    assert_eq!(input_format("PNG"), Ok(InputFormat::Png));
    assert_eq!(input_format("Tiff"), Ok(InputFormat::Tiff));
    assert_eq!(input_format("EXR"), Ok(InputFormat::Exr));
    assert_eq!(input_format_of("exr"), Some(InputFormat::Exr));
    assert_eq!(input_format("NEF"), Ok(InputFormat::Raw));
    assert_eq!(
        input_format("Gif"),
        Err("unsupported image format: .gif (supported: tiff, png, raw)".to_string())
    );
    assert_eq!(input_format_of("png"), Some(InputFormat::Png));
    assert_eq!(input_format_of("PNG"), None);
    assert_eq!(output_format("JPEG"), Ok(OutputFormat::Jpeg));
    assert_eq!(output_format("TIF"), Ok(OutputFormat::Tiff));
    assert_eq!(
        output_format("exr"),
        Err("unsupported output format: .exr (supported: tiff, png, jpg)".to_string())
    );
    assert_eq!(output_format_of("jpg"), Some(OutputFormat::Jpeg));
    assert_eq!(preview_format("TIFF"), OutputFormat::Tiff);
    assert_eq!(preview_format("jpg"), OutputFormat::Png);
    assert_eq!(preview_format_of("tif"), OutputFormat::Tiff);
    assert!(is_raw_extension("3fr") && !is_raw_extension("png"));
}

#[test]
fn linear_files_are_not_decoded_again() {
    let mut io = RuntimeParams::default().io;
    io.input_cctf_decoding = true;
    set_input(&mut io, "tif");
    assert!(io.input_cctf_decoding);
    assert_eq!(io.input_color_space, "ProPhoto RGB");
    set_input(&mut io, "DNG");
    assert!(!io.input_cctf_decoding);
    assert_eq!(io.input_color_space, "sRGB");
    let mut other = RuntimeParams::default().io;
    set_input_of(&mut other, "png");
    assert_eq!(other.input_color_space, "sRGB");
    let mut p = RuntimeParams::default();
    set_run_params(&mut p, true, "PNG");
    assert!(p.io.scan_film && p.io.input_color_space == "sRGB");
    let q = plain_params(true, "png");
    assert!(q.io.scan_film && q.io.input_color_space == "sRGB");
    assert_eq!(plain_params(false, "tif").io.input_color_space, "ProPhoto RGB");
}

// ── Profiles ─────────────────────────────────────────────────────────────

fn info(name: Option<&str>, support: &str, stage: &str) -> ProfileInfo {
    ProfileInfo {
        stock: None,
        name: name.map(|n| n.to_string()),
        film_type: "negative".to_string(),
        support: support.to_string(),
        stage: stage.to_string(),
        usage: "still".to_string(),
        antihalation: "weak".to_string(),
        target_print: None,
        channel_model: "color".to_string(),
        densitometer: "status_M".to_string(),
        log_sensitivity_density_over_min: spektrafilm::bits::Double { bits: 0 },
        reference_illuminant: "D55".to_string(),
        viewing_illuminant: "D50".to_string(),
    }
}

#[test]
fn names_of_profiles() {
    assert_eq!(profile_stem("gold.json"), Some("gold".to_string()));
    assert_eq!(profile_stem("gold.json.json"), Some("gold.json".to_string()));
    assert_eq!(profile_stem("gold.txt"), None);
    assert_eq!(listed_name("gold.json.json"), Some("gold".to_string()));
    let files = ["b.json", "readme", "a.json", "c.json"].map(|s| s.to_string()).to_vec();
    assert_eq!(list_names(&files), vec!["a", "b", "c"]);
    assert_eq!(profile_line("x", &None), "x");
    let line = profile_line("gold", &Some(info(Some("Gold 200"), "film", "filming")));
    assert_eq!(line, format!("{:<40} {:<30} ({}, {})", "gold", "Gold 200", "negative", "film"));
}

#[test]
fn profiles_are_sorted_into_films_and_papers() {
    let found = |file: &str, i: Option<ProfileInfo>| FoundProfile { file: file.to_string(), info: i };
    let list = vec![
        found("z.json", Some(info(Some("Alpha"), "film", "filming"))),
        found("notes.txt", None),
        found("p.json", Some(info(None, "paper", "printing"))),
        found("broken.json", None),
        found("q.json", Some(info(Some("Beta"), "film", "printing"))),
        found("y.json", Some(info(Some("Alpha"), "film", "filming"))),
    ];
    let (films, papers) = scan_profiles(&list);
    let stocks = |v: &Vec<ProfileEntry>| v.iter().map(|e| e.stock.clone()).collect::<Vec<_>>();
    // Entries of one name keep their order.
    assert_eq!(stocks(&films), vec!["z", "y", "broken"]);
    assert_eq!(stocks(&papers), vec!["q", "p"]);
    assert_eq!(pick_default_stock(&films, "y"), "y");
    assert_eq!(pick_default_stock(&films, "none"), "z");
    assert_eq!(pick_default_stock(&vec![], "none"), "none");
    assert_eq!(pick_film(&vec![]), "kodak_gold_200");
    assert_eq!(pick_paper(&papers, Some("p")), "p");
    assert_eq!(pick_paper(&papers, Some("other")), "q");
    assert_eq!(shown_stock(&films, "z"), "Alpha");
    assert_eq!(shown_stock(&films, "none"), "none");
}

#[test]
fn filters_by_paper_lamp_and_film() {
    let mut db = NeutralFilters::new();
    let n = |x: u64| spektrafilm::bits::Double { bits: x };
    db.insert(FilterEntry {
        print_stock: "p".to_string(),
        illuminant: "l".to_string(),
        film_stock: "f".to_string(),
        cmy: [n(1), n(2), n(3)],
    });
    assert_eq!(db.lookup("p", "l", "f"), Some([n(1), n(2), n(3)]));
    assert_eq!(db.lookup("p", "l", "g"), None);
}

// ── Commands ─────────────────────────────────────────────────────────────

#[test]
fn the_paper_of_a_film() {
    assert_eq!(print_stock("f", Some("p"), true, Some("t")), Ok("f".to_string()));
    assert_eq!(print_stock("f", Some("p"), false, Some("t")), Ok("p".to_string()));
    assert_eq!(print_stock("f", None, false, Some("t")), Ok("t".to_string()));
    assert_eq!(
        print_stock("f", None, false, None),
        Err("no paper specified and film has no target_print — use --paper or --scan-film".to_string())
    );
    assert_eq!(lut_stock(None, Some("t")), Ok("t".to_string()));
    assert_eq!(
        lut_stock(None, None),
        Err("no paper specified and film has no target_print".to_string())
    );
    assert_eq!((run_count(0), run_count(1), run_count(5)), (1, 1, 5));
}

#[test]
fn files_of_tables() {
    let rows = vec![["0.000000", "0.500000", "1.000000"].map(|s| s.to_string())];
    assert_eq!(
        cube_file("f", "p", 33, &rows),
        "# Created by spektrafilm-rs\nTITLE \"spektrafilm f → p\"\nLUT_3D_SIZE 33\n\n0.000000 0.500000 1.000000\n"
    );
}

// ── Exports ──────────────────────────────────────────────────────────────

fn candidate(path: &str, is_file: bool) -> Candidate {
    Candidate { path: path.to_string(), is_file }
}

#[test]
fn the_program_is_found_in_order() {
    let set = Some(candidate("/set", true));
    let beside = Some(candidate("/beside", true));
    let path = vec![candidate("/a", false), candidate("/b", true), candidate("/c", true)];
    let built = Some(candidate("/built", true));
    assert_eq!(locate_f64_cli(&set, &beside, &path, &built), Ok("/set".to_string()));
    assert_eq!(locate_f64_cli(&None, &beside, &path, &built), Ok("/beside".to_string()));
    assert_eq!(locate_f64_cli(&None, &None, &path, &built), Ok("/b".to_string()));
    assert_eq!(locate_f64_cli(&None, &None, &vec![], &built), Ok("/built".to_string()));
    assert!(locate_f64_cli(&None, &None, &vec![], &None)
        .unwrap_err()
        .starts_with("no f64 CLI found. Build it with `cargo build"));
    assert_eq!(
        locate_f64_cli(&Some(candidate("/x", false)), &beside, &path, &built),
        Err("SPEKTRAFILM_F64_CLI points at /x but no such file".to_string())
    );
    assert_eq!(first_file(&vec![candidate("/a", false)]), None);
}

#[test]
fn runs_of_the_program() {
    assert_eq!(params_file(7, 9), "spektrafilm-export-7-9.json");
    let args = export_args("in", "out", "f", "p", "par", "data", true);
    assert_eq!(
        args,
        vec![
            "process", "in", "-o", "out", "--film", "f", "--paper", "p", "--params", "par",
            "--data-dir", "data", "--scan-film"
        ]
    );
    assert_eq!(export_args("in", "out", "f", "p", "par", "data", false).len(), 12);
    assert_eq!(export_step(true, true), ExportStep::Finish);
    assert_eq!(export_step(false, true), ExportStep::Kill);
    assert_eq!(export_step(false, false), ExportStep::Wait);
    assert_eq!(export_result(true, Some(0), "noise"), Ok(()));
    assert_eq!(
        export_result(false, Some(-2), "  broken \n"),
        Err("f64 CLI exited -2 — broken".to_string())
    );
    assert_eq!(
        export_result(false, None, " \n"),
        Err("f64 CLI exited (signal) — (no stderr)".to_string())
    );
    assert!(is_cancelled("export cancelled by user") && !is_cancelled("cancel"));
}

// ── The GPU ──────────────────────────────────────────────────────────────

#[test]
fn the_backend_is_chosen() {
    assert!(force_cpu(Some("CPU")) && force_cpu(Some("cpu")));
    assert!(!force_cpu(Some("gpu")) && !force_cpu(None));
    assert_eq!(select_backend(None, true), BackendKind::Gpu);
    assert_eq!(select_backend(None, false), BackendKind::Cpu);
    assert_eq!(select_backend(Some("cpu"), true), BackendKind::Cpu);
}

#[test]
fn words_become_bytes() {
    let bytes = buffer_bytes(&[0x0102_0304, 5]);
    let mut expected = 0x0102_0304u32.to_ne_bytes().to_vec();
    expected.extend_from_slice(&5u32.to_ne_bytes());
    assert_eq!(bytes, expected);
}

#[test]
fn a_shader_is_compiled_once() {
    let mut cache = PipelineCache::new();
    assert_eq!(cache.cached_pipeline(77), (0, true));
    assert_eq!(cache.cached_pipeline(5), (1, true));
    assert_eq!(cache.cached_pipeline(77), (0, false));
}

#[test]
fn blurs_on_their_own() {
    assert_eq!(
        gaussian_blur_gpu(),
        vec![BlurCommand::Horizontal(0), BlurCommand::Vertical(0), BlurCommand::Copy(0)]
    );
    let many = gaussian_blur_multi_gpu(2);
    assert_eq!(many.len(), 6);
    assert_eq!(many[4].writes(), BlurBuffer::Output(1));
    assert_eq!(many[3].reads(), BlurBuffer::Input);
}

#[test]
fn the_shortest_chain() {
    let zero = Single { bits: 0 };
    let p = FilmChainParams {
        width: 100,
        height: 50,
        lut_size: 4,
        rgb_to_adapted_xyz: [[zero; 3]; 3],
        film_curve_len: 2,
        film_uniform_grid: true,
        film_gamma_inv: zero,
        film_wavelengths: 81,
        print_normalization_factor: zero,
        print_curve_len: 2,
        print_uniform_grid: true,
        print_gamma_inv: zero,
        print_wavelengths: 81,
        scan_normalization: zero,
        scan_xyz_to_rgb: [[zero; 3]; 3],
        halation: None,
        dir_couplers: None,
        grain: None,
        glare: None,
        unsharp: None,
    };
    assert_eq!(
        p.run_film_chain(),
        vec![
            Step::Hanatos,
            Step::Log10,
            Step::FilmDensity,
            Step::PrintSpectral,
            Step::PrintDensity,
            Step::ScanSpectral
        ]
    );
    assert_eq!(Step::Hanatos.workgroups(100, 50), (5, 1));
}
