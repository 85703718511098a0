use spektrafilm::bits::{Double, Single};
use spektrafilm::catalog::ProfileEntry;
use spektrafilm::image::ImageBuf;
use spektrafilm::panel::{sections, Control, Section, Value, Widget};
use spektrafilm::params::RuntimeParams;
use spektrafilm::session::{set_export_params, ExportEvent, RenderEvent, Session, Source};

fn entry(stock: &str) -> ProfileEntry {
    ProfileEntry { stock: stock.to_string(), display: stock.to_uppercase() }
}

fn session() -> Session<Single> {
    let papers = vec![entry("endura"), entry("crystal")];
    Session::new(vec![entry("gold")], papers, "gold".to_string(), Some("crystal"))
}

fn image() -> ImageBuf<Single> {
    ImageBuf::filled(2, 1, Single { bits: 0x3f00_0000 })
}

fn loaded() -> Session<Single> {
    let mut s = session();
    s.load_image(image(), Source { stem: Some("cat".to_string()) }, "PNG", "0.0", "12");
    s
}

fn done() -> RenderEvent<Single> {
    RenderEvent::Done {
        output: image(),
        build_ms: Single { bits: 1 },
        render_ms: Single { bits: 2 },
    }
}

#[test]
fn a_session_starts_idle() {
    let mut s = session();
    assert_eq!(s.status, "Load an image to start.");
    assert_eq!((s.film_name.as_str(), s.print_name.as_str()), ("gold", "crystal"));
    assert!(!s.tick());
    assert!(!s.dispatch_render());
    assert_eq!(s.save_dialog(), None);
    assert_eq!(s.status, "Nothing to save yet — load an image first.");
    assert_eq!(s.export_dialog(&Ok(())), None);
    assert_eq!(s.status, "Load an image before exporting.");
}

#[test]
fn a_loaded_image_is_rendered() {
    let mut s = loaded();
    assert_eq!(s.status, "Loaded 2 × 1 (0.0 MP) in 12 ms");
    assert_eq!(s.params.io.input_color_space, "sRGB");
    assert!(!s.params.io.input_cctf_decoding);
    assert!(s.tick());
    assert!(!s.tick());
    assert!(!s.poll_render(RenderEvent::Pending));
    assert!(s.poll_render(done()));
    assert!(s.output.is_some() && !s.rendering && !s.dirty);
    assert_eq!(s.render_ms, Single { bits: 2 });
    assert_eq!(s.save_dialog(), Some("cat_gold_spektra.png".to_string()));
    s.saved(Some("x.png"), "3");
    assert_eq!(s.status, "Saved x.png in 3 ms");
    s.saved(None, "3");
    assert_eq!(s.status, "Saved (file) in 3 ms");
    s.save_failed("disk full");
    assert_eq!(s.status, "Save error: disk full");
    s.load_failed("no such file");
    assert_eq!(s.status, "Load error: no such file");
}

#[test]
fn a_change_during_a_render_is_rendered_next() {
    let mut s = loaded();
    assert!(s.tick());
    s.change(Control::AutoExposure, Value::Flag(false));
    assert!(s.dirty);
    assert!(!s.tick());
    assert!(s.pending_dirty && !s.dirty);
    assert!(s.poll_render(done()));
    assert!(s.dirty && !s.pending_dirty);
    assert!(s.tick());
}

#[test]
fn a_lost_render_is_told() {
    let mut s = loaded();
    s.tick();
    assert!(!s.poll_render(RenderEvent::Vanished));
    assert_eq!(s.status, "Render error: worker thread vanished");
    assert!(!s.rendering);
    assert!(!s.poll_render(done()));
}

#[test]
fn exports_begin_run_and_end() {
    let mut s = loaded();
    assert_eq!(s.export_dialog(&Err("none".to_string())), None);
    assert_eq!(s.status, "Export: none");
    assert_eq!(s.export_dialog(&Ok(())), Some("cat_gold_spektra_f64.png".to_string()));
    assert!(!s.cancel_export());
    s.export_started();
    assert_eq!(s.status, "Exporting at f64 (CPU)…");
    assert!(s.poll_export(ExportEvent::Pending { seconds: 4 }));
    assert_eq!(s.status, "Exporting at f64 (CPU)… (4s)");
    assert!(s.cancel_export());
    assert_eq!(s.status, "Cancelling export…");
    assert!(s.poll_export(ExportEvent::Pending { seconds: 5 }));
    assert_eq!(s.status, "Cancelling export… (5s)");
    assert!(!s.poll_export(ExportEvent::Failed { complaint: "it was cancelled".to_string() }));
    assert_eq!(s.status, "Export cancelled.");
    s.export_started();
    s.poll_export(ExportEvent::Failed { complaint: "no space".to_string() });
    assert_eq!(s.status, "Export error: no space");
    s.export_started();
    s.poll_export(ExportEvent::Vanished);
    assert_eq!(s.status, "Export error: worker thread vanished");
    s.export_started();
    s.poll_export(ExportEvent::Done { file: "o.png".to_string(), seconds: "1.5".to_string() });
    assert_eq!(s.status, "Exported (f64 CPU) o.png in 1.5 s");
    assert!(!s.close());
    s.export_started();
    assert!(s.close() && s.exporting.is_none());
    let mut p = RuntimeParams::default();
    set_export_params(&mut p);
    assert!(p.settings.use_enlarger_lut && p.settings.use_scanner_lut);
}

#[test]
fn a_film_brings_its_paper() {
    let mut s = session();
    s.choose_film("gold", Some("endura"));
    assert!(!s.dirty && s.print_name == "crystal");
    s.choose_film("portra", Some("endura"));
    assert!(s.dirty && s.film_name == "portra" && s.print_name == "endura");
    s.choose_film("ektar", Some("unknown"));
    assert_eq!(s.print_name, "endura");
    s.dirty = false;
    s.choose_paper("endura");
    assert!(!s.dirty);
    s.choose_paper("crystal");
    assert!(s.dirty && s.print_name == "crystal");
}

#[test]
fn the_panel_shows_every_control_once() {
    let all: Vec<Control> = sections().into_iter().flat_map(|s| s.controls()).collect();
    assert_eq!(all.len(), 37);
    for (i, c) in all.iter().enumerate() {
        assert!(!all[i + 1..].contains(c));
    }
    assert_eq!(Section::DirCouplers.title(), "DIR couplers");
    assert!(Section::Grain.is_open() && !Section::Glare.is_open());
    assert_eq!(Control::ParticleArea.label(), "Particle area (µm²)");
    assert_eq!(
        Control::Bounces.widget(),
        Widget::Slide {
            low: Value::Count(1),
            high: Value::Count(5),
            step: None,
            logarithmic: false
        }
    );
    assert_eq!(Control::HalationActive.widget(), Widget::Tick);
}

#[test]
fn controls_read_what_was_set() {
    let mut p = RuntimeParams::default();
    let before: Vec<Value> = all_controls().iter().map(|c| c.read(&p)).collect();
    let v = Value::Short(Single { bits: 0x4000_0000 });
    assert!(Control::UnsharpAmount.write(&mut p, v));
    for (c, old) in all_controls().iter().zip(before) {
        if *c == Control::UnsharpAmount {
            assert_eq!(c.read(&p), v);
        } else {
            assert_eq!(c.read(&p), old);
        }
    }
    assert!(!Control::UnsharpAmount.write(&mut p, Value::Wide(Double { bits: 0 })));
    assert_eq!(Control::UnsharpAmount.read(&p), v);
    p.scanner.white_correction = false;
    assert!(!Control::WhiteLevel.is_visible(&p));
    assert!(Control::WhiteCorrection.write(&mut p, Value::Flag(true)));
    assert!(Control::WhiteLevel.is_visible(&p));
}

fn all_controls() -> Vec<Control> {
    sections().into_iter().flat_map(|s| s.controls()).collect()
}
