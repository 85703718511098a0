//! A session of the interactive preview: the state of its window, and what
//! every event makes of it.

use vstd::prelude::*;

use crate::bits::Single;
use crate::catalog::{default_paper, find_stock, offers, pick_paper, text_in, ProfileEntry};
use crate::export::{is_cancelled, tells_cancelled};
use crate::files::{set_for_input, set_input_of};
use crate::image::ImageBuf;
use crate::panel::{Control, Value};
use crate::params::{RuntimeParams, SettingsParams};
use crate::preview::{fit, fitting, View2d};
use crate::text::{decimal, decimal_string, join, join3, lowercase, lowercase_of, same};

verus! {

/// The file that an image came from.
pub struct Source {
    /// Its name without extension, where that is text.
    pub stem: Option<String>,
}

/// The state of the window.
pub struct Session<T> {
    pub films: Vec<ProfileEntry>,
    pub papers: Vec<ProfileEntry>,
    pub film_name: String,
    pub print_name: String,
    pub params: RuntimeParams,
    pub source: Option<Source>,
    pub image: Option<ImageBuf<T>>,
    /// The last render.
    pub output: Option<ImageBuf<T>>,
    pub render_ms: Single,
    pub build_ms: Single,
    pub status: String,
    /// Something changed since the last render began.
    pub dirty: bool,
    /// Something changed while a render was running.
    pub pending_dirty: bool,
    pub view: View2d,
    pub rendering: bool,
    /// A running export, and whether it is to stop.
    pub exporting: Option<bool>,
}

/// What comes of a running render.
pub enum RenderEvent<T> {
    Pending,
    Vanished,
    Done { output: ImageBuf<T>, build_ms: Single, render_ms: Single },
}

/// What comes of a running export.
pub enum ExportEvent {
    /// It runs, since so many seconds.
    Pending { seconds: u64 },
    Vanished,
    /// It wrote a file; the seconds are in decimal notation.
    Done { file: String, seconds: String },
    Failed { complaint: String },
}

// ── The start ────────────────────────────────────────────────────────────

/// The state of the window at the start.
pub open spec fn is_start<T>(
    films: Seq<ProfileEntry>,
    papers: Seq<ProfileEntry>,
    film: Seq<char>,
    target: Option<Seq<char>>,
    s: Session<T>,
) -> bool {
    &&& s.films@ == films
    &&& s.papers@ == papers
    &&& s.film_name@ == film
    &&& s.print_name@ == default_paper(papers, target)
    &&& s.params.is_default()
    &&& s.source is None
    &&& s.image is None
    &&& s.output is None
    &&& s.render_ms.bits == 0
    &&& s.build_ms.bits == 0
    &&& s.status@ == "Load an image to start."@
    &&& !s.dirty
    &&& !s.pending_dirty
    &&& s.view == fitting()
    &&& !s.rendering
    &&& s.exporting is None
}

/// An image gave way to another: what changed, for an extension in lower case.
pub open spec fn is_loaded<T>(
    before: Session<T>,
    image: ImageBuf<T>,
    source: Source,
    ext: Seq<char>,
    status: Seq<char>,
    after: Session<T>,
) -> bool {
    &&& after == (Session {
        params: after.params,
        image: Some(image),
        source: Some(source),
        status: after.status,
        dirty: true,
        ..before
    })
    &&& after.params == (RuntimeParams { io: after.params.io, ..before.params })
    &&& set_for_input(before.params.io, ext, after.params.io)
    &&& after.status@ == status
}

/// The status after an image was loaded.
pub open spec fn loaded_text(width: u32, height: u32, megapixels: Seq<char>, ms: Seq<char>) -> Seq<
    char,
> {
    "Loaded "@ + decimal(width as nat) + " × "@ + decimal(height as nat) + " ("@ + megapixels
        + " MP) in "@ + ms + " ms"@
}

fn loaded_status(width: u32, height: u32, megapixels: &str, ms: &str) -> (r: String)
    ensures
        r@ == loaded_text(width, height, megapixels@, ms@),
{
    let mut r = join3("Loaded ", decimal_string(width as u64).as_str(), " × ");
    r.append(decimal_string(height as u64).as_str());
    r.append(" (");
    r.append(megapixels);
    r.append(" MP) in ");
    r.append(ms);
    r.append(" ms");
    r
}

// ── Renders ──────────────────────────────────────────────────────────────

/// A render was asked for: `started` says whether one begins.
pub open spec fn is_dispatched<T>(before: Session<T>, started: bool, after: Session<T>) -> bool {
    &&& started == (!before.rendering && before.image is Some)
    &&& after == if before.rendering {
        Session { pending_dirty: true, ..before }
    } else if before.image is Some {
        Session { rendering: true, ..before }
    } else {
        before
    }
}

/// One turn of the window began: `started` says whether a render begins.
pub open spec fn is_ticked<T>(before: Session<T>, started: bool, after: Session<T>) -> bool {
    if before.dirty && before.image is Some {
        exists|between: Session<T>| #[trigger]
            is_dispatched(before, started, between) && after == (Session {
                dirty: false,
                ..between
            })
    } else {
        !started && after == before
    }
}

/// A render was looked after: `shown` says whether there is a new output.
pub open spec fn is_render_polled<T>(
    before: Session<T>,
    event: RenderEvent<T>,
    shown: bool,
    after: Session<T>,
) -> bool {
    if !before.rendering {
        !shown && after == before
    } else {
        match event {
            RenderEvent::Pending => !shown && after == before,
            RenderEvent::Vanished => {
                &&& !shown
                &&& after == (Session { rendering: false, status: after.status, ..before })
                &&& after.status@ == "Render error: worker thread vanished"@
            },
            RenderEvent::Done { output, build_ms, render_ms } => {
                &&& shown
                &&& after == (Session {
                    rendering: false,
                    build_ms,
                    render_ms,
                    output: Some(output),
                    pending_dirty: false,
                    dirty: before.dirty || before.pending_dirty,
                    ..before
                })
            },
        }
    }
}

// ── Files ────────────────────────────────────────────────────────────────

/// The name of an image's file without extension.
pub open spec fn stem_text(source: Source) -> Seq<char> {
    match source.stem {
        Some(s) => s@,
        None => "spektrafilm"@,
    }
}

/// The name that is proposed for a saved preview.
pub open spec fn save_text(source: Option<Source>, film: Seq<char>) -> Seq<char> {
    match source {
        Some(s) => stem_text(s) + "_"@ + film + "_spektra.png"@,
        None => "spektrafilm.png"@,
    }
}

/// The name of a file in a status.
pub open spec fn file_text(file: Option<Seq<char>>) -> Seq<char> {
    match file {
        Some(f) => f,
        None => "(file)"@,
    }
}

// ── Exports ──────────────────────────────────────────────────────────────

/// The status while an export runs.
pub open spec fn running_text(stopping: bool, seconds: u64) -> Seq<char> {
    if stopping {
        "Cancelling export… ("@ + decimal(seconds as nat) + "s)"@
    } else {
        "Exporting at f64 (CPU)… ("@ + decimal(seconds as nat) + "s)"@
    }
}

/// The status after an export.
pub open spec fn ended_text(event: ExportEvent) -> Seq<char> {
    match event {
        ExportEvent::Pending { seconds } => running_text(false, seconds),
        ExportEvent::Vanished => "Export error: worker thread vanished"@,
        ExportEvent::Done { file, seconds } => "Exported (f64 CPU) "@ + file@ + " in "@ + seconds@
            + " s"@,
        ExportEvent::Failed { complaint } => if tells_cancelled(complaint@) {
            "Export cancelled."@
        } else {
            "Export error: "@ + complaint@
        },
    }
}

/// An export was looked after: `again` says whether to look again soon.
pub open spec fn is_export_polled<T>(
    before: Session<T>,
    event: ExportEvent,
    again: bool,
    after: Session<T>,
) -> bool {
    match before.exporting {
        None => !again && after == before,
        Some(stopping) => match event {
            ExportEvent::Pending { seconds } => {
                &&& again
                &&& after == (Session { status: after.status, ..before })
                &&& after.status@ == running_text(stopping, seconds)
            },
            _ => {
                &&& !again
                &&& after == (Session { exporting: None, status: after.status, ..before })
                &&& after.status@ == ended_text(event)
            },
        },
    }
}

impl<T> Session<T> {
    /// The state of the window at the start. `target` is the paper that the
    /// film was made for.
    pub fn new(
        films: Vec<ProfileEntry>,
        papers: Vec<ProfileEntry>,
        film_name: String,
        target: Option<&str>,
    ) -> (r: Session<T>)
        ensures
            is_start(films@, papers@, film_name@, text_in(target), r),
    {
        let print_name = pick_paper(&papers, target);
        Session {
            films,
            papers,
            film_name,
            print_name,
            params: RuntimeParams::default(),
            source: None,
            image: None,
            output: None,
            render_ms: Single { bits: 0 },
            build_ms: Single { bits: 0 },
            status: "Load an image to start.".to_owned(),
            dirty: false,
            pending_dirty: false,
            view: fit(),
            rendering: false,
            exporting: None,
        }
    }

    /// An image was read. Its size in megapixels and the milliseconds that it
    /// took are in decimal notation.
    pub fn load_image(
        &mut self,
        image: ImageBuf<T>,
        source: Source,
        ext: &str,
        megapixels: &str,
        ms: &str,
    )
        ensures
            is_loaded(
                *old(self),
                image,
                source,
                lowercase(ext@),
                loaded_text(image.width, image.height, megapixels@, ms@),
                *final(self),
            ),
    {
        let lower = lowercase_of(ext);
        self.load_image_of(image, source, lower.as_str(), megapixels, ms);
    }

    /// An image was read, from a file with an extension in lower case.
    pub fn load_image_of(
        &mut self,
        image: ImageBuf<T>,
        source: Source,
        ext: &str,
        megapixels: &str,
        ms: &str,
    )
        ensures
            is_loaded(
                *old(self),
                image,
                source,
                ext@,
                loaded_text(image.width, image.height, megapixels@, ms@),
                *final(self),
            ),
    {
        set_input_of(&mut self.params.io, ext);
        self.status = loaded_status(image.width, image.height, megapixels, ms);
        self.image = Some(image);
        self.source = Some(source);
        self.dirty = true;
    }

    /// An image could not be read.
    pub fn load_failed(&mut self, complaint: &str)
        ensures
            *final(self) == (Session { status: final(self).status, ..*old(self) }),
            final(self).status@ == "Load error: "@ + complaint@,
    {
        self.status = join("Load error: ", complaint);
    }

    /// Asks for a render. While one runs, the wish is kept.
    pub fn dispatch_render(&mut self) -> (started: bool)
        ensures
            is_dispatched(*old(self), started, *final(self)),
    {
        if self.rendering {
            self.pending_dirty = true;
            return false;
        }
        if self.image.is_none() {
            return false;
        }
        self.rendering = true;
        true
    }

    /// Begins a turn of the window: where something changed, asks for a
    /// render.
    pub fn tick(&mut self) -> (started: bool)
        ensures
            is_ticked(*old(self), started, *final(self)),
    {
        if self.dirty && self.image.is_some() {
            let started = self.dispatch_render();
            let ghost between = *self;
            self.dirty = false;
            assert(is_dispatched(*old(self), started, between));
            return started;
        }
        false
    }

    /// Looks after a running render.
    pub fn poll_render(&mut self, event: RenderEvent<T>) -> (shown: bool)
        ensures
            is_render_polled(*old(self), event, shown, *final(self)),
    {
        if !self.rendering {
            return false;
        }
        match event {
            RenderEvent::Pending => false,
            RenderEvent::Vanished => {
                self.rendering = false;
                self.status = "Render error: worker thread vanished".to_owned();
                false
            },
            RenderEvent::Done { output, build_ms, render_ms } => {
                self.rendering = false;
                self.build_ms = build_ms;
                self.render_ms = render_ms;
                self.output = Some(output);
                if self.pending_dirty {
                    self.pending_dirty = false;
                    self.dirty = true;
                }
                true
            },
        }
    }

    /// The name to propose for a saved preview; nothing where there is none
    /// to save.
    pub fn save_dialog(&mut self) -> (r: Option<String>)
        ensures
            match old(self).output {
                Some(_) => {
                    &&& *final(self) == *old(self)
                    &&& r matches Some(n) && n@ == save_text(
                        old(self).source,
                        old(self).film_name@,
                    )
                },
                None => {
                    &&& r is None
                    &&& *final(self) == (Session { status: final(self).status, ..*old(self) })
                    &&& final(self).status@ == "Nothing to save yet — load an image first."@
                },
            },
    {
        if self.output.is_none() {
            self.status = "Nothing to save yet — load an image first.".to_owned();
            return None;
        }
        match &self.source {
            Some(s) => {
                let mut name = stem_of(s);
                name.append("_");
                name.append(self.film_name.as_str());
                name.append("_spektra.png");
                Some(name)
            },
            None => Some("spektrafilm.png".to_owned()),
        }
    }

    /// A preview was saved; the milliseconds are in decimal notation.
    pub fn saved(&mut self, file: Option<&str>, ms: &str)
        ensures
            *final(self) == (Session { status: final(self).status, ..*old(self) }),
            final(self).status@ == "Saved "@ + file_text(text_in(file)) + " in "@ + ms@ + " ms"@,
    {
        let name = match file {
            Some(f) => f,
            None => "(file)",
        };
        let mut r = join3("Saved ", name, " in ");
        r.append(ms);
        r.append(" ms");
        self.status = r;
    }

    /// A preview could not be saved.
    pub fn save_failed(&mut self, complaint: &str)
        ensures
            *final(self) == (Session { status: final(self).status, ..*old(self) }),
            final(self).status@ == "Save error: "@ + complaint@,
    {
        self.status = join("Save error: ", complaint);
    }

    /// The name to propose for an export; nothing where no image is loaded,
    /// or the program that exports was not found.
    pub fn export_dialog(&mut self, program: &Result<(), String>) -> (r: Option<String>)
        ensures
            match (old(self).source, *program) {
                (Some(s), Ok(_)) => {
                    &&& *final(self) == *old(self)
                    &&& r matches Some(n) && n@ == stem_text(s) + "_"@ + old(self).film_name@
                        + "_spektra_f64.png"@
                },
                (Some(_), Err(m)) => {
                    &&& r is None
                    &&& *final(self) == (Session { status: final(self).status, ..*old(self) })
                    &&& final(self).status@ == "Export: "@ + m@
                },
                (None, _) => {
                    &&& r is None
                    &&& *final(self) == (Session { status: final(self).status, ..*old(self) })
                    &&& final(self).status@ == "Load an image before exporting."@
                },
            },
    {
        match &self.source {
            None => {
                self.status = "Load an image before exporting.".to_owned();
                None
            },
            Some(s) => match program {
                Err(m) => {
                    self.status = join("Export: ", m.as_str());
                    None
                },
                Ok(_) => {
                    let mut name = stem_of(s);
                    name.append("_");
                    name.append(self.film_name.as_str());
                    name.append("_spektra_f64.png");
                    Some(name)
                },
            },
        }
    }

    /// An export began.
    pub fn export_started(&mut self)
        ensures
            *final(self) == (Session {
                status: final(self).status,
                exporting: Some(false),
                ..*old(self)
            }),
            final(self).status@ == "Exporting at f64 (CPU)…"@,
    {
        self.status = "Exporting at f64 (CPU)…".to_owned();
        self.exporting = Some(false);
    }

    /// Asks a running export to stop. Says whether one runs.
    pub fn cancel_export(&mut self) -> (r: bool)
        ensures
            r == old(self).exporting is Some,
            match old(self).exporting {
                Some(false) => {
                    &&& *final(self) == (Session {
                        status: final(self).status,
                        exporting: Some(true),
                        ..*old(self)
                    })
                    &&& final(self).status@ == "Cancelling export…"@
                },
                _ => *final(self) == *old(self),
            },
    {
        match self.exporting {
            None => false,
            Some(stopping) => {
                if !stopping {
                    self.exporting = Some(true);
                    self.status = "Cancelling export…".to_owned();
                }
                true
            },
        }
    }

    /// Looks after a running export.
    pub fn poll_export(&mut self, event: ExportEvent) -> (again: bool)
        ensures
            is_export_polled(*old(self), event, again, *final(self)),
    {
        let stopping = match self.exporting {
            None => {
                return false;
            },
            Some(s) => s,
        };
        match event {
            ExportEvent::Pending { seconds } => {
                let head = if stopping {
                    "Cancelling export… ("
                } else {
                    "Exporting at f64 (CPU)… ("
                };
                self.status = join3(head, decimal_string(seconds).as_str(), "s)");
                true
            },
            ExportEvent::Vanished => {
                self.status = "Export error: worker thread vanished".to_owned();
                self.exporting = None;
                false
            },
            ExportEvent::Done { file, seconds } => {
                let mut r = join3("Exported (f64 CPU) ", file.as_str(), " in ");
                r.append(seconds.as_str());
                r.append(" s");
                self.status = r;
                self.exporting = None;
                false
            },
            ExportEvent::Failed { complaint } => {
                self.status = if is_cancelled(complaint.as_str()) {
                    "Export cancelled.".to_owned()
                } else {
                    join("Export error: ", complaint.as_str())
                };
                self.exporting = None;
                false
            },
        }
    }

    /// The window closes: a running export is to stop. Says whether one runs.
    pub fn close(&mut self) -> (r: bool)
        ensures
            r == old(self).exporting is Some,
            *final(self) == (Session { exporting: None, ..*old(self) }),
    {
        let running = self.exporting.is_some();
        self.exporting = None;
        running
    }

    /// Chooses a film, and with it the paper that it was made for where that
    /// is offered.
    pub fn choose_film(&mut self, stock: &str, target: Option<&str>)
        ensures
            if stock@ == old(self).film_name@ {
                *final(self) == *old(self)
            } else {
                &&& *final(self) == (Session {
                    film_name: final(self).film_name,
                    print_name: final(self).print_name,
                    dirty: true,
                    ..*old(self)
                })
                &&& final(self).film_name@ == stock@
                &&& match target {
                    Some(t) => if offers(old(self).papers@, t@) {
                        final(self).print_name@ == t@
                    } else {
                        final(self).print_name == old(self).print_name
                    },
                    None => final(self).print_name == old(self).print_name,
                }
            },
    {
        if same(stock, self.film_name.as_str()) {
            return;
        }
        self.film_name = stock.to_owned();
        if let Some(t) = target {
            if let Some(i) = find_stock(&self.papers, t) {
                assert(self.papers@[i as int].stock@ == t@);
                self.print_name = t.to_owned();
            }
        }
        self.dirty = true;
    }

    /// Chooses a paper.
    pub fn choose_paper(&mut self, stock: &str)
        ensures
            if stock@ == old(self).print_name@ {
                *final(self) == *old(self)
            } else {
                &&& *final(self) == (Session {
                    print_name: final(self).print_name,
                    dirty: true,
                    ..*old(self)
                })
                &&& final(self).print_name@ == stock@
            },
    {
        if same(stock, self.print_name.as_str()) {
            return;
        }
        self.print_name = stock.to_owned();
        self.dirty = true;
    }

    /// A control was set; a value of another kind changes nothing.
    pub fn change(&mut self, control: Control, value: Value)
        ensures
            *final(self) == if control.takes(value) {
                Session {
                    params: control.with_value(old(self).params, value),
                    dirty: true,
                    ..*old(self)
                }
            } else {
                *old(self)
            },
    {
        if control.write(&mut self.params, value) {
            self.dirty = true;
        }
    }
}

fn stem_of(source: &Source) -> (r: String)
    ensures
        r@ == stem_text(*source),
{
    match &source.stem {
        Some(s) => s.clone(),
        None => "spektrafilm".to_owned(),
    }
}

/// Parameters of an export: both tables are on, which no preview needs.
pub fn set_export_params(params: &mut RuntimeParams)
    ensures
        *final(params) == (RuntimeParams {
            settings: SettingsParams {
                use_enlarger_lut: true,
                use_scanner_lut: true,
                ..old(params).settings
            },
            ..*old(params)
        }),
{
    params.settings.use_enlarger_lut = true;
    params.settings.use_scanner_lut = true;
}

// ── Laws ─────────────────────────────────────────────────────────────────

/// A change while a render runs is not lost: once that render is done, the
/// next turn begins another.
pub proof fn lemma_change_is_rendered<T>(
    before: Session<T>,
    started: bool,
    asked: Session<T>,
    output: ImageBuf<T>,
    build_ms: Single,
    render_ms: Single,
    shown: bool,
    done: Session<T>,
    again: bool,
    after: Session<T>,
)
    requires
        before.rendering,
        before.dirty,
        before.image is Some,
        is_ticked(before, started, asked),
        is_render_polled(
            asked,
            (RenderEvent::Done { output, build_ms, render_ms }),
            shown,
            done,
        ),
        is_ticked(done, again, after),
    ensures
        !started,
        shown,
        again,
        after.rendering,
        !after.dirty,
        !after.pending_dirty,
{
}

/// One render runs at a time: none begins while one runs.
pub proof fn lemma_one_render<T>(before: Session<T>, started: bool, after: Session<T>)
    requires
        before.rendering,
        is_ticked(before, started, after),
    ensures
        !started,
        after.rendering,
{
}

/// Without a change no render begins, and nothing else happens.
pub proof fn lemma_idle<T>(before: Session<T>, started: bool, after: Session<T>)
    requires
        !before.dirty,
        is_ticked(before, started, after),
    ensures
        !started,
        after == before,
{
}

/// A cancelled export is reported as cancelled.
pub proof fn lemma_cancelled_is_told<T>(
    before: Session<T>,
    complaint: String,
    again: bool,
    after: Session<T>,
)
    requires
        before.exporting is Some,
        tells_cancelled(complaint@),
        is_export_polled(before, (ExportEvent::Failed { complaint }), again, after),
    ensures
        after.exporting is None,
        after.status@ == "Export cancelled."@,
{
}

} // verus!
