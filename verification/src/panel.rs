//! The panel of controls: what it shows, and the parameters behind it.

use vstd::prelude::*;

use crate::bits::{Double, Single};
use crate::params::{CameraParams, DirCouplersParams, EnlargerParams, FilmRenderingParams};
use crate::params::{GlareParams, GrainParams, HalationParams, IoParams, PrintRenderingParams};
use crate::params::{RuntimeParams, ScannerParams};

verus! {

/// A group of controls.
#[derive(Clone, Copy, Debug, PartialEq, Eq, Structural)]
pub enum Section {
    Exposure,
    Halation,
    DirCouplers,
    Grain,
    Glare,
    Scanner,
    Enlarger,
    Output,
}

/// A control of the panel.
#[derive(Clone, Copy, Debug, PartialEq, Eq, Structural)]
pub enum Control {
    AutoExposure,
    ExposureCompensation,
    FilmFormat,
    CameraBlur,
    HalationActive,
    HalationAmount,
    HalationScale,
    ScatterAmount,
    ScatterScale,
    Bounces,
    BounceDecay,
    Renormalize,
    CouplersActive,
    CouplersAmount,
    DiffusionSize,
    DiffusionTail,
    TailWeight,
    GrainActive,
    ParticleArea,
    GrainBlur,
    SubLayers,
    GlareActive,
    GlarePercent,
    GlareRoughness,
    GlareBlur,
    ScannerBlur,
    UnsharpSigma,
    UnsharpAmount,
    WhiteCorrection,
    WhiteLevel,
    BlackCorrection,
    BlackLevel,
    PrintExposure,
    MagentaShift,
    YellowShift,
    ScanFilm,
    OutputEncoding,
}

/// The value of a control.
#[derive(Clone, Copy, Debug, PartialEq, Eq, Structural)]
pub enum Value {
    Flag(bool),
    Short(Single),
    Wide(Double),
    Count(u32),
}

/// How a control is drawn: a box to tick, or a slider between two values.
#[derive(Clone, Copy, Debug, PartialEq, Eq, Structural)]
pub enum Widget {
    Tick,
    Slide { low: Value, high: Value, step: Option<Double>, logarithmic: bool },
}

// ── What the panel shows ─────────────────────────────────────────────────

/// The sections from top to bottom.
pub open spec fn all_sections() -> Seq<Section> {
    seq![
        Section::Exposure,
        Section::Halation,
        Section::DirCouplers,
        Section::Grain,
        Section::Glare,
        Section::Scanner,
        Section::Enlarger,
        Section::Output,
    ]
}

/// The sections from top to bottom.
pub fn sections() -> (r: Vec<Section>)
    ensures
        r@ == all_sections(),
{
    let r = vec![
        Section::Exposure,
        Section::Halation,
        Section::DirCouplers,
        Section::Grain,
        Section::Glare,
        Section::Scanner,
        Section::Enlarger,
        Section::Output,
    ];
    assert(r@ =~= all_sections());
    r
}

impl Section {
    pub open spec fn title_text(self) -> Seq<char> {
        match self {
            Section::Exposure => "Exposure"@,
            Section::Halation => "Halation"@,
            Section::DirCouplers => "DIR couplers"@,
            Section::Grain => "Grain"@,
            Section::Glare => "Glare"@,
            Section::Scanner => "Scanner"@,
            Section::Enlarger => "Enlarger"@,
            Section::Output => "Output"@,
        }
    }

    /// The heading of the section.
    pub fn title(self) -> (r: &'static str)
        ensures
            r@ == self.title_text(),
    {
        match self {
            Section::Exposure => "Exposure",
            Section::Halation => "Halation",
            Section::DirCouplers => "DIR couplers",
            Section::Grain => "Grain",
            Section::Glare => "Glare",
            Section::Scanner => "Scanner",
            Section::Enlarger => "Enlarger",
            Section::Output => "Output",
        }
    }

    pub open spec fn starts_open(self) -> bool {
        match self {
            Section::Exposure => true,
            Section::Halation => true,
            Section::DirCouplers => true,
            Section::Grain => true,
            Section::Glare => false,
            Section::Scanner => false,
            Section::Enlarger => false,
            Section::Output => false,
        }
    }

    /// The section is unfolded at the start.
    pub fn is_open(self) -> (r: bool)
        ensures
            r == self.starts_open(),
    {
        match self {
            Section::Exposure => true,
            Section::Halation => true,
            Section::DirCouplers => true,
            Section::Grain => true,
            Section::Glare => false,
            Section::Scanner => false,
            Section::Enlarger => false,
            Section::Output => false,
        }
    }

    pub open spec fn holds(self) -> Seq<Control> {
        match self {
            Section::Exposure => seq![
                Control::AutoExposure,
                Control::ExposureCompensation,
                Control::FilmFormat,
                Control::CameraBlur,
            ],
            Section::Halation => seq![
                Control::HalationActive,
                Control::HalationAmount,
                Control::HalationScale,
                Control::ScatterAmount,
                Control::ScatterScale,
                Control::Bounces,
                Control::BounceDecay,
                Control::Renormalize,
            ],
            Section::DirCouplers => seq![
                Control::CouplersActive,
                Control::CouplersAmount,
                Control::DiffusionSize,
                Control::DiffusionTail,
                Control::TailWeight,
            ],
            Section::Grain => seq![
                Control::GrainActive,
                Control::ParticleArea,
                Control::GrainBlur,
                Control::SubLayers,
            ],
            Section::Glare => seq![
                Control::GlareActive,
                Control::GlarePercent,
                Control::GlareRoughness,
                Control::GlareBlur,
            ],
            Section::Scanner => seq![
                Control::ScannerBlur,
                Control::UnsharpSigma,
                Control::UnsharpAmount,
                Control::WhiteCorrection,
                Control::WhiteLevel,
                Control::BlackCorrection,
                Control::BlackLevel,
            ],
            Section::Enlarger => seq![
                Control::PrintExposure,
                Control::MagentaShift,
                Control::YellowShift,
            ],
            Section::Output => seq![
                Control::ScanFilm,
                Control::OutputEncoding,
            ],
        }
    }

    /// The controls of the section from top to bottom.
    pub fn controls(self) -> (r: Vec<Control>)
        ensures
            r@ == self.holds(),
    {
        let r = match self {
            Section::Exposure => vec![
                Control::AutoExposure,
                Control::ExposureCompensation,
                Control::FilmFormat,
                Control::CameraBlur,
            ],
            Section::Halation => vec![
                Control::HalationActive,
                Control::HalationAmount,
                Control::HalationScale,
                Control::ScatterAmount,
                Control::ScatterScale,
                Control::Bounces,
                Control::BounceDecay,
                Control::Renormalize,
            ],
            Section::DirCouplers => vec![
                Control::CouplersActive,
                Control::CouplersAmount,
                Control::DiffusionSize,
                Control::DiffusionTail,
                Control::TailWeight,
            ],
            Section::Grain => vec![
                Control::GrainActive,
                Control::ParticleArea,
                Control::GrainBlur,
                Control::SubLayers,
            ],
            Section::Glare => vec![
                Control::GlareActive,
                Control::GlarePercent,
                Control::GlareRoughness,
                Control::GlareBlur,
            ],
            Section::Scanner => vec![
                Control::ScannerBlur,
                Control::UnsharpSigma,
                Control::UnsharpAmount,
                Control::WhiteCorrection,
                Control::WhiteLevel,
                Control::BlackCorrection,
                Control::BlackLevel,
            ],
            Section::Enlarger => vec![
                Control::PrintExposure,
                Control::MagentaShift,
                Control::YellowShift,
            ],
            Section::Output => vec![
                Control::ScanFilm,
                Control::OutputEncoding,
            ],
        };
        assert(r@ =~= self.holds());
        r
    }
}

impl Control {
    pub open spec fn section(self) -> Section {
        match self {
            Control::AutoExposure
            | Control::ExposureCompensation
            | Control::FilmFormat
            | Control::CameraBlur => Section::Exposure,
            Control::HalationActive
            | Control::HalationAmount
            | Control::HalationScale
            | Control::ScatterAmount
            | Control::ScatterScale
            | Control::Bounces
            | Control::BounceDecay
            | Control::Renormalize => Section::Halation,
            Control::CouplersActive
            | Control::CouplersAmount
            | Control::DiffusionSize
            | Control::DiffusionTail
            | Control::TailWeight => Section::DirCouplers,
            Control::GrainActive
            | Control::ParticleArea
            | Control::GrainBlur
            | Control::SubLayers => Section::Grain,
            Control::GlareActive
            | Control::GlarePercent
            | Control::GlareRoughness
            | Control::GlareBlur => Section::Glare,
            Control::ScannerBlur
            | Control::UnsharpSigma
            | Control::UnsharpAmount
            | Control::WhiteCorrection
            | Control::WhiteLevel
            | Control::BlackCorrection
            | Control::BlackLevel => Section::Scanner,
            Control::PrintExposure
            | Control::MagentaShift
            | Control::YellowShift => Section::Enlarger,
            Control::ScanFilm
            | Control::OutputEncoding => Section::Output,
        }
    }

    pub open spec fn label_text(self) -> Seq<char> {
        match self {
            Control::AutoExposure => "Auto exposure"@,
            Control::ExposureCompensation => "EV compensation"@,
            Control::FilmFormat => "Film format (mm)"@,
            Control::CameraBlur => "Lens blur (µm)"@,
            Control::HalationActive => "Active"@,
            Control::HalationAmount => "Halation amount"@,
            Control::HalationScale => "Halation scale"@,
            Control::ScatterAmount => "Scatter amount"@,
            Control::ScatterScale => "Scatter scale"@,
            Control::Bounces => "Bounces"@,
            Control::BounceDecay => "Bounce decay"@,
            Control::Renormalize => "Renormalize"@,
            Control::CouplersActive => "Active"@,
            Control::CouplersAmount => "Amount"@,
            Control::DiffusionSize => "Diffusion size (µm)"@,
            Control::DiffusionTail => "Diffusion tail (µm)"@,
            Control::TailWeight => "Tail weight"@,
            Control::GrainActive => "Active"@,
            Control::ParticleArea => "Particle area (µm²)"@,
            Control::GrainBlur => "Post-blur σ"@,
            Control::SubLayers => "Sub-layers"@,
            Control::GlareActive => "Active"@,
            Control::GlarePercent => "Percent"@,
            Control::GlareRoughness => "Roughness"@,
            Control::GlareBlur => "Blur σ (px)"@,
            Control::ScannerBlur => "Lens blur σ (px)"@,
            Control::UnsharpSigma => "Unsharp σ (px)"@,
            Control::UnsharpAmount => "Unsharp amount"@,
            Control::WhiteCorrection => "White correction"@,
            Control::WhiteLevel => "White level"@,
            Control::BlackCorrection => "Black correction"@,
            Control::BlackLevel => "Black level"@,
            Control::PrintExposure => "Print exposure"@,
            Control::MagentaShift => "Magenta filter shift"@,
            Control::YellowShift => "Yellow filter shift"@,
            Control::ScanFilm => "Scan film (skip printing)"@,
            Control::OutputEncoding => "Output sRGB encoded"@,
        }
    }

    /// The label of the control.
    pub fn label(self) -> (r: &'static str)
        ensures
            r@ == self.label_text(),
    {
        match self {
            Control::AutoExposure => "Auto exposure",
            Control::ExposureCompensation => "EV compensation",
            Control::FilmFormat => "Film format (mm)",
            Control::CameraBlur => "Lens blur (µm)",
            Control::HalationActive => "Active",
            Control::HalationAmount => "Halation amount",
            Control::HalationScale => "Halation scale",
            Control::ScatterAmount => "Scatter amount",
            Control::ScatterScale => "Scatter scale",
            Control::Bounces => "Bounces",
            Control::BounceDecay => "Bounce decay",
            Control::Renormalize => "Renormalize",
            Control::CouplersActive => "Active",
            Control::CouplersAmount => "Amount",
            Control::DiffusionSize => "Diffusion size (µm)",
            Control::DiffusionTail => "Diffusion tail (µm)",
            Control::TailWeight => "Tail weight",
            Control::GrainActive => "Active",
            Control::ParticleArea => "Particle area (µm²)",
            Control::GrainBlur => "Post-blur σ",
            Control::SubLayers => "Sub-layers",
            Control::GlareActive => "Active",
            Control::GlarePercent => "Percent",
            Control::GlareRoughness => "Roughness",
            Control::GlareBlur => "Blur σ (px)",
            Control::ScannerBlur => "Lens blur σ (px)",
            Control::UnsharpSigma => "Unsharp σ (px)",
            Control::UnsharpAmount => "Unsharp amount",
            Control::WhiteCorrection => "White correction",
            Control::WhiteLevel => "White level",
            Control::BlackCorrection => "Black correction",
            Control::BlackLevel => "Black level",
            Control::PrintExposure => "Print exposure",
            Control::MagentaShift => "Magenta filter shift",
            Control::YellowShift => "Yellow filter shift",
            Control::ScanFilm => "Scan film (skip printing)",
            Control::OutputEncoding => "Output sRGB encoded",
        }
    }

    pub open spec fn drawn_as(self) -> Widget {
        match self {
            Control::AutoExposure => Widget::Tick,
            // -5.0 to 5.0
            Control::ExposureCompensation => Widget::Slide {
                low: Value::Short(Single { bits: 0xc0a0_0000 }),
                high: Value::Short(Single { bits: 0x40a0_0000 }),
                step: Some(Double { bits: 0x3fb9_9999_9999_999a }),
                logarithmic: false,
            },
            // 4.0 to 120.0
            Control::FilmFormat => Widget::Slide {
                low: Value::Short(Single { bits: 0x4080_0000 }),
                high: Value::Short(Single { bits: 0x42f0_0000 }),
                step: None,
                logarithmic: true,
            },
            // 0.0 to 100.0
            Control::CameraBlur => Widget::Slide {
                low: Value::Short(Single { bits: 0 }),
                high: Value::Short(Single { bits: 0x42c8_0000 }),
                step: None,
                logarithmic: false,
            },
            Control::HalationActive => Widget::Tick,
            // 0.0 to 3.0
            Control::HalationAmount => Widget::Slide {
                low: Value::Wide(Double { bits: 0 }),
                high: Value::Wide(Double { bits: 0x4008_0000_0000_0000 }),
                step: None,
                logarithmic: false,
            },
            // 0.1 to 5.0
            Control::HalationScale => Widget::Slide {
                low: Value::Wide(Double { bits: 0x3fb9_9999_9999_999a }),
                high: Value::Wide(Double { bits: 0x4014_0000_0000_0000 }),
                step: None,
                logarithmic: false,
            },
            // 0.0 to 3.0
            Control::ScatterAmount => Widget::Slide {
                low: Value::Wide(Double { bits: 0 }),
                high: Value::Wide(Double { bits: 0x4008_0000_0000_0000 }),
                step: None,
                logarithmic: false,
            },
            // 0.1 to 5.0
            Control::ScatterScale => Widget::Slide {
                low: Value::Wide(Double { bits: 0x3fb9_9999_9999_999a }),
                high: Value::Wide(Double { bits: 0x4014_0000_0000_0000 }),
                step: None,
                logarithmic: false,
            },
            // 1 to 5
            Control::Bounces => Widget::Slide {
                low: Value::Count(1),
                high: Value::Count(5),
                step: None,
                logarithmic: false,
            },
            // 0.0 to 1.0
            Control::BounceDecay => Widget::Slide {
                low: Value::Wide(Double { bits: 0 }),
                high: Value::Wide(Double { bits: 0x3ff0_0000_0000_0000 }),
                step: None,
                logarithmic: false,
            },
            Control::Renormalize => Widget::Tick,
            Control::CouplersActive => Widget::Tick,
            // 0.0 to 2.0
            Control::CouplersAmount => Widget::Slide {
                low: Value::Wide(Double { bits: 0 }),
                high: Value::Wide(Double { bits: 0x4000_0000_0000_0000 }),
                step: None,
                logarithmic: false,
            },
            // 0.0 to 100.0
            Control::DiffusionSize => Widget::Slide {
                low: Value::Wide(Double { bits: 0 }),
                high: Value::Wide(Double { bits: 0x4059_0000_0000_0000 }),
                step: None,
                logarithmic: false,
            },
            // 0.0 to 400.0
            Control::DiffusionTail => Widget::Slide {
                low: Value::Wide(Double { bits: 0 }),
                high: Value::Wide(Double { bits: 0x4079_0000_0000_0000 }),
                step: None,
                logarithmic: false,
            },
            // 0.0 to 1.0
            Control::TailWeight => Widget::Slide {
                low: Value::Wide(Double { bits: 0 }),
                high: Value::Wide(Double { bits: 0x3ff0_0000_0000_0000 }),
                step: None,
                logarithmic: false,
            },
            Control::GrainActive => Widget::Tick,
            // 0.05 to 1.0
            Control::ParticleArea => Widget::Slide {
                low: Value::Wide(Double { bits: 0x3fa9_9999_9999_999a }),
                high: Value::Wide(Double { bits: 0x3ff0_0000_0000_0000 }),
                step: None,
                logarithmic: false,
            },
            // 0.0 to 3.0
            Control::GrainBlur => Widget::Slide {
                low: Value::Short(Single { bits: 0 }),
                high: Value::Short(Single { bits: 0x4040_0000 }),
                step: None,
                logarithmic: false,
            },
            // 1 to 4
            Control::SubLayers => Widget::Slide {
                low: Value::Count(1),
                high: Value::Count(4),
                step: None,
                logarithmic: false,
            },
            Control::GlareActive => Widget::Tick,
            // 0.0 to 0.2
            Control::GlarePercent => Widget::Slide {
                low: Value::Short(Single { bits: 0 }),
                high: Value::Short(Single { bits: 0x3e4c_cccd }),
                step: None,
                logarithmic: false,
            },
            // 0.0 to 2.0
            Control::GlareRoughness => Widget::Slide {
                low: Value::Short(Single { bits: 0 }),
                high: Value::Short(Single { bits: 0x4000_0000 }),
                step: None,
                logarithmic: false,
            },
            // 0.0 to 5.0
            Control::GlareBlur => Widget::Slide {
                low: Value::Short(Single { bits: 0 }),
                high: Value::Short(Single { bits: 0x40a0_0000 }),
                step: None,
                logarithmic: false,
            },
            // 0.0 to 5.0
            Control::ScannerBlur => Widget::Slide {
                low: Value::Short(Single { bits: 0 }),
                high: Value::Short(Single { bits: 0x40a0_0000 }),
                step: None,
                logarithmic: false,
            },
            // 0.0 to 3.0
            Control::UnsharpSigma => Widget::Slide {
                low: Value::Short(Single { bits: 0 }),
                high: Value::Short(Single { bits: 0x4040_0000 }),
                step: None,
                logarithmic: false,
            },
            // 0.0 to 2.0
            Control::UnsharpAmount => Widget::Slide {
                low: Value::Short(Single { bits: 0 }),
                high: Value::Short(Single { bits: 0x4000_0000 }),
                step: None,
                logarithmic: false,
            },
            Control::WhiteCorrection => Widget::Tick,
            // 0.5 to 1.0
            Control::WhiteLevel => Widget::Slide {
                low: Value::Short(Single { bits: 0x3f00_0000 }),
                high: Value::Short(Single { bits: 0x3f80_0000 }),
                step: None,
                logarithmic: false,
            },
            Control::BlackCorrection => Widget::Tick,
            // 0.0 to 0.5
            Control::BlackLevel => Widget::Slide {
                low: Value::Short(Single { bits: 0 }),
                high: Value::Short(Single { bits: 0x3f00_0000 }),
                step: None,
                logarithmic: false,
            },
            // 0.1 to 5.0
            Control::PrintExposure => Widget::Slide {
                low: Value::Short(Single { bits: 0x3dcc_cccd }),
                high: Value::Short(Single { bits: 0x40a0_0000 }),
                step: None,
                logarithmic: true,
            },
            // -50.0 to 50.0
            Control::MagentaShift => Widget::Slide {
                low: Value::Short(Single { bits: 0xc248_0000 }),
                high: Value::Short(Single { bits: 0x4248_0000 }),
                step: None,
                logarithmic: false,
            },
            // -50.0 to 50.0
            Control::YellowShift => Widget::Slide {
                low: Value::Short(Single { bits: 0xc248_0000 }),
                high: Value::Short(Single { bits: 0x4248_0000 }),
                step: None,
                logarithmic: false,
            },
            Control::ScanFilm => Widget::Tick,
            Control::OutputEncoding => Widget::Tick,
        }
    }

    /// How the control is drawn.
    pub fn widget(self) -> (r: Widget)
        ensures
            r == self.drawn_as(),
    {
        match self {
            Control::AutoExposure => Widget::Tick,
            Control::ExposureCompensation => Widget::Slide {
                low: Value::Short(Single { bits: 0xc0a0_0000 }),
                high: Value::Short(Single { bits: 0x40a0_0000 }),
                step: Some(Double { bits: 0x3fb9_9999_9999_999a }),
                logarithmic: false,
            },
            Control::FilmFormat => Widget::Slide {
                low: Value::Short(Single { bits: 0x4080_0000 }),
                high: Value::Short(Single { bits: 0x42f0_0000 }),
                step: None,
                logarithmic: true,
            },
            Control::CameraBlur => Widget::Slide {
                low: Value::Short(Single { bits: 0 }),
                high: Value::Short(Single { bits: 0x42c8_0000 }),
                step: None,
                logarithmic: false,
            },
            Control::HalationActive => Widget::Tick,
            Control::HalationAmount => Widget::Slide {
                low: Value::Wide(Double { bits: 0 }),
                high: Value::Wide(Double { bits: 0x4008_0000_0000_0000 }),
                step: None,
                logarithmic: false,
            },
            Control::HalationScale => Widget::Slide {
                low: Value::Wide(Double { bits: 0x3fb9_9999_9999_999a }),
                high: Value::Wide(Double { bits: 0x4014_0000_0000_0000 }),
                step: None,
                logarithmic: false,
            },
            Control::ScatterAmount => Widget::Slide {
                low: Value::Wide(Double { bits: 0 }),
                high: Value::Wide(Double { bits: 0x4008_0000_0000_0000 }),
                step: None,
                logarithmic: false,
            },
            Control::ScatterScale => Widget::Slide {
                low: Value::Wide(Double { bits: 0x3fb9_9999_9999_999a }),
                high: Value::Wide(Double { bits: 0x4014_0000_0000_0000 }),
                step: None,
                logarithmic: false,
            },
            Control::Bounces => Widget::Slide {
                low: Value::Count(1),
                high: Value::Count(5),
                step: None,
                logarithmic: false,
            },
            Control::BounceDecay => Widget::Slide {
                low: Value::Wide(Double { bits: 0 }),
                high: Value::Wide(Double { bits: 0x3ff0_0000_0000_0000 }),
                step: None,
                logarithmic: false,
            },
            Control::Renormalize => Widget::Tick,
            Control::CouplersActive => Widget::Tick,
            Control::CouplersAmount => Widget::Slide {
                low: Value::Wide(Double { bits: 0 }),
                high: Value::Wide(Double { bits: 0x4000_0000_0000_0000 }),
                step: None,
                logarithmic: false,
            },
            Control::DiffusionSize => Widget::Slide {
                low: Value::Wide(Double { bits: 0 }),
                high: Value::Wide(Double { bits: 0x4059_0000_0000_0000 }),
                step: None,
                logarithmic: false,
            },
            Control::DiffusionTail => Widget::Slide {
                low: Value::Wide(Double { bits: 0 }),
                high: Value::Wide(Double { bits: 0x4079_0000_0000_0000 }),
                step: None,
                logarithmic: false,
            },
            Control::TailWeight => Widget::Slide {
                low: Value::Wide(Double { bits: 0 }),
                high: Value::Wide(Double { bits: 0x3ff0_0000_0000_0000 }),
                step: None,
                logarithmic: false,
            },
            Control::GrainActive => Widget::Tick,
            Control::ParticleArea => Widget::Slide {
                low: Value::Wide(Double { bits: 0x3fa9_9999_9999_999a }),
                high: Value::Wide(Double { bits: 0x3ff0_0000_0000_0000 }),
                step: None,
                logarithmic: false,
            },
            Control::GrainBlur => Widget::Slide {
                low: Value::Short(Single { bits: 0 }),
                high: Value::Short(Single { bits: 0x4040_0000 }),
                step: None,
                logarithmic: false,
            },
            Control::SubLayers => Widget::Slide {
                low: Value::Count(1),
                high: Value::Count(4),
                step: None,
                logarithmic: false,
            },
            Control::GlareActive => Widget::Tick,
            Control::GlarePercent => Widget::Slide {
                low: Value::Short(Single { bits: 0 }),
                high: Value::Short(Single { bits: 0x3e4c_cccd }),
                step: None,
                logarithmic: false,
            },
            Control::GlareRoughness => Widget::Slide {
                low: Value::Short(Single { bits: 0 }),
                high: Value::Short(Single { bits: 0x4000_0000 }),
                step: None,
                logarithmic: false,
            },
            Control::GlareBlur => Widget::Slide {
                low: Value::Short(Single { bits: 0 }),
                high: Value::Short(Single { bits: 0x40a0_0000 }),
                step: None,
                logarithmic: false,
            },
            Control::ScannerBlur => Widget::Slide {
                low: Value::Short(Single { bits: 0 }),
                high: Value::Short(Single { bits: 0x40a0_0000 }),
                step: None,
                logarithmic: false,
            },
            Control::UnsharpSigma => Widget::Slide {
                low: Value::Short(Single { bits: 0 }),
                high: Value::Short(Single { bits: 0x4040_0000 }),
                step: None,
                logarithmic: false,
            },
            Control::UnsharpAmount => Widget::Slide {
                low: Value::Short(Single { bits: 0 }),
                high: Value::Short(Single { bits: 0x4000_0000 }),
                step: None,
                logarithmic: false,
            },
            Control::WhiteCorrection => Widget::Tick,
            Control::WhiteLevel => Widget::Slide {
                low: Value::Short(Single { bits: 0x3f00_0000 }),
                high: Value::Short(Single { bits: 0x3f80_0000 }),
                step: None,
                logarithmic: false,
            },
            Control::BlackCorrection => Widget::Tick,
            Control::BlackLevel => Widget::Slide {
                low: Value::Short(Single { bits: 0 }),
                high: Value::Short(Single { bits: 0x3f00_0000 }),
                step: None,
                logarithmic: false,
            },
            Control::PrintExposure => Widget::Slide {
                low: Value::Short(Single { bits: 0x3dcc_cccd }),
                high: Value::Short(Single { bits: 0x40a0_0000 }),
                step: None,
                logarithmic: true,
            },
            Control::MagentaShift => Widget::Slide {
                low: Value::Short(Single { bits: 0xc248_0000 }),
                high: Value::Short(Single { bits: 0x4248_0000 }),
                step: None,
                logarithmic: false,
            },
            Control::YellowShift => Widget::Slide {
                low: Value::Short(Single { bits: 0xc248_0000 }),
                high: Value::Short(Single { bits: 0x4248_0000 }),
                step: None,
                logarithmic: false,
            },
            Control::ScanFilm => Widget::Tick,
            Control::OutputEncoding => Widget::Tick,
        }
    }

    /// A level is there only with its correction.
    pub open spec fn visible(self, p: RuntimeParams) -> bool {
        match self {
            Control::WhiteLevel => p.scanner.white_correction,
            Control::BlackLevel => p.scanner.black_correction,
            _ => true,
        }
    }

    /// The control is shown.
    pub fn is_visible(self, p: &RuntimeParams) -> (r: bool)
        ensures
            r == self.visible(*p),
    {
        match self {
            Control::WhiteLevel => p.scanner.white_correction,
            Control::BlackLevel => p.scanner.black_correction,
            _ => true,
        }
    }

    fn section_of(self) -> (r: Section)
        ensures
            r == self.section(),
    {
        match self {
            Control::AutoExposure
            | Control::ExposureCompensation
            | Control::FilmFormat
            | Control::CameraBlur => Section::Exposure,
            Control::HalationActive
            | Control::HalationAmount
            | Control::HalationScale
            | Control::ScatterAmount
            | Control::ScatterScale
            | Control::Bounces
            | Control::BounceDecay
            | Control::Renormalize => Section::Halation,
            Control::CouplersActive
            | Control::CouplersAmount
            | Control::DiffusionSize
            | Control::DiffusionTail
            | Control::TailWeight => Section::DirCouplers,
            Control::GrainActive
            | Control::ParticleArea
            | Control::GrainBlur
            | Control::SubLayers => Section::Grain,
            Control::GlareActive
            | Control::GlarePercent
            | Control::GlareRoughness
            | Control::GlareBlur => Section::Glare,
            Control::ScannerBlur
            | Control::UnsharpSigma
            | Control::UnsharpAmount
            | Control::WhiteCorrection
            | Control::WhiteLevel
            | Control::BlackCorrection
            | Control::BlackLevel => Section::Scanner,
            Control::PrintExposure
            | Control::MagentaShift
            | Control::YellowShift => Section::Enlarger,
            Control::ScanFilm
            | Control::OutputEncoding => Section::Output,
        }
    }

    /// A value of the control's kind.
    pub open spec fn takes(self, v: Value) -> bool {
        match self {
            Control::AutoExposure
            | Control::HalationActive
            | Control::Renormalize
            | Control::CouplersActive
            | Control::GrainActive
            | Control::GlareActive
            | Control::WhiteCorrection
            | Control::BlackCorrection
            | Control::ScanFilm
            | Control::OutputEncoding => v is Flag,
            Control::ExposureCompensation
            | Control::FilmFormat
            | Control::CameraBlur
            | Control::GrainBlur
            | Control::GlarePercent
            | Control::GlareRoughness
            | Control::GlareBlur
            | Control::ScannerBlur
            | Control::UnsharpSigma
            | Control::UnsharpAmount
            | Control::WhiteLevel
            | Control::BlackLevel
            | Control::PrintExposure
            | Control::MagentaShift
            | Control::YellowShift => v is Short,
            Control::HalationAmount
            | Control::HalationScale
            | Control::ScatterAmount
            | Control::ScatterScale
            | Control::BounceDecay
            | Control::CouplersAmount
            | Control::DiffusionSize
            | Control::DiffusionTail
            | Control::TailWeight
            | Control::ParticleArea => v is Wide,
            Control::Bounces
            | Control::SubLayers => v is Count,
        }
    }

    /// The value that the parameters have for the control.
    pub open spec fn value_in(self, p: RuntimeParams) -> Value {
        match self.section() {
            Section::Exposure => self.in_camera(p.camera),
            Section::Halation => self.in_halation(p.film_render.halation),
            Section::DirCouplers => self.in_couplers(p.film_render.dir_couplers),
            Section::Grain => self.in_grain(p.film_render.grain),
            Section::Glare => self.in_glare(p.print_render.glare),
            Section::Scanner => self.in_scanner(p.scanner),
            Section::Enlarger => self.in_enlarger(p.enlarger),
            Section::Output => self.in_io(p.io),
        }
    }

    /// The parameters with a value for the control.
    pub open spec fn with_value(self, p: RuntimeParams, v: Value) -> RuntimeParams {
        match self.section() {
            Section::Exposure => RuntimeParams { camera: self.camera_with(p.camera, v), ..p },
            Section::Halation => RuntimeParams {
                film_render: FilmRenderingParams { halation: self.halation_with(p.film_render.halation, v), ..p.film_render },
                ..p
            },
            Section::DirCouplers => RuntimeParams {
                film_render: FilmRenderingParams { dir_couplers: self.couplers_with(p.film_render.dir_couplers, v), ..p.film_render },
                ..p
            },
            Section::Grain => RuntimeParams {
                film_render: FilmRenderingParams { grain: self.grain_with(p.film_render.grain, v), ..p.film_render },
                ..p
            },
            Section::Glare => RuntimeParams {
                print_render: PrintRenderingParams { glare: self.glare_with(p.print_render.glare, v), ..p.print_render },
                ..p
            },
            Section::Scanner => RuntimeParams { scanner: self.scanner_with(p.scanner, v), ..p },
            Section::Enlarger => RuntimeParams { enlarger: self.enlarger_with(p.enlarger, v), ..p },
            Section::Output => RuntimeParams { io: self.io_with(p.io, v), ..p },
        }
    }

    pub open spec fn in_camera(self, g: CameraParams) -> Value {
        match self {
            Control::AutoExposure => Value::Flag(g.auto_exposure),
            Control::ExposureCompensation => Value::Short(g.exposure_compensation_ev),
            Control::FilmFormat => Value::Short(g.film_format_mm),
            Control::CameraBlur => Value::Short(g.lens_blur_um),
            _ => Value::Flag(false),
        }
    }

    pub open spec fn camera_with(self, g: CameraParams, v: Value) -> CameraParams {
        match self {
            Control::AutoExposure => CameraParams { auto_exposure: v->Flag_0, ..g },
            Control::ExposureCompensation => CameraParams { exposure_compensation_ev: v->Short_0, ..g },
            Control::FilmFormat => CameraParams { film_format_mm: v->Short_0, ..g },
            Control::CameraBlur => CameraParams { lens_blur_um: v->Short_0, ..g },
            _ => g,
        }
    }

    pub open spec fn in_halation(self, g: HalationParams) -> Value {
        match self {
            Control::HalationActive => Value::Flag(g.active),
            Control::HalationAmount => Value::Wide(g.halation_amount),
            Control::HalationScale => Value::Wide(g.halation_spatial_scale),
            Control::ScatterAmount => Value::Wide(g.scatter_amount),
            Control::ScatterScale => Value::Wide(g.scatter_spatial_scale),
            Control::Bounces => Value::Count(g.halation_n_bounces),
            Control::BounceDecay => Value::Wide(g.halation_bounce_decay),
            Control::Renormalize => Value::Flag(g.halation_renormalize),
            _ => Value::Flag(false),
        }
    }

    pub open spec fn halation_with(self, g: HalationParams, v: Value) -> HalationParams {
        match self {
            Control::HalationActive => HalationParams { active: v->Flag_0, ..g },
            Control::HalationAmount => HalationParams { halation_amount: v->Wide_0, ..g },
            Control::HalationScale => HalationParams { halation_spatial_scale: v->Wide_0, ..g },
            Control::ScatterAmount => HalationParams { scatter_amount: v->Wide_0, ..g },
            Control::ScatterScale => HalationParams { scatter_spatial_scale: v->Wide_0, ..g },
            Control::Bounces => HalationParams { halation_n_bounces: v->Count_0, ..g },
            Control::BounceDecay => HalationParams { halation_bounce_decay: v->Wide_0, ..g },
            Control::Renormalize => HalationParams { halation_renormalize: v->Flag_0, ..g },
            _ => g,
        }
    }

    pub open spec fn in_couplers(self, g: DirCouplersParams) -> Value {
        match self {
            Control::CouplersActive => Value::Flag(g.active),
            Control::CouplersAmount => Value::Wide(g.amount),
            Control::DiffusionSize => Value::Wide(g.diffusion_size_um),
            Control::DiffusionTail => Value::Wide(g.diffusion_tail_um),
            Control::TailWeight => Value::Wide(g.diffusion_tail_weight),
            _ => Value::Flag(false),
        }
    }

    pub open spec fn couplers_with(self, g: DirCouplersParams, v: Value) -> DirCouplersParams {
        match self {
            Control::CouplersActive => DirCouplersParams { active: v->Flag_0, ..g },
            Control::CouplersAmount => DirCouplersParams { amount: v->Wide_0, ..g },
            Control::DiffusionSize => DirCouplersParams { diffusion_size_um: v->Wide_0, ..g },
            Control::DiffusionTail => DirCouplersParams { diffusion_tail_um: v->Wide_0, ..g },
            Control::TailWeight => DirCouplersParams { diffusion_tail_weight: v->Wide_0, ..g },
            _ => g,
        }
    }

    pub open spec fn in_grain(self, g: GrainParams) -> Value {
        match self {
            Control::GrainActive => Value::Flag(g.active),
            Control::ParticleArea => Value::Wide(g.agx_particle_area_um2),
            Control::GrainBlur => Value::Short(g.blur),
            Control::SubLayers => Value::Count(g.n_sub_layers),
            _ => Value::Flag(false),
        }
    }

    pub open spec fn grain_with(self, g: GrainParams, v: Value) -> GrainParams {
        match self {
            Control::GrainActive => GrainParams { active: v->Flag_0, ..g },
            Control::ParticleArea => GrainParams { agx_particle_area_um2: v->Wide_0, ..g },
            Control::GrainBlur => GrainParams { blur: v->Short_0, ..g },
            Control::SubLayers => GrainParams { n_sub_layers: v->Count_0, ..g },
            _ => g,
        }
    }

    pub open spec fn in_glare(self, g: GlareParams) -> Value {
        match self {
            Control::GlareActive => Value::Flag(g.active),
            Control::GlarePercent => Value::Short(g.percent),
            Control::GlareRoughness => Value::Short(g.roughness),
            Control::GlareBlur => Value::Short(g.blur),
            _ => Value::Flag(false),
        }
    }

    pub open spec fn glare_with(self, g: GlareParams, v: Value) -> GlareParams {
        match self {
            Control::GlareActive => GlareParams { active: v->Flag_0, ..g },
            Control::GlarePercent => GlareParams { percent: v->Short_0, ..g },
            Control::GlareRoughness => GlareParams { roughness: v->Short_0, ..g },
            Control::GlareBlur => GlareParams { blur: v->Short_0, ..g },
            _ => g,
        }
    }

    pub open spec fn in_scanner(self, g: ScannerParams) -> Value {
        match self {
            Control::ScannerBlur => Value::Short(g.lens_blur),
            Control::UnsharpSigma => Value::Short(g.unsharp_mask@[0]),
            Control::UnsharpAmount => Value::Short(g.unsharp_mask@[1]),
            Control::WhiteCorrection => Value::Flag(g.white_correction),
            Control::WhiteLevel => Value::Short(g.white_level),
            Control::BlackCorrection => Value::Flag(g.black_correction),
            Control::BlackLevel => Value::Short(g.black_level),
            _ => Value::Flag(false),
        }
    }

    pub open spec fn scanner_with(self, g: ScannerParams, v: Value) -> ScannerParams {
        match self {
            Control::ScannerBlur => ScannerParams { lens_blur: v->Short_0, ..g },
            Control::UnsharpSigma => ScannerParams { unsharp_mask: [v->Short_0, g.unsharp_mask@[1]], ..g },
            Control::UnsharpAmount => ScannerParams { unsharp_mask: [g.unsharp_mask@[0], v->Short_0], ..g },
            Control::WhiteCorrection => ScannerParams { white_correction: v->Flag_0, ..g },
            Control::WhiteLevel => ScannerParams { white_level: v->Short_0, ..g },
            Control::BlackCorrection => ScannerParams { black_correction: v->Flag_0, ..g },
            Control::BlackLevel => ScannerParams { black_level: v->Short_0, ..g },
            _ => g,
        }
    }

    pub open spec fn in_enlarger(self, g: EnlargerParams) -> Value {
        match self {
            Control::PrintExposure => Value::Short(g.print_exposure),
            Control::MagentaShift => Value::Short(g.m_filter_shift),
            Control::YellowShift => Value::Short(g.y_filter_shift),
            _ => Value::Flag(false),
        }
    }

    pub open spec fn enlarger_with(self, g: EnlargerParams, v: Value) -> EnlargerParams {
        match self {
            Control::PrintExposure => EnlargerParams { print_exposure: v->Short_0, ..g },
            Control::MagentaShift => EnlargerParams { m_filter_shift: v->Short_0, ..g },
            Control::YellowShift => EnlargerParams { y_filter_shift: v->Short_0, ..g },
            _ => g,
        }
    }

    pub open spec fn in_io(self, g: IoParams) -> Value {
        match self {
            Control::ScanFilm => Value::Flag(g.scan_film),
            Control::OutputEncoding => Value::Flag(g.output_cctf_encoding),
            _ => Value::Flag(false),
        }
    }

    pub open spec fn io_with(self, g: IoParams, v: Value) -> IoParams {
        match self {
            Control::ScanFilm => IoParams { scan_film: v->Flag_0, ..g },
            Control::OutputEncoding => IoParams { output_cctf_encoding: v->Flag_0, ..g },
            _ => g,
        }
    }

    /// The value that the parameters have for the control.
    pub fn read(self, p: &RuntimeParams) -> (r: Value)
        ensures
            r == self.value_in(*p),
    {
        match self {
            Control::AutoExposure => Value::Flag(p.camera.auto_exposure),
            Control::ExposureCompensation => Value::Short(p.camera.exposure_compensation_ev),
            Control::FilmFormat => Value::Short(p.camera.film_format_mm),
            Control::CameraBlur => Value::Short(p.camera.lens_blur_um),
            Control::HalationActive => Value::Flag(p.film_render.halation.active),
            Control::HalationAmount => Value::Wide(p.film_render.halation.halation_amount),
            Control::HalationScale => Value::Wide(p.film_render.halation.halation_spatial_scale),
            Control::ScatterAmount => Value::Wide(p.film_render.halation.scatter_amount),
            Control::ScatterScale => Value::Wide(p.film_render.halation.scatter_spatial_scale),
            Control::Bounces => Value::Count(p.film_render.halation.halation_n_bounces),
            Control::BounceDecay => Value::Wide(p.film_render.halation.halation_bounce_decay),
            Control::Renormalize => Value::Flag(p.film_render.halation.halation_renormalize),
            Control::CouplersActive => Value::Flag(p.film_render.dir_couplers.active),
            Control::CouplersAmount => Value::Wide(p.film_render.dir_couplers.amount),
            Control::DiffusionSize => Value::Wide(p.film_render.dir_couplers.diffusion_size_um),
            Control::DiffusionTail => Value::Wide(p.film_render.dir_couplers.diffusion_tail_um),
            Control::TailWeight => Value::Wide(p.film_render.dir_couplers.diffusion_tail_weight),
            Control::GrainActive => Value::Flag(p.film_render.grain.active),
            Control::ParticleArea => Value::Wide(p.film_render.grain.agx_particle_area_um2),
            Control::GrainBlur => Value::Short(p.film_render.grain.blur),
            Control::SubLayers => Value::Count(p.film_render.grain.n_sub_layers),
            Control::GlareActive => Value::Flag(p.print_render.glare.active),
            Control::GlarePercent => Value::Short(p.print_render.glare.percent),
            Control::GlareRoughness => Value::Short(p.print_render.glare.roughness),
            Control::GlareBlur => Value::Short(p.print_render.glare.blur),
            Control::ScannerBlur => Value::Short(p.scanner.lens_blur),
            Control::UnsharpSigma => Value::Short(p.scanner.unsharp_mask[0]),
            Control::UnsharpAmount => Value::Short(p.scanner.unsharp_mask[1]),
            Control::WhiteCorrection => Value::Flag(p.scanner.white_correction),
            Control::WhiteLevel => Value::Short(p.scanner.white_level),
            Control::BlackCorrection => Value::Flag(p.scanner.black_correction),
            Control::BlackLevel => Value::Short(p.scanner.black_level),
            Control::PrintExposure => Value::Short(p.enlarger.print_exposure),
            Control::MagentaShift => Value::Short(p.enlarger.m_filter_shift),
            Control::YellowShift => Value::Short(p.enlarger.y_filter_shift),
            Control::ScanFilm => Value::Flag(p.io.scan_film),
            Control::OutputEncoding => Value::Flag(p.io.output_cctf_encoding),
        }
    }

    /// Sets the parameter of the control; a value of another kind changes
    /// nothing. Says whether it was set.
    pub fn write(self, p: &mut RuntimeParams, v: Value) -> (r: bool)
        ensures
            r == self.takes(v),
            if r {
                *final(p) == self.with_value(*old(p), v)
            } else {
                *final(p) == *old(p)
            },
    {
        match self.section_of() {
            Section::Exposure => self.write_camera(&mut p.camera, v),
            Section::Halation => self.write_halation(&mut p.film_render.halation, v),
            Section::DirCouplers => self.write_couplers(&mut p.film_render.dir_couplers, v),
            Section::Grain => self.write_grain(&mut p.film_render.grain, v),
            Section::Glare => self.write_glare(&mut p.print_render.glare, v),
            Section::Scanner => self.write_scanner(&mut p.scanner, v),
            Section::Enlarger => self.write_enlarger(&mut p.enlarger, v),
            Section::Output => self.write_io(&mut p.io, v),
        }
    }

    fn write_camera(self, g: &mut CameraParams, v: Value) -> (r: bool)
        requires
            self.section() == Section::Exposure,
        ensures
            r == self.takes(v),
            if r {
                *final(g) == self.camera_with(*old(g), v)
            } else {
                *final(g) == *old(g)
            },
    {
        match (self, v) {
            (Control::AutoExposure, Value::Flag(x)) => {
                g.auto_exposure = x;
                true
            },
            (Control::ExposureCompensation, Value::Short(x)) => {
                g.exposure_compensation_ev = x;
                true
            },
            (Control::FilmFormat, Value::Short(x)) => {
                g.film_format_mm = x;
                true
            },
            (Control::CameraBlur, Value::Short(x)) => {
                g.lens_blur_um = x;
                true
            },
            _ => false,
        }
    }

    fn write_halation(self, g: &mut HalationParams, v: Value) -> (r: bool)
        requires
            self.section() == Section::Halation,
        ensures
            r == self.takes(v),
            if r {
                *final(g) == self.halation_with(*old(g), v)
            } else {
                *final(g) == *old(g)
            },
    {
        match (self, v) {
            (Control::HalationActive, Value::Flag(x)) => {
                g.active = x;
                true
            },
            (Control::HalationAmount, Value::Wide(x)) => {
                g.halation_amount = x;
                true
            },
            (Control::HalationScale, Value::Wide(x)) => {
                g.halation_spatial_scale = x;
                true
            },
            (Control::ScatterAmount, Value::Wide(x)) => {
                g.scatter_amount = x;
                true
            },
            (Control::ScatterScale, Value::Wide(x)) => {
                g.scatter_spatial_scale = x;
                true
            },
            (Control::Bounces, Value::Count(x)) => {
                g.halation_n_bounces = x;
                true
            },
            (Control::BounceDecay, Value::Wide(x)) => {
                g.halation_bounce_decay = x;
                true
            },
            (Control::Renormalize, Value::Flag(x)) => {
                g.halation_renormalize = x;
                true
            },
            _ => false,
        }
    }

    fn write_couplers(self, g: &mut DirCouplersParams, v: Value) -> (r: bool)
        requires
            self.section() == Section::DirCouplers,
        ensures
            r == self.takes(v),
            if r {
                *final(g) == self.couplers_with(*old(g), v)
            } else {
                *final(g) == *old(g)
            },
    {
        match (self, v) {
            (Control::CouplersActive, Value::Flag(x)) => {
                g.active = x;
                true
            },
            (Control::CouplersAmount, Value::Wide(x)) => {
                g.amount = x;
                true
            },
            (Control::DiffusionSize, Value::Wide(x)) => {
                g.diffusion_size_um = x;
                true
            },
            (Control::DiffusionTail, Value::Wide(x)) => {
                g.diffusion_tail_um = x;
                true
            },
            (Control::TailWeight, Value::Wide(x)) => {
                g.diffusion_tail_weight = x;
                true
            },
            _ => false,
        }
    }

    fn write_grain(self, g: &mut GrainParams, v: Value) -> (r: bool)
        requires
            self.section() == Section::Grain,
        ensures
            r == self.takes(v),
            if r {
                *final(g) == self.grain_with(*old(g), v)
            } else {
                *final(g) == *old(g)
            },
    {
        match (self, v) {
            (Control::GrainActive, Value::Flag(x)) => {
                g.active = x;
                true
            },
            (Control::ParticleArea, Value::Wide(x)) => {
                g.agx_particle_area_um2 = x;
                true
            },
            (Control::GrainBlur, Value::Short(x)) => {
                g.blur = x;
                true
            },
            (Control::SubLayers, Value::Count(x)) => {
                g.n_sub_layers = x;
                true
            },
            _ => false,
        }
    }

    fn write_glare(self, g: &mut GlareParams, v: Value) -> (r: bool)
        requires
            self.section() == Section::Glare,
        ensures
            r == self.takes(v),
            if r {
                *final(g) == self.glare_with(*old(g), v)
            } else {
                *final(g) == *old(g)
            },
    {
        match (self, v) {
            (Control::GlareActive, Value::Flag(x)) => {
                g.active = x;
                true
            },
            (Control::GlarePercent, Value::Short(x)) => {
                g.percent = x;
                true
            },
            (Control::GlareRoughness, Value::Short(x)) => {
                g.roughness = x;
                true
            },
            (Control::GlareBlur, Value::Short(x)) => {
                g.blur = x;
                true
            },
            _ => false,
        }
    }

    fn write_scanner(self, g: &mut ScannerParams, v: Value) -> (r: bool)
        requires
            self.section() == Section::Scanner,
        ensures
            r == self.takes(v),
            if r {
                *final(g) == self.scanner_with(*old(g), v)
            } else {
                *final(g) == *old(g)
            },
    {
        match (self, v) {
            (Control::ScannerBlur, Value::Short(x)) => {
                g.lens_blur = x;
                true
            },
            (Control::UnsharpSigma, Value::Short(x)) => {
                g.unsharp_mask = [x, g.unsharp_mask[1]];
                true
            },
            (Control::UnsharpAmount, Value::Short(x)) => {
                g.unsharp_mask = [g.unsharp_mask[0], x];
                true
            },
            (Control::WhiteCorrection, Value::Flag(x)) => {
                g.white_correction = x;
                true
            },
            (Control::WhiteLevel, Value::Short(x)) => {
                g.white_level = x;
                true
            },
            (Control::BlackCorrection, Value::Flag(x)) => {
                g.black_correction = x;
                true
            },
            (Control::BlackLevel, Value::Short(x)) => {
                g.black_level = x;
                true
            },
            _ => false,
        }
    }

    fn write_enlarger(self, g: &mut EnlargerParams, v: Value) -> (r: bool)
        requires
            self.section() == Section::Enlarger,
        ensures
            r == self.takes(v),
            if r {
                *final(g) == self.enlarger_with(*old(g), v)
            } else {
                *final(g) == *old(g)
            },
    {
        match (self, v) {
            (Control::PrintExposure, Value::Short(x)) => {
                g.print_exposure = x;
                true
            },
            (Control::MagentaShift, Value::Short(x)) => {
                g.m_filter_shift = x;
                true
            },
            (Control::YellowShift, Value::Short(x)) => {
                g.y_filter_shift = x;
                true
            },
            _ => false,
        }
    }

    fn write_io(self, g: &mut IoParams, v: Value) -> (r: bool)
        requires
            self.section() == Section::Output,
        ensures
            r == self.takes(v),
            if r {
                *final(g) == self.io_with(*old(g), v)
            } else {
                *final(g) == *old(g)
            },
    {
        match (self, v) {
            (Control::ScanFilm, Value::Flag(x)) => {
                g.scan_film = x;
                true
            },
            (Control::OutputEncoding, Value::Flag(x)) => {
                g.output_cctf_encoding = x;
                true
            },
            _ => false,
        }
    }
}

// ── Laws ─────────────────────────────────────────────────────────────────

/// What a control was set to is what it then reads.
pub proof fn lemma_set_is_read(c: Control, p: RuntimeParams, v: Value)
    requires
        c.takes(v),
    ensures
        c.value_in(c.with_value(p, v)) == v,
{
}

/// Setting one control leaves every other as it was.
pub proof fn lemma_others_stay(c: Control, d: Control, p: RuntimeParams, v: Value)
    requires
        c.takes(v),
        c != d,
    ensures
        d.value_in(c.with_value(p, v)) == d.value_in(p),
{
    if c.section() == d.section() {
        match c.section() {
            Section::Exposure => lemma_camera_stays(c, d, p.camera, v),
            Section::Halation => lemma_halation_stays(c, d, p.film_render.halation, v),
            Section::DirCouplers => lemma_couplers_stays(c, d, p.film_render.dir_couplers, v),
            Section::Grain => lemma_grain_stays(c, d, p.film_render.grain, v),
            Section::Glare => lemma_glare_stays(c, d, p.print_render.glare, v),
            Section::Scanner => lemma_scanner_stays(c, d, p.scanner, v),
            Section::Enlarger => lemma_enlarger_stays(c, d, p.enlarger, v),
            Section::Output => lemma_io_stays(c, d, p.io, v),
        }
    }
}

proof fn lemma_camera_stays(c: Control, d: Control, g: CameraParams, v: Value)
    requires
        c.takes(v),
        c != d,
        c.section() == Section::Exposure,
        d.section() == Section::Exposure,
    ensures
        d.in_camera(c.camera_with(g, v)) == d.in_camera(g),
{
}

proof fn lemma_halation_stays(c: Control, d: Control, g: HalationParams, v: Value)
    requires
        c.takes(v),
        c != d,
        c.section() == Section::Halation,
        d.section() == Section::Halation,
    ensures
        d.in_halation(c.halation_with(g, v)) == d.in_halation(g),
{
}

proof fn lemma_couplers_stays(c: Control, d: Control, g: DirCouplersParams, v: Value)
    requires
        c.takes(v),
        c != d,
        c.section() == Section::DirCouplers,
        d.section() == Section::DirCouplers,
    ensures
        d.in_couplers(c.couplers_with(g, v)) == d.in_couplers(g),
{
}

proof fn lemma_grain_stays(c: Control, d: Control, g: GrainParams, v: Value)
    requires
        c.takes(v),
        c != d,
        c.section() == Section::Grain,
        d.section() == Section::Grain,
    ensures
        d.in_grain(c.grain_with(g, v)) == d.in_grain(g),
{
}

proof fn lemma_glare_stays(c: Control, d: Control, g: GlareParams, v: Value)
    requires
        c.takes(v),
        c != d,
        c.section() == Section::Glare,
        d.section() == Section::Glare,
    ensures
        d.in_glare(c.glare_with(g, v)) == d.in_glare(g),
{
}

proof fn lemma_scanner_stays(c: Control, d: Control, g: ScannerParams, v: Value)
    requires
        c.takes(v),
        c != d,
        c.section() == Section::Scanner,
        d.section() == Section::Scanner,
    ensures
        d.in_scanner(c.scanner_with(g, v)) == d.in_scanner(g),
{
}

proof fn lemma_enlarger_stays(c: Control, d: Control, g: EnlargerParams, v: Value)
    requires
        c.takes(v),
        c != d,
        c.section() == Section::Enlarger,
        d.section() == Section::Enlarger,
    ensures
        d.in_enlarger(c.enlarger_with(g, v)) == d.in_enlarger(g),
{
}

proof fn lemma_io_stays(c: Control, d: Control, g: IoParams, v: Value)
    requires
        c.takes(v),
        c != d,
        c.section() == Section::Output,
        d.section() == Section::Output,
    ensures
        d.in_io(c.io_with(g, v)) == d.in_io(g),
{
}

/// What a control reads can be set, and changes nothing.
pub proof fn lemma_read_can_be_set(c: Control, p: RuntimeParams)
    ensures
        c.takes(c.value_in(p)),
        c.with_value(p, c.value_in(p)) == p,
{
    match c.section() {
        Section::Exposure => lemma_camera_read(c, p.camera),
        Section::Halation => lemma_halation_read(c, p.film_render.halation),
        Section::DirCouplers => lemma_couplers_read(c, p.film_render.dir_couplers),
        Section::Grain => lemma_grain_read(c, p.film_render.grain),
        Section::Glare => lemma_glare_read(c, p.print_render.glare),
        Section::Scanner => lemma_scanner_read(c, p.scanner),
        Section::Enlarger => lemma_enlarger_read(c, p.enlarger),
        Section::Output => lemma_io_read(c, p.io),
    }
}

proof fn lemma_camera_read(c: Control, g: CameraParams)
    requires
        c.section() == Section::Exposure,
    ensures
        c.takes(c.in_camera(g)),
        c.camera_with(g, c.in_camera(g)) == g,
{
}

proof fn lemma_halation_read(c: Control, g: HalationParams)
    requires
        c.section() == Section::Halation,
    ensures
        c.takes(c.in_halation(g)),
        c.halation_with(g, c.in_halation(g)) == g,
{
}

proof fn lemma_couplers_read(c: Control, g: DirCouplersParams)
    requires
        c.section() == Section::DirCouplers,
    ensures
        c.takes(c.in_couplers(g)),
        c.couplers_with(g, c.in_couplers(g)) == g,
{
}

proof fn lemma_grain_read(c: Control, g: GrainParams)
    requires
        c.section() == Section::Grain,
    ensures
        c.takes(c.in_grain(g)),
        c.grain_with(g, c.in_grain(g)) == g,
{
}

proof fn lemma_glare_read(c: Control, g: GlareParams)
    requires
        c.section() == Section::Glare,
    ensures
        c.takes(c.in_glare(g)),
        c.glare_with(g, c.in_glare(g)) == g,
{
}

proof fn lemma_scanner_read(c: Control, g: ScannerParams)
    requires
        c.section() == Section::Scanner,
    ensures
        c.takes(c.in_scanner(g)),
        c.scanner_with(g, c.in_scanner(g)) == g,
{
    let u = g.unsharp_mask;
    assert([u@[0], u@[1]]@ =~= u@);
    assert([u@[0], u@[1]] == u);
}

proof fn lemma_enlarger_read(c: Control, g: EnlargerParams)
    requires
        c.section() == Section::Enlarger,
    ensures
        c.takes(c.in_enlarger(g)),
        c.enlarger_with(g, c.in_enlarger(g)) == g,
{
}

proof fn lemma_io_read(c: Control, g: IoParams)
    requires
        c.section() == Section::Output,
    ensures
        c.takes(c.in_io(g)),
        c.io_with(g, c.in_io(g)) == g,
{
}

/// Every control stands in its own section, and in no other.
pub proof fn lemma_in_one_section(c: Control, s: Section)
    ensures
        s.holds().contains(c) == (s == c.section()),
{
    let held = c.section().holds();
    if c == Control::AutoExposure {
        assert(held[0] == c);
    }
    if c == Control::ExposureCompensation {
        assert(held[1] == c);
    }
    if c == Control::FilmFormat {
        assert(held[2] == c);
    }
    if c == Control::CameraBlur {
        assert(held[3] == c);
    }
    if c == Control::HalationActive {
        assert(held[0] == c);
    }
    if c == Control::HalationAmount {
        assert(held[1] == c);
    }
    if c == Control::HalationScale {
        assert(held[2] == c);
    }
    if c == Control::ScatterAmount {
        assert(held[3] == c);
    }
    if c == Control::ScatterScale {
        assert(held[4] == c);
    }
    if c == Control::Bounces {
        assert(held[5] == c);
    }
    if c == Control::BounceDecay {
        assert(held[6] == c);
    }
    if c == Control::Renormalize {
        assert(held[7] == c);
    }
    if c == Control::CouplersActive {
        assert(held[0] == c);
    }
    if c == Control::CouplersAmount {
        assert(held[1] == c);
    }
    if c == Control::DiffusionSize {
        assert(held[2] == c);
    }
    if c == Control::DiffusionTail {
        assert(held[3] == c);
    }
    if c == Control::TailWeight {
        assert(held[4] == c);
    }
    if c == Control::GrainActive {
        assert(held[0] == c);
    }
    if c == Control::ParticleArea {
        assert(held[1] == c);
    }
    if c == Control::GrainBlur {
        assert(held[2] == c);
    }
    if c == Control::SubLayers {
        assert(held[3] == c);
    }
    if c == Control::GlareActive {
        assert(held[0] == c);
    }
    if c == Control::GlarePercent {
        assert(held[1] == c);
    }
    if c == Control::GlareRoughness {
        assert(held[2] == c);
    }
    if c == Control::GlareBlur {
        assert(held[3] == c);
    }
    if c == Control::ScannerBlur {
        assert(held[0] == c);
    }
    if c == Control::UnsharpSigma {
        assert(held[1] == c);
    }
    if c == Control::UnsharpAmount {
        assert(held[2] == c);
    }
    if c == Control::WhiteCorrection {
        assert(held[3] == c);
    }
    if c == Control::WhiteLevel {
        assert(held[4] == c);
    }
    if c == Control::BlackCorrection {
        assert(held[5] == c);
    }
    if c == Control::BlackLevel {
        assert(held[6] == c);
    }
    if c == Control::PrintExposure {
        assert(held[0] == c);
    }
    if c == Control::MagentaShift {
        assert(held[1] == c);
    }
    if c == Control::YellowShift {
        assert(held[2] == c);
    }
    if c == Control::ScanFilm {
        assert(held[0] == c);
    }
    if c == Control::OutputEncoding {
        assert(held[1] == c);
    }
}

} // verus!
