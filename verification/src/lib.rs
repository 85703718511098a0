//! Film simulation: a photograph is exposed onto a film stock, developed,
//! enlarged onto paper, developed again and scanned.
//!
//! Real numbers are held as the bit patterns of their binary encodings (see
//! [`bits`]). Comparing them is plain integer work. What rounds (a sum, a
//! logarithm) is asked of an [`arith::Arithmetic`], and a contract says by
//! which formula a number came about, operation by operation.

// Numbers, text and layout.
pub mod arith;
pub mod bits;
pub mod exact;
pub mod image;
pub mod index;
pub mod lossless;
pub mod rounding;
pub mod text;

// Tables and how they are read.
pub mod curve_laws;
pub mod interp;
pub mod lut;
pub mod npy;
pub mod pchip;
pub mod pchip3d;
pub mod reading_laws;
pub mod slopes;
pub mod tables;

// Random numbers.
pub mod binomial;
pub mod numpy_rng;
pub mod stats;

// Colour.
pub mod adaptation;
pub mod colorspace;
pub mod gamma;
pub mod hanatos;
pub mod illuminants;
pub mod spectral;
pub mod spectral_service;
pub mod white;

// Film and paper.
pub mod coupler_laws;
pub mod couplers;
pub mod density_curves;
pub mod diffusion;
pub mod emulsion;
pub mod finish_laws;
pub mod gaussian;
pub mod glare;
pub mod grain;
pub mod grain_laws;
pub mod neutral_filters;
pub mod params;
pub mod profile;

// The stages and their order.
pub mod backend;
pub mod cpu_backend;
pub mod enlarger;
pub mod exposure_laws;
pub mod filming;
pub mod meter_laws;
pub mod pipeline;
pub mod print_laws;
pub mod printing;
pub mod scan_laws;
pub mod scanning;

// The same chain as passes on a GPU.
pub mod film_chain;
pub mod film_flow;
pub mod film_passes;
pub mod film_uniforms;
pub mod gpu;
pub mod gpu_setup;
pub mod gpu_tables;
pub mod resident;
pub mod resident_laws;

// Commands, files and the window.
pub mod catalog;
pub mod commands;
pub mod export;
pub mod files;
pub mod panel;
pub mod preview;
pub mod session;
pub mod view_laws;
