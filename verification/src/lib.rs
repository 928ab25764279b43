//! Source-agnostic core of a music visualizer: sample intake, the preset
//! expression language, L-system rewriting and the integer image metrics.

pub mod audio;
pub mod ring;
pub mod grammar;
pub mod text;
pub mod expr;
pub mod schema;
pub mod capture;
pub mod rng;
pub mod signal;
pub mod bands;
pub mod stats;
pub mod roster;
pub mod lines;
pub mod preset;
pub mod analysis;
pub mod spectrum;
