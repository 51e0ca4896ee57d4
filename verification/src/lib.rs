//! A danmaku (bullet comment) engine: tracks, an object pool, a timeline,
//! filtering, emoji bitmap management, text effects and a CPU renderer.
//!
//! Fractional quantities (alpha, playback speed, positions, speeds, angles,
//! intensities, gradient positions) are carried as integers in thousandths.

pub mod math;
pub mod config;
pub mod barrage;
pub mod track;
pub mod text;
pub mod filter;
pub mod emoji;
pub mod utils;
pub mod network;
pub mod renderer;
pub mod engine;
pub mod requests;
pub mod text_effect;
pub mod clock;
pub mod timeline;
