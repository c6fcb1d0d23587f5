//! Audio-reactive LED strip control core: a spectral analyzer over a
//! fixed-size sample history, effect scheduling over per-strip bindings,
//! and failure-tolerant output dispatch.

pub mod audio_processing;
pub mod color;
pub mod connections;
pub mod effects;
pub mod ledstrip;
pub mod registry;
pub mod scene;
pub mod scheduler;
