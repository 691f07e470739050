//! Streaming pitch-detection core: PCM decoding, frame accumulation,
//! detector selection, search-range arithmetic, lobe selection, harmonic
//! ranking and note naming, all over plain integer data.
pub mod frame;
pub mod harmonic;
pub mod notes;
pub mod pcm;
pub mod peaks;
pub mod ranges;
pub mod tuner;
