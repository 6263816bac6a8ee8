//! Capture-side logic of a system-audio waveform reporter: windowed
//! aggregation of PCM frames, run settings, device selection and the
//! delivery retry policy.

pub mod settings;
pub mod waveform;
pub mod text;
pub mod devices;
pub mod inject;
pub mod run_loop;
