//! Speech pipeline: voice-activity slicing and transcription.

pub mod push_laws;
pub mod vad;
pub mod vad_laws;
pub mod worker;
pub mod worker_laws;
