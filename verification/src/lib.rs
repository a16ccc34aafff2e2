//! Voice input for Wayland desktops: hold a key, speak, release, and the
//! transcript is pasted.
//!
//! This crate holds the decisions of the dictation pipeline, each with a proved
//! contract: how captured audio is regrouped for the resampler, how a stream is
//! sliced into speech segments, how a slice becomes a text, and what the tray
//! does. Devices, inference and threads belong to the application around it.

pub mod app;
pub mod audio;
pub mod audio_laws;
pub mod conversion_laws;
pub mod error;
pub mod pieces;
pub mod speech;
pub mod state;
pub mod text;
pub mod tray;
