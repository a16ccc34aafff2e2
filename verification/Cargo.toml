[package]
name = "voice_input"
version = "0.1.0"
edition = "2021"
publish = false

[dependencies]
cpal = "0.15"
crossbeam-channel = "0.5"
ksni = "0.3"
rubato = "0.16"
tracing = "0.1"
voice_activity_detector = "0.2"
whisper-rs = "0.14"
