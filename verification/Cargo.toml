[package]
name = "agent_voice_audio"
version = "0.1.0"
edition = "2021"
publish = false

[dependencies]
sonora = "*"
cpal = "*"
aec-rs-sys = "*"
