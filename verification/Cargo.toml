[package]
name = "clipboard-tts"
version = "0.1.0"
edition = "2021"
publish = false

[dependencies]
regex = "1"
arboard = "3"
clap = { version = "4", features = ["derive", "env"] }
tokio = { version = "1", features = ["rt-multi-thread", "macros"] }
google-cloud-texttospeech-v1 = "*"
rodio = "0.20"
id3 = "1"
anyhow = "1"
tracing = "0.1"
tracing-subscriber = { version = "0.3", features = ["env-filter"] }
