[package]
name = "autospeech2speech"
version = "0.1.0"
edition = "2021"
publish = false

[dependencies]
clap = "4"
ctrlc = "3"
evdev = "0.12"
futures-util = "0.3"
input = "0.8"
lame-sys = "*"
libc = "0.2"
libspa-sys = "0.7"
minimp3-sys = "*"
nix = { version = "0.27", features = ["poll"] }
once_cell = "1"
pipewire = "0.7"
pipewire-sys = "0.7"
reqwest = { version = "0.11", default-features = false, features = ["multipart", "stream", "rustls-tls"] }
serde_json = "1"
tokio = { version = "1", features = ["rt", "net", "time"] }
