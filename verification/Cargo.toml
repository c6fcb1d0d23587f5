[package]
name = "turbo_audio"
version = "0.1.0"
edition = "2021"
publish = false

[dependencies]
anyhow = "=1.0.104"
clap = { version = "=4.6.7", features = ["derive"] }
dasp = "=0.11.0"
dasp_signal = "=0.11.0"
dasp_window = { version = "=0.11.1", features = ["hanning"] }
ringbuf = "=0.5.2"
rustfft = "=6.4.1"
serde_json = "=1.0.151"
