[package]
name = "signaling_relay"
version = "0.1.0"
edition = "2021"
publish = false

[dependencies]
actix = "0.13"
actix-files = "0.6"
actix-web = { version = "4", features = ["rustls-0_21"] }
actix-web-actors = "4"
rcgen = "0.13"
rustls = "0.21"
rustls-pemfile = "1"
tokio = { version = "1", features = ["sync"] }
