[package]
name = "aoirecord"
version = "0.1.0"
edition = "2021"
publish = false

[dependencies]
audiopus = "=0.2.0"
ogg = "=0.9.2"
chrono = "=0.4.45"
clap = { version = "=4.6.7", features = ["derive", "env"] }
dotenvy = "=0.15.7"
tokio = { version = "=1.54.1", features = ["full"] }
serenity = "0.12"
songbird = { version = "0.5", features = ["receive"] }
