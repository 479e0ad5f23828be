[package]
name = "lander"
version = "0.1.0"
edition = "2021"
publish = false

[dependencies]
anyhow = "1"
clap = { version = "4", default-features = false, features = ["std", "derive", "help", "usage", "error-context"] }
crc32fast = "1"
drive_74hc595 = "*"
dummy-pin = "1"
eframe = { version = "0.31", default-features = false, features = ["default_fonts", "glow", "x11"] }
egui-phosphor = "0.9"
embedded-graphics = { version = "0.8", default-features = false }
embedded-hal = "1"
futures-util = { version = "0.3", default-features = false, features = ["std"] }
image = { version = "0.25", default-features = false, features = ["png"] }
log = "0.4"
mipidsi = { version = "0.9", default-features = false, features = ["batch"] }
prost = { version = "0.13", default-features = false, features = ["std"] }
serde_json = "1"
tokio = { version = "1", features = ["rt-multi-thread", "time"] }
uuid = { version = "1", default-features = false, features = ["std"] }
zbus = { version = "5", default-features = false, features = ["tokio", "blocking-api"] }
