[package]
name = "fnirsi"
version = "0.1.0"
edition = "2021"
publish = false

[dependencies]
anyhow = "=1.0.104"
arrow-array = { version = "=60.1.0", default-features = false }
arrow-schema = { version = "=60.1.0", default-features = false }
btleplug = "=0.13.5"
calamine = "=0.38.0"
clap = { version = "=4.6.7", features = ["derive"] }
crc = "=3.4.0"
csv = "=1.4.0"
eframe = { version = "=0.37.0", default-features = false, features = ["default_fonts", "glow", "x11"] }
egui_plot = { version = "=0.38.0", default-features = false }
futures-util = "=0.3.34"
hidapi = { version = "=2.6.7", default-features = false, features = ["linux-native-basic-udev"] }
humantime = "=2.4.0"
indicatif = "=0.18.6"
owo-colors = "=4.4.0"
parquet = { version = "=60.1.0", default-features = false, features = ["arrow"] }
rfd = { version = "=0.17.2", default-features = false, features = ["xdg-portal"] }
rust_xlsxwriter = "=0.102.0"
serde = { version = "=1.0.229", features = ["derive"] }
serde_json = "=1.0.154"
thiserror = "=2.0.21"
tokio = { version = "=1.54.1", features = ["macros", "rt-multi-thread", "signal", "sync", "time"] }
tracing = "=0.1.44"
tracing-subscriber = { version = "=0.3.23", default-features = false, features = ["env-filter", "fmt"] }
uuid = "=1.29.0"
