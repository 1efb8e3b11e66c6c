[package]
name = "toadwriter"
version = "0.1.0"
edition = "2021"
publish = false

[dependencies]
anyhow = "=1.0.104"
glib-build-tools = "=0.17.10"
gtk4 = "=0.6.6"
log = "=0.4.34"
once_cell = "=1.21.4"
serde = { version = "=1.0.229", features = ["derive"] }
simplelog = "=0.12.2"
thiserror = "=1.0.69"
time = { version = "=0.3.55", features = ["formatting", "macros"] }
toml = "=0.7.8"
xml-rs = "=0.8.29"
