[package]
name = "mildew_valley"
version = "0.1.0"
edition = "2021"
publish = false

[dependencies]
postcard = { version = "=1.1.3", features = ["alloc"] }
umwelt = "=0.0.1"
tokio = { version = "=1.54.1", features = ["rt-multi-thread"] }
async-nats = "=0.50.0"
futures = "=0.3.34"
quinn = "=0.11.12"
rcgen = "=0.14.10"
macroquad = "=0.4.16"
egui-macroquad = "=0.17.3"
