[package]
name = "grid_engine"
version = "0.1.0"
edition = "2021"
publish = false

[dependencies]
bincode = "1"
crossterm = "*"
device_query = "*"
futures = "0.3"
matchbox_socket = "*"
rayon = "1"
renet = "*"
serde = { version = "1", features = ["derive"] }
tokio = { version = "1", features = ["rt-multi-thread"] }
