[package]
name = "kapsule_dbus_mux"
version = "0.1.0"
edition = "2021"
publish = false

[dependencies]
zbus = { version = "5", default-features = false, features = ["tokio"] }
hex = "0.4"
uuid = { version = "1", features = ["v4"] }
tokio = { version = "1", features = ["full"] }
clap = { version = "4", features = ["derive"] }
tracing = "0.1"
tracing-subscriber = { version = "0.3", features = ["env-filter"] }
nix = { version = "0.29", features = ["user"] }
futures = "0.3"
serde = { version = "1", features = ["derive"] }
thiserror = "2"
