[package]
name = "bevy_iroh"
version = "0.1.0"
edition = "2021"
publish = false

[dependencies]
bevy_app = { version = "=0.18.1", default-features = false }
bevy_ecs = { version = "=0.18.1", default-features = false, features = ["std"] }
bevy_platform = { version = "=0.18.1", default-features = false, features = ["std"] }
bincode = { version = "=2.0.1", default-features = false, features = ["std", "serde"] }
bytes = "=1.12.1"
futures-util = { version = "0.3", default-features = false }
iroh = { version = "=1.4.1", default-features = false, features = ["tls-ring"] }
serde = { version = "1", features = ["derive"] }
thiserror = "2"
tokio = { version = "=1.54.1", features = ["rt-multi-thread", "sync", "time", "macros"] }
tokio-util = { version = "0.7", features = ["codec"] }
