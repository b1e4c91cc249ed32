[package]
name = "native_term_app"
version = "0.1.0"
edition = "2021"
publish = false

[dependencies]
toml = "*"
serde = { version = "1", features = ["derive"] }
rusqlite = { version = "*", features = ["bundled"] }
egui = "*"
egui-phosphor = "*"
i18n-embed = { version = "*", features = ["fluent-system"] }
i18n-embed-fl = "*"
