[package]
name = "lumen"
version = "0.1.0"
edition = "2021"
publish = false

[dependencies]
rocket = { version = "0.5", features = ["json"] }
rocket_dyn_templates = { version = "0.2", features = ["handlebars"] }
rosc = "0.10"
rppal = "0.19"
tokio-tungstenite = "0.20"
yansi = "0.5"
