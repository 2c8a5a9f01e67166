[package]
name = "reactor_core"
version = "0.1.0"
edition = "2021"
publish = false

[dependencies]
mio = { version = "*", features = ["net", "os-poll"] }
actix-web = "*"
serde = { version = "*", features = ["derive"] }
termion = "*"
text-colorizer = "*"
