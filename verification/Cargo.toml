[package]
name = "dawww"
version = "0.1.0"
edition = "2021"
publish = false

[dependencies]
chrono = "*"
anyhow = "*"
serde = { version = "*", features = ["derive"] }
serde_json = "*"
hound = "*"
log = "*"
simplelog = "*"
crossterm = "*"
base64 = "*"
png = "*"
ab_glyph = "*"
libc = "*"
ncurses = "*"
