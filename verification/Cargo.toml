[package]
name = "sherlog"
version = "0.9.0"
edition = "2021"
publish = false

[dependencies]
chrono = "0.4"
fern = "0.6"
gtk = "0.15"
log = "0.4"
regex = "1"
zip = { version = "0.6", default-features = false, features = ["deflate"] }
