[package]
name = "imnear"
version = "0.2.0"
edition = "2021"
publish = false

[dependencies]
kamadak-exif = "*"
serde_json = "*"
sanitize-filename = "*"
clap = { version = "*", features = ["derive"] }
atty = "*"
directories = "*"
globwalk = "*"
reqwest = { version = "*", default-features = false, features = ["blocking", "rustls-tls"] }
