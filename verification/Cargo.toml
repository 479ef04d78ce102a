[package]
name = "filesystem_store"
version = "0.1.0"
edition = "2021"
publish = false

[dependencies]
# Gives the errors of lightning their conversions from those of std.
bitcoin = { version = "=0.32.102", default-features = false, features = ["std"] }
lightning = "=0.2.7"
tokio = { version = "=1.54.1", default-features = false, features = ["rt"] }
windows-sys = { version = "=0.48.0", default-features = false, features = ["Win32_Storage_FileSystem", "Win32_Foundation"] }
