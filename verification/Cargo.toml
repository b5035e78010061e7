[package]
name = "halloc"
version = "0.1.0"
edition = "2021"
publish = false

[dependencies]
bytes = "1"
libc = "0.2"
thiserror = "2"
tokio = { version = "1", features = ["full"] }
tikv-jemallocator = "0.6"
