[package]
name = "delta_sirk"
version = "0.1.0"
edition = "2021"
publish = false

[dependencies]
bytemuck = { version = "1", features = ["derive", "extern_crate_alloc"] }
tokio = { version = "1", features = ["sync"] }
wgpu = "0.19"
