[package]
name = "ulottie-compiler"
version = "0.1.0"
edition = "2021"
publish = false

[dependencies]
anyhow = "=1.0.104"
flate2 = "=1.1.10"
oxc_allocator = "=0.143.0"
oxc_ast = "=0.143.0"
oxc_codegen = "=0.143.0"
oxc_minifier = "=0.143.0"
oxc_parser = "=0.143.0"
oxc_span = "=0.143.0"
serde = { version = "=1.0.229", features = ["derive"] }
serde_json = "=1.0.154"
