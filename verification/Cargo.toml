[package]
name = "stryker"
version = "0.1.0"
edition = "2021"
publish = false

[dependencies]
anyhow = "=1.0.104"
async-trait = "=0.1.92"
camino = "=1.2.6"
clap = { version = "=4.6.7", features = ["derive"] }
globset = "=0.4.21"
ignore = "=0.4.34"
indicatif = "=0.18.6"
jsonc-parser = { version = "=0.34.0", features = ["serde"] }
libc = "=0.2.191"
oxc_allocator = "=0.143.0"
oxc_ast = { version = "=0.143.0", features = ["serialize"] }
oxc_ast_visit = "=0.143.0"
oxc_codegen = "=0.143.0"
oxc_parser = "=0.143.0"
oxc_span = "=0.143.0"
quick-xml = "=0.42.0"
rayon = "=1.12.0"
regex = "=1.13.1"
serde = { version = "=1.0.229", features = ["derive"] }
serde_json = { version = "=1.0.154", features = ["arbitrary_precision", "unbounded_depth"] }
sha2 = "=0.10.9"
shell-words = "=1.1.1"
similar = "=3.2.1"
thiserror = "=2.0.21"
tokio = { version = "=1.54.1", features = ["full"] }
tracing = "=0.1.44"
tracing-subscriber = { version = "=0.3.23", features = ["env-filter"] }
