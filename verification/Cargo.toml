[package]
name = "gabriel_laevis"
version = "0.1.0"
edition = "2021"
publish = false

[dependencies]
async-stream = "0.3"
axum = { version = "0.8", default-features = false, features = ["http1", "json", "tokio"] }
clap = { version = "4", features = ["derive"] }
config = { version = "0.15", default-features = false, features = ["toml"] }
eyre = "0.6"
fastokens = "0.2"
fastrand = "2"
flate2 = "1"
hf-hub = { version = "0.4", default-features = false, features = ["ureq"] }
kanal = "0.1"
minijinja = "2"
moka = { version = "0.12", features = ["sync"] }
parquet = { version = "57", default-features = false, features = ["snap"] }
rayon = "1"
reqwest = { version = "0.12", default-features = false }
serde = { version = "1", features = ["derive"] }
serde_json = "1"
strum = { version = "0.27", features = ["derive"] }
tokenizers = { version = "0.22", default-features = false, features = ["fancy-regex"] }
tokio = { version = "1", features = ["macros", "net", "rt-multi-thread", "sync"] }
