[package]
name = "embed_wasm"
version = "0.1.0"
edition = "2021"
publish = false

[dependencies]
handlebars = "=6.4.4"
mime_guess = "=2.0.5"
phf_codegen = "=0.14.0"
serde = { version = "=1.0.229", features = ["derive"] }
warp = "=0.3.7"
tokio = { version = "=1.54.1", features = ["macros", "rt-multi-thread", "sync"] }
hyper = { version = "=0.14.32", features = ["stream"] }
headers = "=0.3.9"
futures = "=0.3.34"
ignore = "=0.4.34"
structopt = "=0.3.26"
anyhow = "=1.0.104"
yew = "=0.17.4"
stdweb = "=0.4.20"
