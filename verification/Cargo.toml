[package]
name = "openusage_cli"
version = "0.1.0"
edition = "2021"
publish = false

[dependencies]
anyhow = "1"
axum = "0.8"
clap = { version = "4", features = ["derive"] }
directories = "*"
dirs = "*"
env_logger = "0.11"
globset = "0.4"
log = "0.4"
notify = "8"
reqwest = { version = "0.12", default-features = false, features = ["json"] }
rquickjs = "*"
sd-notify = "0.4"
serde = { version = "1", features = ["derive"] }
serde_json = "1"
serde_yaml = "0.9"
sha2 = "0.10"
swc_core = { version = "*", features = ["common", "ecma_ast", "ecma_parser", "ecma_codegen", "ecma_visit"] }
time = { version = "0.3", features = ["formatting", "parsing"] }
tokio = { version = "1", features = ["full"] }
tower-http = { version = "0.6", features = ["cors"] }
