[package]
name = "nix_test_runner"
version = "0.1.0"
edition = "2021"
publish = false

[dependencies]
colored = "*"
diff = "*"
junit-report = "*"
termize = "*"
clap = "*"

[dev-dependencies]
serde_json = "*"
