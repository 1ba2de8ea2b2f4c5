[package]
name = "abstract_ns"
version = "0.4.0"
edition = "2021"
publish = false

[dependencies]
rand = "0.4"
futures = "0.1"
void = "1"
quick-error = "1"
tokio-core = "0.1"
domain = "0.2"
futures-cpupool = "0.1"
