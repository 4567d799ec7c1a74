[package]
name = "sqllogictest_bin"
version = "0.1.0"
edition = "2021"
publish = false

[dependencies]
anyhow = "1"
async-trait = "0.1"
chrono = "=0.4.45"
clap = { version = "4", features = ["derive", "env"] }
console = "=0.15.11"
fs-err = "2"
futures = "0.3"
glob = "0.3"
itertools = "0.13"
quick-junit = "=0.5.2"
rand = "=0.8.8"
sqllogictest = "0.24"
sqllogictest-engines = "0.24"
tokio = { version = "1", features = ["fs", "io-util", "macros", "process", "rt", "rt-multi-thread", "sync", "time"] }
tokio-postgres = "=0.7.18"
tracing-subscriber = "0.3"
