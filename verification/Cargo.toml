[package]
name = "flight_follower"
version = "0.1.0"
edition = "2021"
publish = false

[dependencies]
arrow = { version = "=59.3.2", default-features = false, features = ["ipc", "ipc_compression"] }
arrow-flight = { version = "=59.3.2", default-features = false }
async-stream = "=0.3.6"
datafusion = { version = "=55.2.0", default-features = false }
futures = "=0.3.34"
futures-util = "=0.3.34"
log = "=0.4.35"
opentelemetry = "=0.33.1"
parking_lot = "=0.12.5"
prost = "=0.14.4"
tokio = { version = "=1.54.1", default-features = false, features = ["sync", "time", "macros", "rt"] }
tonic = { version = "=0.14.9", default-features = false, features = ["codegen"] }
tracing = "=0.1.44"
tracing-opentelemetry = { version = "=0.34.0", default-features = false }
