[package]
name = "mongo_data_exporter"
version = "0.1.0"
edition = "2021"
publish = false

[dependencies]
async-trait = "0.1"
chrono = "0.4"
futures = "0.3"
mongodb = { version = "2", features = ["bson-chrono-0_4"] }
tokio = { version = "1", features = ["macros", "rt-multi-thread"] }
