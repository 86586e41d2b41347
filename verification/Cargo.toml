[package]
name = "thread_pool"
version = "0.1.0"
edition = "2021"
publish = false

[dependencies]
crossbeam-deque = "=0.8.8"
tokio = { version = "=1.54.1", features = ["net", "rt", "rt-multi-thread", "time"] }
