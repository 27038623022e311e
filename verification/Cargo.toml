[package]
name = "tracelogging"
version = "0.1.0"
edition = "2021"
publish = false

[dependencies]
proc-macro2 = "0.4"
quote = "0.6"
syn = { version = "0.15", features = ["full"] }
winapi = { version = "0.3", features = ["evntprov", "winerror", "guiddef", "winnt", "cguid"] }
