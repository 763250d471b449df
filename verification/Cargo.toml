[package]
name = "bondrewd_derive"
version = "0.1.0"
edition = "2021"
publish = false

[dependencies]
convert_case = "0.6"
syn = { version = "2", features = ["full", "extra-traits"] }
quote = "1"
proc-macro2 = "1"
darling = "0.20"
thiserror = "1"
