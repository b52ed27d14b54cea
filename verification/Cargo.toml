[package]
name = "pascal_front"
version = "0.1.0"
edition = "2021"
publish = false

[dependencies]
logos = "0.12"
lalrpop-util = "0.19"
colored = "2"
regex = "1"
lazy_static = "1"
