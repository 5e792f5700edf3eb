[package]
name = "branch_trace"
version = "0.1.0"
edition = "2021"
publish = false

[dependencies]
flexi_logger = "*"
llvm-plugin = { version = "0.4", features = ["llvm14-0"] }
log = "0.4"
