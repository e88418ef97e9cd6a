[package]
name = "eql_normalize"
version = "0.1.0"
edition = "2021"
publish = false

[dependencies]
bigdecimal = "=0.4.11"
num-bigint = "=0.4.8"
