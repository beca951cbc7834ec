[package]
name = "camas"
version = "0.1.0"
edition = "2021"
publish = false

[dependencies]
num-bigint = "0.4"
termcolor = "1"
owo-colors = "4"
log = "0.4"
