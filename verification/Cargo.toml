[package]
name = "yongnuo-osc-server"
version = "0.1.0"
edition = "2021"
publish = false

[dependencies]
rosc = "0.4"
btleplug = "0.5"
clap = "2.33"
exitcode = "1.1"
num-traits = "0.2"
