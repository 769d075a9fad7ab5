[package]
name = "constellations"
version = "0.1.0"
edition = "2021"
publish = false

[dependencies]
chrono = "0.4"
dirs = "*"
rustyline = "*"
structopt = "0.3"
termcolor = "1"
walkdir = "2"
