[package]
name = "md_linkcheck"
version = "0.1.0"
edition = "2021"
publish = false

[dependencies]
comrak = "*"
percent-encoding = "*"
url = "*"
clap = "*"
termcolor = "*"
walkdir = "*"
