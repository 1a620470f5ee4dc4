[package]
name = "taco"
version = "0.1.0"
edition = "2021"

[dependencies]
anyhow = "1"
crossterm = "*"
dirs = "*"
flate2 = "1"
regex = "1"
ropey = "1"
similar = "*"
steel-core = "*"
tar = "0.4"
tree-sitter = "*"
tree-sitter-highlight = "*"
tree-sitter-loader = "*"
unicode-width = "*"
