[package]
name = "hai"
version = "0.1.0"
edition = "2021"
publish = false

[dependencies]
id-arena = "2"
pest = "2"
pest_derive = "2"
