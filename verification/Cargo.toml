[package]
name = "ocaml"
version = "0.1.0"
edition = "2021"
publish = false

[dependencies]
ocaml-sys = { version = "=0.26.0", features = ["without-ocamlopt"] }
ndarray = "=0.17.2"
