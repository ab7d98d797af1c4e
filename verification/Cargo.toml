[package]
name = "cycle_emitter"
version = "0.1.0"
edition = "2021"
publish = false
