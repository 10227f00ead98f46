[package]
name = "egui_reflect"
version = "0.1.0"
edition = "2021"
publish = false

[dependencies]
heck = "*"
egui = "*"
glam = "*"
syn = "*"
quote = "*"
proc-macro2 = "*"
