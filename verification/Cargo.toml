[package]
name = "dioxus_menu"
version = "0.1.0"
edition = "2021"
publish = false

[dependencies]
slotmap = "*"
dioxus = "0.3"
muda = "*"
tray-icon = "*"
