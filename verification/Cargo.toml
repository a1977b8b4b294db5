[package]
name = "winget_update"
version = "0.1.0"
edition = "2021"
publish = false

[dependencies]
colored = "2"
figlet-rs = "0.1"
winapi = { version = "0.3", features = ["consoleapi"] }
