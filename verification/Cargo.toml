[package]
name = "shimcache-forensic"
version = "0.1.0"
edition = "2021"
publish = false

[dependencies]
forensicnomicon = "1"
winreg-core = "0.2"
