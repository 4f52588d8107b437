[package]
name = "rudf"
version = "0.1.0"
edition = "2021"
publish = false

[dependencies]
oxiri = "=0.2.11"
oxilangtag = "=0.1.6"
rio_api = "=0.8.6"
rio_turtle = "=0.8.6"
rio_xml = "=0.8.6"
