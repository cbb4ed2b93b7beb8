[package]
name = "module_registry"
version = "0.1.0"
edition = "2021"
publish = false

[dependencies]
treexml = "*"
xml_writer = "*"
