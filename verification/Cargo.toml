[package]
name = "loot_condition_interpreter"
version = "4.0.2"
edition = "2021"
publish = false

[dependencies]
crc32fast = "1.4.2"
esplugin = "6.1.1"
libc = "0.2.159"
regex = "1.11.0"
unicase = "2.7"

[dev-dependencies]
tempfile = "3"
