[package]
name = "azalea-reflection-proxy"
version = "0.1.0"
edition = "2021"
publish = false

[dependencies]
azalea-auth = "0.16"
azalea-buf = "0.16"
azalea-chat = "0.16"
azalea-core = "0.16"
azalea-crypto = "0.16"
azalea-entity = "0.16"
azalea-inventory = "0.16"
azalea-protocol = "0.16"
azalea-registry = "0.16"
bytes = "1"
eyre = "0.6"
minecraft_folder_path = "*"
tokio = { version = "1", features = ["full"] }
tracing = "0.1"
tracing-subscriber = "0.3"
uuid = "1"
