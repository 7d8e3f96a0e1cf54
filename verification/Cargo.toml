[package]
name = "remote_ctl"
version = "0.1.0"
edition = "2021"
publish = false

[dependencies]
fixed = "=1.31.0"
cordic = "=0.1.5"
serde = { version = "1", features = ["derive"] }
serde_json = "1"
ctrlc = "3"
dotenv = "0.15"
enigo = { version = "=0.0.14", features = ["with_serde"] }
winapi = { version = "0.3", features = ["combaseapi", "endpointvolume", "mmdeviceapi", "objbase", "winerror"] }
