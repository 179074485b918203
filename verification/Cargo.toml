[package]
name = "fibers_http_client"
version = "0.1.0"
edition = "2021"
publish = false

[dependencies]
bytecodec = "0.4"
fibers = "0.1"
futures = "0.1"
httpcodec = "0.2"
prometrics = "0.1"
trackable = "0.2"
url = "2"

[dev-dependencies]
fibers_global = "0.1"
