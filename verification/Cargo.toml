[package]
name = "cloverleaf"
version = "0.1.0"
edition = "2021"
publish = false

[dependencies]
uuid = { version = "1", features = ["v4"] }
rocket = { version = "0.5", features = ["json"] }
rocket_cors = "0.6"
tokio = { version = "1", features = ["full"] }
glib = "*"
glib-sys = "*"
gobject-sys = "*"
libnice = "*"
libnice-sys = "*"
libc = "0.2"
openssl = "0.10"
srtp2-sys = "*"
insight = "*"
