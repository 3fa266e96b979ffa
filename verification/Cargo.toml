[package]
name = "waygaps"
version = "0.1.0"
edition = "2021"
publish = false

[dependencies]
rustix = { version = "=1.1.2", features = ["event", "fs", "mm", "net", "param", "pipe", "process", "runtime", "stdio", "termios"] }
waybackend = "=0.11.0"
smallvec = "=1.16.4"
toml = "=1.1.8"
serde = { version = "=1.0.229", features = ["derive"] }
serde_json = "=1.0.154"
schemars = "=1.2.3"
talc = { version = "=4.4.3", default-features = false, features = ["lock_api"] }
origin = { version = "=0.26.2", default-features = false, features = ["signal", "libc", "errno"] }
tracing = "=0.1.44"
