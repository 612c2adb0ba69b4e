[package]
name = "zugli"
version = "0.1.0"
edition = "2021"
publish = false

[dependencies]
edge-dhcp = { version = "=0.8.0", default-features = false, features = ["io"] }
embassy-executor = "=0.10.0"
embassy-futures = "=0.1.2"
embassy-net = { version = "=0.9.1", features = ["tcp", "udp", "dns", "dhcpv4", "multicast", "medium-ethernet"] }
embassy-sync = "=0.8.0"
embassy-time = "=0.5.1"
embedded-graphics = "=0.8.2"
embedded-storage = "=0.3.2"
esp-alloc = "=0.10.0"
esp-backtrace = { version = "=0.20.0", features = ["esp32s3"] }
esp-bootloader-esp-idf = { version = "=0.5.0", features = ["esp32s3"] }
esp-hal = { version = "=1.1.2", features = ["esp32s3", "unstable"] }
esp-hub75 = { version = "=0.15.0", features = ["esp32s3"] }
esp-println = { version = "=0.18.0", features = ["esp32s3", "log-04"] }
esp-radio = { version = "=0.18.0", features = ["esp32s3", "wifi", "unstable"] }
esp-rtos = { version = "=0.3.0", features = ["esp32s3", "embassy"] }
esp-storage = { version = "=0.9.0", features = ["esp32s3"] }
heapless = { version = "=0.8.0", features = ["serde"] }
log = "=0.4.35"
picoserve = { version = "=0.20.1", features = ["embassy", "json"] }
portable-atomic = "=1.15.0"
reqwless = { version = "=0.14.0", default-features = false, features = ["embedded-tls"] }
serde = { version = "=1.0.229", default-features = false, features = ["derive"] }
serde-json-core = "=0.6.0"
static_cell = "=2.1.1"
