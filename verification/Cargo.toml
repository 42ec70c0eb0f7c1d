[package]
name = "esp_rs"
version = "0.1.0"
edition = "2021"
publish = false

[dependencies]
anyhow = "=1.0.104"
bme280 = "=0.5.1"
embedded-svc = "=0.29.0"
esp-idf-hal = "=0.47.0"
esp-idf-svc = "=0.53.0"
esp-idf-sys = "=0.38.1"
heapless = "=0.9.3"
log = "=0.4.35"
serde = { version = "=1.0.229", features = ["derive"] }
serde_json = "=1.0.154"
