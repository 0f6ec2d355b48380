[package]
name = "pulley_leds"
version = "0.1.0"
edition = "2021"
publish = false

[dependencies]
anyhow = "=1.0.104"
cortex-m = "=0.7.10"
cyw43 = "=0.7.0"
cyw43-pio = "=0.10.0"
defmt = "=1.2.0"
defmt-rtt = "=1.3.1"
embassy-executor = "=0.10.0"
embassy-net = { version = "=0.9.1", features = ["tcp", "udp", "dhcpv4", "medium-ethernet"] }
embassy-rp = { version = "=0.10.0", features = ["rp235xa", "time-driver", "critical-section-impl"] }
embassy-time = { version = "=0.5.1", features = ["tick-hz-1_000_000"] }
embedded-alloc = "=0.7.0"
embedded-io-async = "=0.7.0"
embedded-storage-async = "=0.4.2"
panic-probe = "=1.0.0"
smart-leds = "=0.4.0"
static_cell = "=2.1.1"
wasmtime = { version = "=43.0.2", default-features = false, features = ["anyhow", "std", "runtime", "cranelift", "component-model", "pulley", "gc", "async"] }
wit-bindgen = "=0.54.0"
