[package]
name = "stm32-4g-gps"
version = "0.1.0"
edition = "2021"
publish = false

[dependencies]
cortex-m-rt = "0.7"
defmt-rtt = "0.4"
embassy-executor = { version = "0.7", features = ["arch-std", "executor-thread"] }
embassy-stm32 = { version = "0.2", features = ["stm32f103c8", "time-driver-any", "unstable-pac"] }
embassy-time = "0.4"
panic-probe = "0.3"
