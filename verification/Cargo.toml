[package]
name = "ckled2001"
version = "0.1.0"
edition = "2021"
publish = false

[dependencies]
cortex-m = "=0.7.10"
embassy-executor = { version = "=0.9.1", features = ["arch-std", "executor-thread"] }
embassy-stm32 = { version = "=0.6.0", features = ["stm32l432kc", "time-driver-any", "exti"] }
embassy-time = "=0.5.1"
rmk = "=0.9.0"
