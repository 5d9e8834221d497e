[package]
name = "uart_echo"
version = "0.1.0"
edition = "2021"
publish = false

[dependencies]
embassy-executor = "=0.5.1"
embassy-time = "=0.3.2"
esp-backtrace = "=0.11.1"
esp-hal = { version = "=0.17.0", features = ["esp32", "async", "embassy", "embassy-executor-thread", "embassy-time-timg0"] }
esp-println = "0.10"
