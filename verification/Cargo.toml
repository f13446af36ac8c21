[package]
name = "juk-com"
version = "0.1.0"
edition = "2021"
publish = false

[dependencies]
circular-buffer = "=1.2.1"
const_format = "*"
defmt = "*"
embassy-executor = "*"
esp-alloc = "*"
esp-backtrace = "*"
esp-bootloader-esp-idf = "*"
esp-hal = { version = "*", features = ["esp32s3", "unstable"] }
esp-println = "*"
esp-rtos = "*"
shadow-rs = { version = "*", default-features = false }
str_indices = "=0.4.4"
vte = { version = "=0.15.0", default-features = false }
