[package]
name = "c6-lvgl"
version = "0.1.0"
edition = "2021"
publish = false

[dependencies]
axs5106l = "=0.1.0"
bt-hci = "0.3"
defmt = "1"
embassy-executor = "0.7"
embassy-sync = "0.7"
embassy-time = "=0.4.0"
embedded-graphics = "=0.8.2"
embedded-hal-bus = "0.3"
esp-alloc = "0.8"
esp-bootloader-esp-idf = { version = "0.2", features = ["esp32c6"] }
esp-hal = { version = "=1.0.0-rc.0", features = ["esp32c6", "unstable"] }
esp-hal-embassy = { version = "0.9", features = ["esp32c6"] }
esp-wifi = { version = "0.15", features = ["ble", "esp32c6"] }
mipidsi = "0.9"
panic-rtt-target = "0.2"
rtt-target = { version = "0.6", features = ["defmt"] }
static_cell = "2"
