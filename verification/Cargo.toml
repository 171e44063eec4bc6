[package]
name = "led_screen_sync"
version = "0.1.0"
edition = "2021"
publish = false

[dependencies]
serde = { version = "=1.0.229", features = ["derive"] }
serde_yaml = "=0.9.34"
captrs = "=0.3.1"
hidapi = { version = "=2.6.7", default-features = false, features = ["linux-native-basic-udev"] }
serialport = { version = "=4.10.1", default-features = false }
