[package]
name = "rodecaster_usb"
version = "0.1.0"
edition = "2021"
publish = false

[dependencies]
byteorder = "=1.5.0"
clap = { version = "=4.6.7", features = ["derive"] }
crossbeam = "=0.8.5"
hidapi = { version = "=2.6.7", default-features = false, features = ["linux-native-basic-udev"] }
log = "=0.4.35"
simplelog = "=0.12.2"
nusb = "=0.2.9"
thiserror = "=2.0.21"
