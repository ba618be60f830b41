[package]
name = "airgap-xfer"
version = "0.1.0"
edition = "2021"
publish = false

[dependencies]
clap = { version = "=4.6.7", features = ["derive"] }
crc32fast = "=1.5.4"
crossterm = "=0.28.1"
ctrlc = "=3.5.2"
image = { version = "=0.25.10", default-features = false }
nokhwa = { version = "=0.10.11", features = ["input-native"] }
qrcode = { version = "=0.14.1", default-features = false }
ratatui = "=0.29.0"
rxing = { version = "=0.9.3", default-features = false, features = ["decoders", "encoders", "encoding_rs", "full_barcode_format_support", "multi_barcode_readers"] }
sha2 = "=0.10.9"
tar = "=0.4.46"
thiserror = "=2.0.21"
zstd = "=0.13.4"
