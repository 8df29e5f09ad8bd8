[package]
name = "language_tokenizer"
version = "0.1.0"
edition = "2021"
publish = false

[dependencies]
strsim = "=0.11.1"
waken_snowball = "=0.1.0"
unicode-segmentation = "=1.13.3"
unicode-normalization = "=0.1.25"
icu_segmenter = "=2.3.0"
serde = { version = "=1.0.229", features = ["derive"] }
