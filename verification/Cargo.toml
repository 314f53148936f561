[package]
name = "osmdb_extract"
version = "0.1.0"
edition = "2021"
publish = false

[dependencies]
osmdb = "=0.2.0"
wikidata_store = "=0.1.2"
anyhow = "=1.0.104"
clap = { version = "=4.6.7", features = ["derive"] }
mlua = { version = "=0.12.2", features = ["lua54", "vendored", "send"] }
serde_json = "=1.0.154"
geo-types = "=0.7.20"
rayon = "=1.12.0"
crossbeam-channel = "=0.5.17"
rusqlite = { version = "=0.37.0", features = ["bundled"] }
arrow-array = "=59.3.2"
arrow-schema = "=59.3.2"
parquet = { version = "=59.3.2", default-features = false, features = ["arrow", "zstd"] }
geoparquet = "=0.9.0"
geoarrow-schema = "=0.9.0"
wkb = "=0.9.3"
tracing = "=0.1.44"
tracing-subscriber = { version = "=0.3.23", features = ["env-filter"] }

[dev-dependencies]
tempfile = "=3.27.0"
