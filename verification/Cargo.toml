[package]
name = "dbdiff"
version = "0.1.0"
edition = "2021"
publish = false

[dependencies]
anyhow = "1"
bit-vec = "0.6"
chrono = "0.4"
cidr = "0.2"
confy = "0.5"
eui48 = "1"
futures = "0.3"
geo-types = "0.7"
openssl = "0.10"
postgres-openssl = "0.5"
serde = { version = "1", features = ["derive"] }
serde_json = "1"
structopt = "0.3"
tokio = { version = "1", features = ["macros", "rt-multi-thread"] }
tokio-postgres = { version = "0.7", features = ["with-bit-vec-0_6", "with-chrono-0_4", "with-cidr-0_2", "with-eui48-1", "with-geo-types-0_7", "with-serde_json-1", "with-uuid-1"] }
users = "0.11"
uuid = "1"
whoami = "1"
