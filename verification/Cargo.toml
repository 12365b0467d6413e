[package]
name = "subrosa"
version = "0.1.0"
edition = "2021"
publish = false

[dependencies]
latkerlo-jvotci = "=2.10.2601"
rusqlite = { version = "=0.40.2", features = ["bundled", "array"] }
rusqlite_migration = "=2.6.0"
