[package]
name = "workingon"
version = "0.1.0"
edition = "2021"
publish = false

[dependencies]
sqids = "*"
chrono = "*"
chrono-humanize = "*"
clap = { version = "*", features = ["derive"] }
colored = "*"
comfy-table = "*"
diesel = { version = "*", features = ["sqlite", "chrono", "returning_clauses_for_sqlite_3_35"] }
diesel_migrations = "*"
dirs = "*"
libsqlite3-sys = { version = "*", features = ["bundled"] }
