[package]
name = "druid_table"
version = "0.1.0"
edition = "2021"
publish = false

[dependencies]
druid = "=0.7.0"
druid-widget-nursery = "=0.1.0"
float-ord = "=0.2.0"
im = "15"
itertools = "=0.9.0"
lazy_static = "=1.4.0"
log = "0.4"
priority-queue = "=1.0.5"
