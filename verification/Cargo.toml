[package]
name = "feather_plugin"
version = "0.1.0"
edition = "2021"
publish = false

[dependencies]
bevy_ecs = "=0.16.1"
disqualified = "=1.1.0"
