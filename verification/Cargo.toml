[package]
name = "ecs_core"
version = "0.1.0"
edition = "2021"
publish = false

[dependencies]
bevy_utils = "0.12"
bevy_ptr = "0.12"
