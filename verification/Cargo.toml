[package]
name = "ic_task_scheduler"
version = "0.1.0"
edition = "2021"
publish = false
