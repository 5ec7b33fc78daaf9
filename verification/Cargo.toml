[package]
name = "roguelike"
version = "0.1.0"
edition = "2021"
publish = false

[dependencies]
bresenham = "0.1"
rand = "0.4"
tcod = "0.15"
