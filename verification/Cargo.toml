[package]
name = "led_matrix_util"
version = "0.1.0"
edition = "2021"
publish = false

[dependencies]
embedded-hal = "=0.2.7"
max7219 = "=0.5.0"
