[package]
name = "mod_swapper"
version = "0.1.0"
edition = "2021"

[dependencies]
ansi_term = "0.12"
cfg-if = "1"
ctrlc = "3"
output_vt100 = "0.1"
