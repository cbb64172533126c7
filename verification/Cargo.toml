[package]
name = "rvos"
version = "0.1.0"
edition = "2021"

[dependencies]
xmas-elf = "*"
riscv = "*"
sbi-rt = "*"
