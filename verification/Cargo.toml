[package]
name = "francium"
version = "0.1.0"
edition = "2021"
publish = false

[dependencies]
elf_rs = "=0.3.1"
smallvec = "=1.16.5"
log = "=0.4.35"
spin = "=0.12.3"
bootloader-locator = "=0.0.4"
bytemuck = "1"
