[package]
name = "ginkgo_kernel"
version = "0.1.0"
edition = "2021"
publish = false

[dependencies]
ed25519-dalek = "=2.2.0"
sha2 = "=0.10.9"
redoxfs = { version = "=0.8.6", default-features = false }
redox_syscall = "=0.6.0"
spinning_top = "=0.4.0"
volatile = "=0.6.1"
