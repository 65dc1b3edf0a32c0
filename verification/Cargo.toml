[package]
name = "hello_old"
version = "0.1.0"
edition = "2021"
publish = false

[dependencies]
argon2 = "=0.5.3"
blake3 = "=1.8.7"
chacha20poly1305 = "=0.10.1"
cipher = "=0.5.2"
classic-mceliece-rust = { version = "=3.1.0", features = ["mceliece6960119f"] }
cmac = "=0.8.0"
crystals-dilithium = "=2.0.0"
ed448-goldilocks = "0.14.0-pre"
frodo-kem = "=0.1.0"
getrandom = "=0.2.17"
hmac = "=0.12.1"
libc = "=0.2.191"
lzma-rs = "=0.3.0"
ml-kem = { version = "=0.3.4", features = ["getrandom"] }
rand = "0.10"
rand_core = "=0.10.1"
rsa = { version = "=0.9.10", features = ["getrandom"] }
serpent = "=0.6.0"
sha2 = "=0.10.9"
sha3 = "=0.10.9"
sm3 = "=0.4.2"
subtle = "=2.6.1"
windows-sys = { version = "=0.61.2", features = ["Win32_Foundation", "Win32_Security", "Win32_Storage_FileSystem", "Win32_System_Console", "Win32_System_Diagnostics_Debug", "Win32_System_LibraryLoader", "Win32_System_Memory", "Win32_System_Performance", "Win32_System_SystemInformation", "Win32_System_Threading"] }
zeroize = "=1.9.1"
