//! Transparent encryption of secret files for git: a content-addressed key
//! ring and a compress-then-seal cipher pipeline over armored blobs.
pub mod cipher;
pub mod codec;
pub mod config;
pub mod error;
pub mod key_ring;
