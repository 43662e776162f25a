//! Codec for the PX family of compressed containers (the `PKDPX` and `AT4PX`
//! variants): a bitstream-driven, LZ-style decoder, a naive all-literal
//! encoder, and a magic-based format probe.
//!
//! The functions here work on in-memory byte buffers; reading a buffer from a
//! stream is left to the caller.

pub mod bits;
pub mod decode;
pub mod error;
pub mod flags;
pub mod encode;
pub mod laws;
pub mod model;
pub mod sniff;

pub use decode::decompress_px;
pub use encode::naive_compression;
pub use error::PXError;
pub use sniff::is_px;
