//! Hexadecimal text to bytes, and bytes to padded Base64 text.
//!
//! Two pure functions make up the library: [`hex_to_bytes`] reads a string of
//! hexadecimal digit pairs into the bytes it spells, and [`bytes_to_base64`]
//! writes a byte sequence as Base64 text over the standard alphabet with `=`
//! padding. Both are verified against the mathematical descriptions in the
//! modules `hex` and `base64`.

pub mod base64;
pub mod error;
pub mod hex;

pub use crate::base64::bytes_to_base64;
pub use crate::error::DecodeHexError;
pub use crate::error::InvalidDigit;
pub use crate::hex::hex_to_bytes;
