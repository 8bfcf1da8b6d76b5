//! Conversion between bytes and their hexadecimal text.
//!
//! Decoding writes into a buffer that the caller owns, from text or from a
//! byte string, with or without a leading `0x`, and reports the first fault
//! with its position. Encoding renders bytes as two digits each, in either
//! case, with or without the prefix.

pub mod buf;
pub mod digits;
pub mod encode;
pub mod error;
pub mod laws;
pub mod model;
pub mod source;
pub mod streaming;
pub mod text;
pub mod vec;

pub use buf::{decode_ascii_to_buf, decode_ascii_to_buf_exact, decode_to_buf, decode_to_buf_exact};
pub use encode::{AsByteSlice, Case, DisplayOptions, Hex};
pub use error::{FromHexError, FromHexErrorKind};
pub use source::{has_0x_prefix, has_0x_prefix_ascii};
pub use streaming::{HexDecodeAsciiIterator, HexDecodeIterator};
pub use vec::{decode, decode_ascii};
