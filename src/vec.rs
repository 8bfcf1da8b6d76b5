use vstd::prelude::*;
use vstd::utf8::encode_utf8;

use crate::buf::{decode_ascii_to_buf_exact, decode_to_buf_exact};
use crate::error::FromHexError;
use crate::model::{
    ascii_error, ascii_outcome, byte_codes, char_codes, starts_with_0x, text_error, text_outcome,
};
use crate::source::{has_0x_prefix, has_0x_prefix_ascii, lemma_utf8_len};

verus! {

/// The number of bytes that an input of `len` elements is expected to
/// decode to. Only an estimate: it does not check that the digit count is
/// even.
pub open spec fn expected_len(len: int, prefixed: bool) -> int {
    if prefixed {
        (len - 2) / 2
    } else {
        len / 2
    }
}

/// Decodes the hex text `hex`, after an optional `0x`, into a new vector.
///
/// The vector is sized from the byte length of `hex` and filled exactly.
pub fn decode(hex: &str) -> (r: Result<Vec<u8>, FromHexError>)
    ensures
        match text_outcome(
            hex@,
            expected_len(encode_utf8(hex@).len() as int, starts_with_0x(char_codes(hex@))),
            true,
        ) {
            Ok(out) => r matches Ok(v) && v@ == out,
            Err(f) => r == Err::<Vec<u8>, FromHexError>(text_error(hex@, f)),
        },
{
    proof {
        lemma_utf8_len(hex@);
    }
    let len = hex.as_bytes().len();
    let expected = if has_0x_prefix(hex) {
        (len - 2) / 2
    } else {
        len / 2
    };
    let mut v = vec![0u8; expected];
    match decode_to_buf_exact(hex, v.as_mut_slice()) {
        Ok(()) => Ok(v),
        Err(e) => Err(e),
    }
}

/// Decodes the hex byte string `hex`, after an optional `0x`, into a new
/// vector.
///
/// The vector is sized from the length of `hex` and filled exactly.
pub fn decode_ascii(hex: &[u8]) -> (r: Result<Vec<u8>, FromHexError>)
    ensures
        match ascii_outcome(
            hex@,
            expected_len(hex@.len() as int, starts_with_0x(byte_codes(hex@))),
            true,
        ) {
            Ok(out) => r matches Ok(v) && v@ == out,
            Err(f) => r == Err::<Vec<u8>, FromHexError>(ascii_error(hex@, f)),
        },
{
    let expected = if has_0x_prefix_ascii(hex) {
        (hex.len() - 2) / 2
    } else {
        hex.len() / 2
    };
    let mut v = vec![0u8; expected];
    match decode_ascii_to_buf_exact(hex, v.as_mut_slice()) {
        Ok(()) => Ok(v),
        Err(e) => Err(e),
    }
}

} // verus!
