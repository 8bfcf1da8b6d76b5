use vstd::prelude::*;

use crate::digits::{nibble_char, nibble_to_char};
use crate::text::{decimal, push_char, push_decimal, push_str};

verus! {

/// What went wrong while decoding hex.
#[derive(Debug, Clone, Copy, PartialEq, Eq, Structural)]
pub enum FromHexErrorKind {
    /// A character of text input that is not a hex digit.
    UnexpectedCharacter(char),
    /// A byte of byte input that is not a hex digit.
    UnexpectedByte(u8),
    /// The input ended inside a pair of digits, or held more pairs than the
    /// destination could take.
    Eof,
    /// The input ended before the destination was filled.
    OutputBufferTooShort,
}

/// An error encountered while decoding a hex string: what went wrong, and at
/// which offset of the original input.
#[derive(Debug, Clone, Copy, PartialEq, Eq, Structural)]
pub struct FromHexError {
    pub position: usize,
    pub kind: FromHexErrorKind,
}

/// The text that describes an error kind.
pub open spec fn kind_message(kind: FromHexErrorKind) -> Seq<char> {
    match kind {
        FromHexErrorKind::UnexpectedCharacter(c) => "unexpected character "@ + seq![c],
        FromHexErrorKind::UnexpectedByte(b) => "unexpected byte 0x"@ + seq![
            nibble_char(b as int / 16, false),
            nibble_char(b as int % 16, false),
        ],
        FromHexErrorKind::Eof => "unexpected end of input"@,
        FromHexErrorKind::OutputBufferTooShort => "output buffer is too short"@,
    }
}

/// The text that describes an error.
pub open spec fn error_message(e: FromHexError) -> Seq<char> {
    "error converting from hex: "@ + kind_message(e.kind) + " at position "@ + decimal(
        e.position as nat,
    )
}

impl FromHexErrorKind {
    /// Appends the description of this kind to `out`.
    pub fn write_to(&self, out: &mut String)
        ensures
            final(out)@ == old(out)@ + kind_message(*self),
    {
        match *self {
            FromHexErrorKind::UnexpectedCharacter(c) => {
                push_str(out, "unexpected character ");
                push_char(out, c);
            },
            FromHexErrorKind::UnexpectedByte(b) => {
                push_str(out, "unexpected byte 0x");
                push_char(out, nibble_to_char(b / 16, false));
                push_char(out, nibble_to_char(b % 16, false));
            },
            FromHexErrorKind::Eof => push_str(out, "unexpected end of input"),
            FromHexErrorKind::OutputBufferTooShort => push_str(out, "output buffer is too short"),
        }
        assert(out@ =~= old(out)@ + kind_message(*self));
    }

    /// The description of this kind.
    pub fn to_string(&self) -> (r: String)
        ensures
            r@ == kind_message(*self),
    {
        let mut out = String::new();
        self.write_to(&mut out);
        assert(out@ =~= kind_message(*self));
        out
    }
}

impl FromHexError {
    /// The description of this error: its kind and position.
    pub fn to_string(&self) -> (r: String)
        ensures
            r@ == error_message(*self),
    {
        let mut out = String::new();
        push_str(&mut out, "error converting from hex: ");
        self.kind.write_to(&mut out);
        push_str(&mut out, " at position ");
        push_decimal(&mut out, self.position);
        assert(out@ =~= error_message(*self));
        out
    }
}

} // verus!
