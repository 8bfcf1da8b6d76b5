use vstd::prelude::*;

use crate::error::{FromHexError, FromHexErrorKind};
use crate::model::{
    ascii_error, byte_codes, char_codes, pair_at, pair_byte, run_stop, stop_fault, text_error,
};
use crate::source::{next_pair, ByteDigits, CharDigits, DigitSource};

verus! {

/// Decodes hex text one byte at a time. Lower, upper and mixed case digits are
/// accepted; a leading `0x` is not.
pub struct HexDecodeIterator<'a> {
    source: CharDigits<'a>,
    text: Ghost<Seq<char>>,
}

impl<'a> HexDecodeIterator<'a> {
    /// The whole text being decoded.
    pub closed spec fn text(&self) -> Seq<char> {
        self.text@
    }

    /// The index of the next character to be read.
    pub closed spec fn index(&self) -> int {
        self.source.index()
    }

    /// The iterator was made by `new` and changed only by `next`.
    pub closed spec fn wf(&self) -> bool {
        &&& self.source.wf()
        &&& self.source.codes() == char_codes(self.text@)
        &&& forall|i: int| #[trigger]
            self.source.rejection(i) == FromHexErrorKind::UnexpectedCharacter(self.text@[i])
    }

    /// An iterator over the bytes spelled by the text `hex`.
    pub fn new(hex: &'a str) -> (r: Self)
        ensures
            r.wf(),
            r.text() == hex@,
            r.index() == 0,
    {
        HexDecodeIterator { source: CharDigits::new(hex), text: Ghost(hex@) }
    }

    /// Decodes the next two characters into a byte; `None` at the end of
    /// the text.
    pub fn next(&mut self) -> (r: Result<Option<u8>, FromHexError>)
        requires
            old(self).wf(),
        ensures
            final(self).wf(),
            final(self).text() == old(self).text(),
            0 <= final(self).index() <= final(self).text().len(),
            ({
                let c = old(self).index();
                let codes = char_codes(old(self).text());
                if c >= codes.len() {
                    r == Ok::<Option<u8>, FromHexError>(None) && final(self).index() == c
                } else if pair_at(codes, c) {
                    &&& r == Ok::<Option<u8>, FromHexError>(Some(pair_byte(codes, c)))
                    &&& final(self).index() == c + 2
                } else {
                    r == Err::<Option<u8>, FromHexError>(
                        text_error(old(self).text(), stop_fault(codes, run_stop(codes, c))),
                    )
                }
            }),
    {
        let r = next_pair(&mut self.source);
        proof {
            self.source.lemma_wf();
        }
        match r {
            Ok(Some((_, byte))) => Ok(Some(byte)),
            Ok(None) => Ok(None),
            Err(e) => Err(e),
        }
    }
}

/// Decodes a hex byte string one byte at a time. Lower, upper and mixed case
/// digits are accepted; a leading `0x` is not. The bytes need not be ASCII
/// or UTF-8, though only ASCII can be valid hex.
pub struct HexDecodeAsciiIterator<'a> {
    source: ByteDigits<'a>,
    bytes: Ghost<Seq<u8>>,
    last_position: usize,
}

impl<'a> HexDecodeAsciiIterator<'a> {
    /// The whole byte string being decoded.
    pub closed spec fn bytes(&self) -> Seq<u8> {
        self.bytes@
    }

    /// The index of the next byte to be read.
    pub closed spec fn index(&self) -> int {
        self.source.index()
    }

    /// The position of the second digit of the last pair decoded, or 0.
    pub closed spec fn last_pos(&self) -> usize {
        self.last_position
    }

    /// The iterator was made by `new` and changed only by `next`.
    pub closed spec fn wf(&self) -> bool {
        &&& self.source.wf()
        &&& self.source.codes() == byte_codes(self.bytes@)
        &&& forall|i: int| #[trigger]
            self.source.rejection(i) == FromHexErrorKind::UnexpectedByte(self.bytes@[i])
    }

    /// An iterator over the bytes spelled by the byte string `hex`.
    pub fn new(hex: &'a [u8]) -> (r: Self)
        ensures
            r.wf(),
            r.bytes() == hex@,
            r.index() == 0,
            r.last_pos() == 0,
    {
        HexDecodeAsciiIterator { source: ByteDigits::new(hex), bytes: Ghost(hex@), last_position: 0 }
    }

    /// Decodes the next two bytes into a byte; `None` at the end of the input.
    pub fn next(&mut self) -> (r: Result<Option<u8>, FromHexError>)
        requires
            old(self).wf(),
        ensures
            final(self).wf(),
            final(self).bytes() == old(self).bytes(),
            0 <= final(self).index() <= final(self).bytes().len(),
            ({
                let c = old(self).index();
                let codes = byte_codes(old(self).bytes());
                if c >= codes.len() {
                    &&& r == Ok::<Option<u8>, FromHexError>(None)
                    &&& final(self).index() == c
                    &&& final(self).last_pos() == old(self).last_pos()
                } else if pair_at(codes, c) {
                    &&& r == Ok::<Option<u8>, FromHexError>(Some(pair_byte(codes, c)))
                    &&& final(self).index() == c + 2
                    &&& final(self).last_pos() == c + 1
                } else {
                    &&& r == Err::<Option<u8>, FromHexError>(
                        ascii_error(old(self).bytes(), stop_fault(codes, run_stop(codes, c))),
                    )
                    &&& final(self).last_pos() == old(self).last_pos()
                }
            }),
    {
        proof {
            self.source.lemma_wf();
        }
        let r = next_pair(&mut self.source);
        proof {
            self.source.lemma_wf();
        }
        match r {
            Ok(Some((position, byte))) => {
                self.last_position = position;
                Ok(Some(byte))
            },
            Ok(None) => Ok(None),
            Err(e) => Err(e),
        }
    }

    /// The position of the second digit of the last pair decoded, or 0
    /// before any.
    pub fn last_position(&self) -> (r: usize)
        ensures
            r == self.last_pos(),
    {
        self.last_position
    }
}

} // verus!
