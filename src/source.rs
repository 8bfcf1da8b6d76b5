use vstd::prelude::*;
use vstd::utf8::{encode_scalar, encode_utf8};

use crate::digits::{digit_value, hex_digit_value, is_hex_code};
use crate::error::{FromHexError, FromHexErrorKind};
use crate::model::{
    byte_codes, char_codes, pair_at, pair_byte, payload_start, run_stop, starts_with_0x, stop_fault,
    Fault,
};

verus! {

/// A source of positioned hex digits: the elements of one input, read in
/// order, each checked to be a hex digit.
pub trait DigitSource {
    /// The code of each element of the whole input.
    spec fn codes(&self) -> Seq<u32>;

    /// The index of the next element to be read.
    spec fn index(&self) -> int;

    /// What is reported for an element at `i` that is not a hex digit.
    spec fn rejection(&self, i: int) -> FromHexErrorKind;

    /// The source is in a state from which reading can go on.
    spec fn wf(&self) -> bool;

    /// The index stays within the input, whose length fits a `usize`.
    proof fn lemma_wf(&self)
        requires
            self.wf(),
        ensures
            0 <= self.index() <= self.codes().len() <= usize::MAX,
    ;

    /// Reads the next element as a hex digit, giving its position and value.
    fn next_digit(&mut self) -> (r: Result<Option<(usize, u8)>, FromHexError>)
        requires
            old(self).wf(),
        ensures
            final(self).wf(),
            final(self).codes() == old(self).codes(),
            forall|i: int| #[trigger] final(self).rejection(i) == old(self).rejection(i),
            ({
                let i = old(self).index();
                let codes = old(self).codes();
                if i >= codes.len() {
                    r == Ok::<Option<(usize, u8)>, FromHexError>(None) && final(self).index() == i
                } else if is_hex_code(codes[i]) {
                    &&& r == Ok::<Option<(usize, u8)>, FromHexError>(
                        Some((i as usize, digit_value(codes[i]) as u8)),
                    )
                    &&& final(self).index() == i + 1
                } else {
                    r == Err::<Option<(usize, u8)>, FromHexError>(
                        FromHexError { position: i as usize, kind: old(self).rejection(i) },
                    )
                }
            }),
    ;
}

/// The error value that reports `f` for input read from `source`.
pub open spec fn fault_error<S: DigitSource>(source: &S, f: Fault) -> FromHexError {
    match f {
        Fault::Unexpected(p) => FromHexError { position: p as usize, kind: source.rejection(p) },
        Fault::Eof(p) => FromHexError { position: p as usize, kind: FromHexErrorKind::Eof },
        Fault::TooShort(p) => FromHexError {
            position: p as usize,
            kind: FromHexErrorKind::OutputBufferTooShort,
        },
    }
}

/// Reads the next pair of digits from `source`: the position of its second
/// digit and the byte it spells.
pub fn next_pair<S: DigitSource>(source: &mut S) -> (r: Result<Option<(usize, u8)>, FromHexError>)
    requires
        old(source).wf(),
    ensures
        final(source).wf(),
        final(source).codes() == old(source).codes(),
        forall|i: int| #[trigger] final(source).rejection(i) == old(source).rejection(i),
        ({
            let c = old(source).index();
            let codes = old(source).codes();
            if c >= codes.len() {
                r == Ok::<Option<(usize, u8)>, FromHexError>(None) && final(source).index() == c
            } else if pair_at(codes, c) {
                &&& r == Ok::<Option<(usize, u8)>, FromHexError>(
                    Some(((c + 1) as usize, pair_byte(codes, c))),
                )
                &&& final(source).index() == c + 2
            } else {
                r == Err::<Option<(usize, u8)>, FromHexError>(
                    fault_error(old(source), stop_fault(codes, run_stop(codes, c))),
                )
            }
        }),
{
    proof {
        source.lemma_wf();
    }
    let (first_pos, v1) = match source.next_digit() {
        Ok(Some(t)) => t,
        Ok(None) => return Ok(None),
        Err(e) => return Err(e),
    };
    proof {
        source.lemma_wf();
    }
    let (second_pos, v2) = match source.next_digit() {
        Ok(Some(t)) => t,
        Ok(None) => {
            return Err(FromHexError { position: first_pos + 1, kind: FromHexErrorKind::Eof });
        },
        Err(e) => return Err(e),
    };
    Ok(Some((second_pos, v1 * 16 + v2)))
}

/// The characters of a text, each at its index.
///
/// The text is read through its UTF-8 bytes. A character is read only after
/// all characters before it were read as hex digits, hence ASCII, so up to
/// there bytes and characters line up one to one, and the index of a
/// character is also its byte offset in the text.
pub struct CharDigits<'a> {
    text: &'a str,
    bytes: &'a [u8],
    index: usize,
}

impl<'a> CharDigits<'a> {
    /// A source over all characters of `s`.
    pub fn new(s: &'a str) -> (r: Self)
        ensures
            r.wf(),
            r.codes() == char_codes(s@),
            forall|i: int| #[trigger] r.rejection(i) == FromHexErrorKind::UnexpectedCharacter(s@[i]),
            r.index() == 0,
    {
        CharDigits { text: s, bytes: s.as_bytes(), index: 0 }
    }

    /// A source over the characters of `s` after an optional `0x` prefix.
    pub fn payload(s: &'a str) -> (r: Self)
        ensures
            r.wf(),
            r.codes() == char_codes(s@),
            forall|i: int| #[trigger] r.rejection(i) == FromHexErrorKind::UnexpectedCharacter(s@[i]),
            r.index() == payload_start(char_codes(s@)),
    {
        let index: usize = if has_0x_prefix(s) {
            2
        } else {
            0
        };
        CharDigits { text: s, bytes: s.as_bytes(), index }
    }
}

impl<'a> DigitSource for CharDigits<'a> {
    closed spec fn codes(&self) -> Seq<u32> {
        char_codes(self.text@)
    }

    closed spec fn index(&self) -> int {
        self.index as int
    }

    closed spec fn rejection(&self, i: int) -> FromHexErrorKind {
        FromHexErrorKind::UnexpectedCharacter(self.text@[i])
    }

    closed spec fn wf(&self) -> bool {
        &&& self.bytes@ == encode_utf8(self.text@)
        &&& self.index <= self.text@.len()
        &&& ascii_before(self.text@, self.index as int)
    }

    proof fn lemma_wf(&self) {
        lemma_utf8_len(self.text@);
        assert(self.bytes.len() == self.bytes@.len());
    }

    fn next_digit(&mut self) -> (r: Result<Option<(usize, u8)>, FromHexError>) {
        let position = self.index;
        proof {
            lemma_ascii_prefix(self.text@, position as int);
        }
        if position >= self.bytes.len() {
            return Ok(None);
        }
        let b = self.bytes[position];
        match hex_digit_value(b as u32) {
            Some(v) => {
                assert(position < self.text@.len());
                self.index = position + 1;
                Ok(Some((position, v)))
            },
            None => {
                let c = self.text.get_char(position);
                Err(FromHexError { position, kind: FromHexErrorKind::UnexpectedCharacter(c) })
            },
        }
    }
}

/// The characters before index `k` are all ASCII.
pub open spec fn ascii_before(s: Seq<char>, k: int) -> bool {
    forall|j: int| 0 <= j < k ==> (#[trigger] s[j] as u32) < 0x80
}

/// Each character takes at least one byte in UTF-8.
pub proof fn lemma_utf8_len(s: Seq<char>)
    ensures
        encode_utf8(s).len() >= s.len(),
    decreases s.len(),
{
    if s.len() > 0 {
        lemma_first_byte(s[0]);
        lemma_utf8_len(s.drop_first());
    }
}

/// The first byte of a character's UTF-8 encoding is the character itself
/// when it is ASCII, and at least `0x80` otherwise.
proof fn lemma_first_byte(c: char)
    ensures
        encode_scalar(c as u32).len() >= 1,
        (c as u32) < 0x80 ==> encode_scalar(c as u32) == seq![(c as u32) as u8],
        (c as u32) >= 0x80 ==> encode_scalar(c as u32)[0] >= 0x80,
{
    let v = c as u32;
    if v < 0x80 {
        assert((v & 0x7F) as u8 == v as u8) by (bit_vector)
            requires
                v < 0x80,
        ;
    } else {
        let x2 = ((v >> 6) & 0x1F) as u8;
        let x3 = ((v >> 12) & 0x0F) as u8;
        let x4 = ((v >> 18) & 0x7) as u8;
        assert(0xC0 | x2 >= 0x80) by (bit_vector);
        assert(0xE0 | x3 >= 0x80) by (bit_vector);
        assert(0xF0 | x4 >= 0x80) by (bit_vector);
    }
}

/// Where the first `k` characters are ASCII, the first `k` bytes of the
/// UTF-8 encoding are those characters, and the byte at `k` is ASCII exactly
/// when the character at `k` is, and is then that character.
pub proof fn lemma_ascii_prefix(s: Seq<char>, k: int)
    requires
        0 <= k <= s.len(),
        ascii_before(s, k),
    ensures
        k == s.len() <==> encode_utf8(s).len() == k,
        k < s.len() ==> encode_utf8(s).len() > k,
        forall|j: int| 0 <= j < k ==> (#[trigger] encode_utf8(s)[j]) as u32 == s[j] as u32,
        k < s.len() ==> ((encode_utf8(s)[k] < 0x80) <==> ((s[k] as u32) < 0x80)),
        k < s.len() && (s[k] as u32) < 0x80 ==> encode_utf8(s)[k] as u32 == s[k] as u32,
    decreases k,
{
    lemma_utf8_len(s);
    if s.len() > 0 {
        lemma_first_byte(s[0]);
        let rest = s.drop_first();
        lemma_utf8_len(rest);
        if k > 0 {
            assert(ascii_before(rest, k - 1)) by {
                assert forall|j: int| 0 <= j < k - 1 implies (#[trigger] rest[j] as u32) < 0x80 by {
                    assert(rest[j] == s[j + 1]);
                }
            }
            lemma_ascii_prefix(rest, k - 1);
            assert forall|j: int| 0 <= j < k implies (#[trigger] encode_utf8(s)[j]) as u32 == s[j] as u32 by {
                if j > 0 {
                    assert(encode_utf8(s)[j] == encode_utf8(rest)[j - 1]);
                    assert(s[j] == rest[j - 1]);
                }
            }
        }
    }
}

/// The bytes of a byte string, each at its index.
pub struct ByteDigits<'a> {
    bytes: &'a [u8],
    index: usize,
}

impl<'a> ByteDigits<'a> {
    /// A source over all bytes of `b`.
    pub fn new(b: &'a [u8]) -> (r: Self)
        ensures
            r.wf(),
            r.codes() == byte_codes(b@),
            forall|i: int| #[trigger] r.rejection(i) == FromHexErrorKind::UnexpectedByte(b@[i]),
            r.index() == 0,
    {
        ByteDigits { bytes: b, index: 0 }
    }

    /// A source over the bytes of `b` after an optional `0x` prefix.
    pub fn payload(b: &'a [u8]) -> (r: Self)
        ensures
            r.wf(),
            r.codes() == byte_codes(b@),
            forall|i: int| #[trigger] r.rejection(i) == FromHexErrorKind::UnexpectedByte(b@[i]),
            r.index() == payload_start(byte_codes(b@)),
    {
        let index: usize = if has_0x_prefix_ascii(b) {
            2
        } else {
            0
        };
        ByteDigits { bytes: b, index }
    }
}

impl<'a> DigitSource for ByteDigits<'a> {
    closed spec fn codes(&self) -> Seq<u32> {
        byte_codes(self.bytes@)
    }

    closed spec fn index(&self) -> int {
        self.index as int
    }

    closed spec fn rejection(&self, i: int) -> FromHexErrorKind {
        FromHexErrorKind::UnexpectedByte(self.bytes@[i])
    }

    closed spec fn wf(&self) -> bool {
        self.index <= self.bytes@.len()
    }

    proof fn lemma_wf(&self) {
        assert(self.bytes.len() == self.bytes@.len());
    }

    fn next_digit(&mut self) -> (r: Result<Option<(usize, u8)>, FromHexError>) {
        let position = self.index;
        if position >= self.bytes.len() {
            return Ok(None);
        }
        let b = self.bytes[position];
        self.index = self.index + 1;
        match hex_digit_value(b as u32) {
            Some(v) => Ok(Some((position, v))),
            None => Err(FromHexError { position, kind: FromHexErrorKind::UnexpectedByte(b) }),
        }
    }
}

/// Whether the text `s` starts with `0x`.
pub fn has_0x_prefix(s: &str) -> (r: bool)
    ensures
        r == starts_with_0x(char_codes(s@)),
        r == (payload_start(char_codes(s@)) == 2),
{
    let b = s.as_bytes();
    proof {
        lemma_ascii_prefix(s@, 0);
        if s@.len() >= 1 && (s@[0] as u32) < 0x80 {
            lemma_ascii_prefix(s@, 1);
        }
    }
    b.len() >= 2 && b[0] == 0x30 && b[1] == 0x78
}

/// Whether the byte string `b` starts with `0x`.
pub fn has_0x_prefix_ascii(b: &[u8]) -> (r: bool)
    ensures
        r == starts_with_0x(byte_codes(b@)),
        r == (payload_start(byte_codes(b@)) == 2),
{
    b.len() >= 2 && b[0] == 0x30 && b[1] == 0x78
}

} // verus!
