use vstd::prelude::*;

use crate::digits::{nibble_char, nibble_to_char};
use crate::text::push_char;

verus! {

/// Letter case of the hex digits `a-f`.
#[derive(Debug, Clone, Copy, PartialEq, Eq, Structural, Hash, Default)]
pub enum Case {
    #[default]
    Lower,
    Upper,
}

/// Options for displaying bytes as hex.
#[derive(Debug, Clone, Copy, PartialEq, Eq, Structural, Hash, Default)]
pub struct DisplayOptions {
    /// Whether `0x` is put in front. The prefix is always lower case.
    pub with_prefix: bool,
    /// Upper or lower case letters (`A-F` or `a-f`).
    pub case: Case,
}

/// The options used when none are given: no prefix, lower case.
pub open spec fn default_options() -> DisplayOptions {
    DisplayOptions { with_prefix: false, case: Case::Lower }
}

/// Two digits for each byte, high nibble first.
pub open spec fn digits_text(data: Seq<u8>, case: Case) -> Seq<char>
    decreases data.len(),
{
    if data.len() == 0 {
        Seq::empty()
    } else {
        let b = data.last();
        digits_text(data.drop_last(), case) + seq![
            nibble_char(b as int / 16, case == Case::Upper),
            nibble_char(b as int % 16, case == Case::Upper),
        ]
    }
}

/// The hex text of `data` under `options`: `0x` if asked for, then the digits.
pub open spec fn hex_text(data: Seq<u8>, options: DisplayOptions) -> Seq<char> {
    if options.with_prefix {
        seq!['0', 'x'] + digits_text(data, options.case)
    } else {
        digits_text(data, options.case)
    }
}

/// A value that can be read as a slice of bytes.
pub trait AsByteSlice {
    spec fn byte_view(&self) -> Seq<u8>;

    fn as_byte_slice(&self) -> (r: &[u8])
        ensures
            r@ == self.byte_view(),
    ;
}

impl<const N: usize> AsByteSlice for [u8; N] {
    open spec fn byte_view(&self) -> Seq<u8> {
        self@
    }

    fn as_byte_slice(&self) -> (r: &[u8]) {
        self.as_slice()
    }
}

impl<'a, const N: usize> AsByteSlice for &'a [u8; N] {
    open spec fn byte_view(&self) -> Seq<u8> {
        (**self)@
    }

    fn as_byte_slice(&self) -> (r: &[u8]) {
        self.as_slice()
    }
}

impl<'a> AsByteSlice for &'a [u8] {
    open spec fn byte_view(&self) -> Seq<u8> {
        (*self)@
    }

    fn as_byte_slice(&self) -> (r: &[u8]) {
        *self
    }
}

impl AsByteSlice for Vec<u8> {
    open spec fn byte_view(&self) -> Seq<u8> {
        self@
    }

    fn as_byte_slice(&self) -> (r: &[u8]) {
        self.as_slice()
    }
}

impl<'a> AsByteSlice for &'a Vec<u8> {
    open spec fn byte_view(&self) -> Seq<u8> {
        (**self)@
    }

    fn as_byte_slice(&self) -> (r: &[u8]) {
        self.as_slice()
    }
}

/// Bytes to be displayed as hex, with the options to display them by.
/// Nothing is rendered until asked for.
#[derive(Debug, Clone, Copy)]
pub struct Hex<T> {
    options: DisplayOptions,
    data: T,
}

impl<T> Hex<T> {
    pub closed spec fn options(&self) -> DisplayOptions {
        self.options
    }

    pub closed spec fn data(&self) -> T {
        self.data
    }

    /// Uses the given display options.
    pub fn with_options(self, options: DisplayOptions) -> (r: Self)
        ensures
            r.data() == self.data(),
            r.options() == options,
    {
        let mut r = self;
        r.options = options;
        r
    }

    /// Displays with or without the `0x` prefix.
    pub fn with_prefix(self, with_prefix: bool) -> (r: Self)
        ensures
            r.data() == self.data(),
            r.options() == (DisplayOptions { with_prefix, ..self.options() }),
    {
        let mut r = self;
        r.options.with_prefix = with_prefix;
        r
    }

    /// Displays in lower or upper case.
    pub fn with_case(self, case: Case) -> (r: Self)
        ensures
            r.data() == self.data(),
            r.options() == (DisplayOptions { case, ..self.options() }),
    {
        let mut r = self;
        r.options.case = case;
        r
    }
}

impl<T: AsByteSlice> Hex<T> {
    /// Displays `data` with the default options: no prefix, lower case.
    pub fn new(data: T) -> (r: Self)
        ensures
            r.data() == data,
            r.options() == default_options(),
    {
        Self::new_with_options(data, DisplayOptions { with_prefix: false, case: Case::Lower })
    }

    /// Displays `data` with the given options.
    pub fn new_with_options(data: T, options: DisplayOptions) -> (r: Self)
        ensures
            r.data() == data,
            r.options() == options,
    {
        Hex { options, data }
    }

    /// Appends the hex text of the data to `out`.
    pub fn write_to(&self, out: &mut String)
        ensures
            final(out)@ == old(out)@ + hex_text(self.data().byte_view(), self.options()),
    {
        let bytes = self.data.as_byte_slice();
        let upper = match self.options.case {
            Case::Lower => false,
            Case::Upper => true,
        };
        let ghost start = out@;
        if self.options.with_prefix {
            push_char(out, '0');
            push_char(out, 'x');
        }
        let ghost head = out@;
        assert(head == start + (if self.options.with_prefix {
            seq!['0', 'x']
        } else {
            Seq::<char>::empty()
        }));
        let mut i: usize = 0;
        while i < bytes.len()
            invariant
                i <= bytes@.len(),
                upper == (self.options.case == Case::Upper),
                out@ == head + digits_text(bytes@.take(i as int), self.options.case),
            decreases bytes@.len() - i,
        {
            let b = bytes[i];
            push_char(out, nibble_to_char(b / 16, upper));
            push_char(out, nibble_to_char(b % 16, upper));
            proof {
                let next = bytes@.take(i + 1);
                assert(next.drop_last() =~= bytes@.take(i as int));
                assert(next.last() == b);
            }
            i = i + 1;
        }
        proof {
            assert(bytes@.take(i as int) =~= bytes@);
        }
        assert(out@ =~= old(out)@ + hex_text(self.data().byte_view(), self.options()));
    }

    /// The hex text of the data.
    pub fn to_string(&self) -> (r: String)
        ensures
            r@ == hex_text(self.data().byte_view(), self.options()),
    {
        let mut out = String::new();
        self.write_to(&mut out);
        assert(out@ =~= hex_text(self.data().byte_view(), self.options()));
        out
    }
}

} // verus!
