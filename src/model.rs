use vstd::prelude::*;

use crate::digits::{digit_value, is_hex_code};
use crate::error::{FromHexError, FromHexErrorKind};

verus! {

/// Where a scan of digit pairs comes to a halt.
pub enum Stop {
    /// The input ended after a whole number of pairs.
    End,
    /// The element at this index is not a hex digit.
    Unexpected(int),
    /// One digit was left over at the end of the input.
    Truncated,
}

/// A decoding failure, with the position at which it is reported.
pub enum Fault {
    /// The element at this index is not a hex digit.
    Unexpected(int),
    /// The input ended inside a pair, or the destination overflowed.
    Eof(int),
    /// The input ended before the destination was filled.
    TooShort(int),
}

/// The code of each character of a text.
pub open spec fn char_codes(s: Seq<char>) -> Seq<u32> {
    s.map_values(|c: char| c as u32)
}

/// The code of each byte of a byte string.
pub open spec fn byte_codes(b: Seq<u8>) -> Seq<u32> {
    b.map_values(|x: u8| x as u32)
}

/// The input opens with the two elements `0x`.
pub open spec fn starts_with_0x(codes: Seq<u32>) -> bool {
    codes.len() >= 2 && codes[0] == 0x30 && codes[1] == 0x78
}

/// Index of the first element after an optional `0x` prefix.
pub open spec fn payload_start(codes: Seq<u32>) -> int {
    if starts_with_0x(codes) {
        2
    } else {
        0
    }
}

/// Elements `i` and `i + 1` exist and are both hex digits.
pub open spec fn pair_at(codes: Seq<u32>, i: int) -> bool {
    0 <= i && i + 1 < codes.len() && is_hex_code(codes[i]) && is_hex_code(codes[i + 1])
}

/// The byte spelled by the digits at `i` (high nibble) and `i + 1` (low nibble).
pub open spec fn pair_byte(codes: Seq<u32>, i: int) -> u8 {
    (digit_value(codes[i]) * 16 + digit_value(codes[i + 1])) as u8
}

/// The bytes of the longest run of whole digit pairs that starts at `i`.
pub open spec fn decoded_run(codes: Seq<u32>, i: int) -> Seq<u8>
    decreases codes.len() - i,
{
    if pair_at(codes, i) {
        seq![pair_byte(codes, i)] + decoded_run(codes, i + 2)
    } else {
        Seq::empty()
    }
}

/// Why the run of digit pairs that starts at `i` ends.
pub open spec fn run_stop(codes: Seq<u32>, i: int) -> Stop
    decreases codes.len() - i,
{
    if i < 0 || i >= codes.len() {
        Stop::End
    } else if !is_hex_code(codes[i]) {
        Stop::Unexpected(i)
    } else if i + 1 >= codes.len() {
        Stop::Truncated
    } else if !is_hex_code(codes[i + 1]) {
        Stop::Unexpected(i + 1)
    } else {
        run_stop(codes, i + 2)
    }
}

/// The failure that a halt other than `End` reports. A left-over digit is
/// reported just after itself, at the end of the input.
pub open spec fn stop_fault(codes: Seq<u32>, stop: Stop) -> Fault {
    match stop {
        Stop::Unexpected(p) => Fault::Unexpected(p),
        _ => Fault::Eof(codes.len() as int),
    }
}

/// Position of the second digit of the `n`-th pair read from `start`, or 0
/// before the first pair.
pub open spec fn last_pair_position(start: int, n: int) -> int {
    if n == 0 {
        0
    } else {
        start + 2 * n - 1
    }
}

/// The outcome of decoding the pairs from `start` into a destination of `cap`
/// bytes. With `exact`, the destination must be filled.
///
/// A run longer than the destination fails at the second digit of the first
/// pair that does not fit, before anything after that pair is looked at.
pub open spec fn decode_outcome(codes: Seq<u32>, start: int, cap: int, exact: bool) -> Result<
    Seq<u8>,
    Fault,
> {
    let out = decoded_run(codes, start);
    if out.len() > cap {
        Err(Fault::Eof(start + 2 * cap + 1))
    } else {
        match run_stop(codes, start) {
            Stop::End => if exact && out.len() < cap {
                Err(Fault::TooShort(last_pair_position(start, out.len() as int)))
            } else {
                Ok(out)
            },
            stop => Err(stop_fault(codes, stop)),
        }
    }
}

/// A destination `dst` after the bytes of `run` were written into its start
/// for as long as they fit, the rest left as it was.
pub open spec fn partial_fill(run: Seq<u8>, dst: Seq<u8>) -> Seq<u8> {
    let k = if run.len() <= dst.len() {
        run.len() as int
    } else {
        dst.len() as int
    };
    run.take(k) + dst.skip(k)
}

/// The outcome of decoding text into `cap` bytes, after an optional `0x`.
pub open spec fn text_outcome(s: Seq<char>, cap: int, exact: bool) -> Result<Seq<u8>, Fault> {
    decode_outcome(char_codes(s), payload_start(char_codes(s)), cap, exact)
}

/// The outcome of decoding a byte string into `cap` bytes, after an optional `0x`.
pub open spec fn ascii_outcome(b: Seq<u8>, cap: int, exact: bool) -> Result<Seq<u8>, Fault> {
    decode_outcome(byte_codes(b), payload_start(byte_codes(b)), cap, exact)
}

/// The error value that reports `f` for the text `s`.
pub open spec fn text_error(s: Seq<char>, f: Fault) -> FromHexError {
    match f {
        Fault::Unexpected(p) => FromHexError {
            position: p as usize,
            kind: FromHexErrorKind::UnexpectedCharacter(s[p]),
        },
        Fault::Eof(p) => FromHexError { position: p as usize, kind: FromHexErrorKind::Eof },
        Fault::TooShort(p) => FromHexError {
            position: p as usize,
            kind: FromHexErrorKind::OutputBufferTooShort,
        },
    }
}

/// The error value that reports `f` for the byte string `b`.
pub open spec fn ascii_error(b: Seq<u8>, f: Fault) -> FromHexError {
    match f {
        Fault::Unexpected(p) => FromHexError {
            position: p as usize,
            kind: FromHexErrorKind::UnexpectedByte(b[p]),
        },
        Fault::Eof(p) => FromHexError { position: p as usize, kind: FromHexErrorKind::Eof },
        Fault::TooShort(p) => FromHexError {
            position: p as usize,
            kind: FromHexErrorKind::OutputBufferTooShort,
        },
    }
}

/// A run goes on past a pair at its start.
pub proof fn lemma_run_step(codes: Seq<u32>, i: int)
    requires
        pair_at(codes, i),
    ensures
        decoded_run(codes, i) == seq![pair_byte(codes, i)] + decoded_run(codes, i + 2),
        run_stop(codes, i) == run_stop(codes, i + 2),
{
}

/// A run never reaches past the end of the input.
pub proof fn lemma_run_len(codes: Seq<u32>, i: int)
    requires
        0 <= i <= codes.len(),
    ensures
        i + 2 * decoded_run(codes, i).len() <= codes.len(),
        run_stop(codes, i) is End ==> i + 2 * decoded_run(codes, i).len() == codes.len(),
        run_stop(codes, i) matches Stop::Unexpected(p) ==> i + 2 * decoded_run(codes, i).len() <= p
            < codes.len() && !is_hex_code(codes[p]),
    decreases codes.len() - i,
{
    if pair_at(codes, i) {
        lemma_run_len(codes, i + 2);
    }
}

} // verus!
