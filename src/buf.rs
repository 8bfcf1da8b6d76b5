use vstd::prelude::*;

use crate::error::{FromHexError, FromHexErrorKind};
use crate::model::{
    ascii_error, ascii_outcome, decode_outcome, decoded_run, last_pair_position, lemma_run_len,
    lemma_run_step, partial_fill, payload_start, run_stop, text_error, text_outcome, byte_codes,
    char_codes,
};
use crate::source::{fault_error, next_pair, ByteDigits, CharDigits, DigitSource};

verus! {

/// Decodes the digit pairs of `source` into `dst`. With `exact`, the input
/// must fill `dst`; otherwise it may fill only a prefix of it. On failure,
/// the pairs decoded before the fault stay written, as far as they fit.
fn decode_into<S: DigitSource>(source: &mut S, dst: &mut [u8], exact: bool) -> (r: Result<
    usize,
    FromHexError,
>)
    requires
        old(source).wf(),
    ensures
        match decode_outcome(old(source).codes(), old(source).index(), old(dst)@.len() as int, exact) {
            Ok(out) => {
                &&& r == Ok::<usize, FromHexError>(out.len() as usize)
                &&& final(dst)@ == out + old(dst)@.skip(out.len() as int)
            },
            Err(f) => {
                &&& r == Err::<usize, FromHexError>(fault_error(old(source), f))
                &&& final(dst)@ == partial_fill(decoded_run(old(source).codes(), old(source).index()), old(dst)@)
            },
        },
{
    let ghost source0 = *source;
    let ghost codes = source.codes();
    let ghost start = source.index();
    let ghost dst0 = dst@;
    let mut off: usize = 0;
    let mut last_position: usize = 0;
    proof {
        source.lemma_wf();
    }
    loop
        invariant
            source.wf(),
            source.codes() == codes,
            codes == source0.codes(),
            source0 == *old(source),
            start == source0.index(),
            dst0 == old(dst)@,
            forall|i: int| #[trigger] source.rejection(i) == source0.rejection(i),
            0 <= start <= codes.len() <= usize::MAX,
            source.index() == start + 2 * off,
            source.index() <= codes.len(),
            off <= dst@.len(),
            dst@.len() == dst0.len(),
            decoded_run(codes, start) == dst@.take(off as int) + decoded_run(codes, source.index()),
            run_stop(codes, start) == run_stop(codes, source.index()),
            last_position == last_pair_position(start, off as int),
            dst@.skip(off as int) == dst0.skip(off as int),
        decreases codes.len() - source.index(),
    {
        let ghost c = source.index();
        proof {
            lemma_run_len(codes, c);
        }
        match next_pair(source) {
            Ok(Some((position, byte))) => {
                proof {
                    lemma_run_step(codes, c);
                    source.lemma_wf();
                }
                if off >= dst.len() {
                    proof {
                        lemma_run_len(codes, start);
                        assert(decoded_run(codes, start).take(off as int) =~= dst@.take(off as int));
                        assert(dst@ =~= dst@.take(off as int) + dst0.skip(off as int));
                    }
                    return Err(FromHexError { position, kind: FromHexErrorKind::Eof });
                }
                let ghost prev = dst@;
                dst[off] = byte;
                proof {
                    assert(dst@.take(off + 1) =~= prev.take(off as int).push(byte));
                    assert forall|j: int| 0 <= j < dst@.len() - (off + 1) implies #[trigger] dst@.skip(
                        off + 1,
                    )[j] == dst0.skip(off + 1)[j] by {
                        assert(prev.skip(off as int)[j + 1] == dst0.skip(off as int)[j + 1]);
                    }
                    assert(dst@.skip(off + 1) =~= dst0.skip(off + 1));
                }
                off = off + 1;
                last_position = position;
            },
            Ok(None) => {
                proof {
                    assert(dst@.take(off as int) + decoded_run(codes, c) =~= dst@.take(off as int));
                    assert(dst@ =~= dst@.take(off as int) + dst0.skip(off as int));
                    assert(decoded_run(codes, start).take(off as int) =~= dst@.take(off as int));
                }
                if exact && off < dst.len() {
                    return Err(
                        FromHexError {
                            position: last_position,
                            kind: FromHexErrorKind::OutputBufferTooShort,
                        },
                    );
                }
                return Ok(off);
            },
            Err(e) => {
                proof {
                    assert(dst@.take(off as int) + decoded_run(codes, c) =~= dst@.take(off as int));
                    assert(decoded_run(codes, start).take(off as int) =~= dst@.take(off as int));
                    assert(dst@ =~= dst@.take(off as int) + dst0.skip(off as int));
                }
                return Err(e);
            },
        }
    }
}

/// Decodes the hex text `hex`, after an optional `0x`, into the start of
/// `dst`, and returns the number of bytes written. The rest of `dst` is left
/// as it was.
///
/// Accepts lower, upper and mixed case digits. Neither allocates nor panics.
/// On failure, the bytes decoded before the fault stay in `dst`, as far as
/// they fit, and the rest of `dst` is left as it was.
/// A position in an error counts characters; only ASCII characters ever
/// stand before it, so it is also the byte offset in `hex`.
pub fn decode_to_buf(hex: &str, dst: &mut [u8]) -> (r: Result<usize, FromHexError>)
    ensures
        match text_outcome(hex@, old(dst)@.len() as int, false) {
            Ok(out) => {
                &&& r == Ok::<usize, FromHexError>(out.len() as usize)
                &&& final(dst)@ == out + old(dst)@.skip(out.len() as int)
            },
            Err(f) => {
                &&& r == Err::<usize, FromHexError>(text_error(hex@, f))
                &&& final(dst)@ == partial_fill(
                    decoded_run(char_codes(hex@), payload_start(char_codes(hex@))),
                    old(dst)@,
                )
            },
        },
{
    decode_into(&mut CharDigits::payload(hex), dst, false)
}

/// Like [`decode_to_buf`], but fails unless the input fills all of `dst`.
pub fn decode_to_buf_exact(hex: &str, dst: &mut [u8]) -> (r: Result<(), FromHexError>)
    ensures
        match text_outcome(hex@, old(dst)@.len() as int, true) {
            Ok(out) => r == Ok::<(), FromHexError>(()) && final(dst)@ == out,
            Err(f) => {
                &&& r == Err::<(), FromHexError>(text_error(hex@, f))
                &&& final(dst)@ == partial_fill(
                    decoded_run(char_codes(hex@), payload_start(char_codes(hex@))),
                    old(dst)@,
                )
            },
        },
{
    match decode_into(&mut CharDigits::payload(hex), dst, true) {
        Ok(_) => {
            proof {
                assert(dst@ =~= dst@.take(dst@.len() as int));
            }
            Ok(())
        },
        Err(e) => Err(e),
    }
}

/// Decodes the hex byte string `hex`, after an optional `0x`, into the start
/// of `dst`, and returns the number of bytes written. The rest of `dst` is
/// left as it was.
///
/// `hex` need not be ASCII or UTF-8, though only ASCII can be valid hex.
/// Neither allocates nor panics. On failure, the bytes decoded before the
/// fault stay in `dst`, as far as they fit, and the rest is left as it was.
pub fn decode_ascii_to_buf(hex: &[u8], dst: &mut [u8]) -> (r: Result<usize, FromHexError>)
    ensures
        match ascii_outcome(hex@, old(dst)@.len() as int, false) {
            Ok(out) => {
                &&& r == Ok::<usize, FromHexError>(out.len() as usize)
                &&& final(dst)@ == out + old(dst)@.skip(out.len() as int)
            },
            Err(f) => {
                &&& r == Err::<usize, FromHexError>(ascii_error(hex@, f))
                &&& final(dst)@ == partial_fill(
                    decoded_run(byte_codes(hex@), payload_start(byte_codes(hex@))),
                    old(dst)@,
                )
            },
        },
{
    decode_into(&mut ByteDigits::payload(hex), dst, false)
}

/// Like [`decode_ascii_to_buf`], but fails unless the input fills all of `dst`.
pub fn decode_ascii_to_buf_exact(hex: &[u8], dst: &mut [u8]) -> (r: Result<(), FromHexError>)
    ensures
        match ascii_outcome(hex@, old(dst)@.len() as int, true) {
            Ok(out) => r == Ok::<(), FromHexError>(()) && final(dst)@ == out,
            Err(f) => {
                &&& r == Err::<(), FromHexError>(ascii_error(hex@, f))
                &&& final(dst)@ == partial_fill(
                    decoded_run(byte_codes(hex@), payload_start(byte_codes(hex@))),
                    old(dst)@,
                )
            },
        },
{
    match decode_into(&mut ByteDigits::payload(hex), dst, true) {
        Ok(_) => {
            proof {
                assert(dst@ =~= dst@.take(dst@.len() as int));
            }
            Ok(())
        },
        Err(e) => Err(e),
    }
}

} // verus!
