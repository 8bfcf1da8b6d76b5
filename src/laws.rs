use vstd::prelude::*;
use vstd::utf8::{char_u32_cast, encode_utf8};

use crate::digits::{digit_value, is_hex_code, nibble_char};
use crate::encode::{digits_text, hex_text, Case, DisplayOptions};
use crate::model::{
    ascii_outcome, byte_codes, char_codes, decode_outcome, decoded_run, lemma_run_len, pair_at,
    partial_fill,
    pair_byte, payload_start, run_stop, starts_with_0x, text_outcome, Fault, Stop,
};
use crate::source::{ascii_before, lemma_ascii_prefix};
use crate::vec::expected_len;

verus! {

/// `c` is a hex digit: `0-9`, `a-f` or `A-F`.
pub open spec fn is_hex_char(c: char) -> bool {
    is_hex_code(c as u32)
}

/// `s` is an optional `0x` followed by whole pairs of hex digits.
pub open spec fn well_formed_hex(s: Seq<char>) -> bool {
    let start = payload_start(char_codes(s));
    &&& (s.len() - start) % 2 == 0
    &&& forall|j: int| start <= j < s.len() ==> is_hex_char(#[trigger] s[j])
}

/// `c` with `A-Z` turned into `a-z`.
pub open spec fn ascii_lower(c: char) -> char {
    if 0x41 <= (c as u32) <= 0x5A {
        ((c as u32) + 0x20) as char
    } else {
        c
    }
}

/// `s` in lower case.
pub open spec fn lowercase(s: Seq<char>) -> Seq<char> {
    s.map_values(|c: char| ascii_lower(c))
}

/// A nibble's digit reads back as the nibble, is ASCII, is not `x`, and is
/// unchanged in lower case.
proof fn lemma_nibble(n: int, upper: bool)
    requires
        0 <= n < 16,
    ensures
        is_hex_code(nibble_char(n, upper) as u32),
        digit_value(nibble_char(n, upper) as u32) == n,
        (nibble_char(n, upper) as u32) < 0x80,
        nibble_char(n, upper) as u32 != 0x78,
        ascii_lower(nibble_char(n, false)) == nibble_char(n, false),
        ascii_lower(nibble_char(n, upper)) == nibble_char(n, false),
{
}

/// The digits of `data`, element by element.
proof fn lemma_digits_text(data: Seq<u8>, case: Case)
    ensures
        digits_text(data, case).len() == 2 * data.len(),
        forall|k: int|
            #![trigger data[k]]
            0 <= k < data.len() ==> digits_text(data, case)[2 * k] == nibble_char(
                data[k] as int / 16,
                case == Case::Upper,
            ) && digits_text(data, case)[2 * k + 1] == nibble_char(
                data[k] as int % 16,
                case == Case::Upper,
            ),
    decreases data.len(),
{
    if data.len() > 0 {
        let init = data.drop_last();
        lemma_digits_text(init, case);
        assert forall|k: int|
            #![trigger data[k]]
            0 <= k < data.len() implies digits_text(data, case)[2 * k] == nibble_char(
                data[k] as int / 16,
                case == Case::Upper,
            ) && digits_text(data, case)[2 * k + 1] == nibble_char(
                data[k] as int % 16,
                case == Case::Upper,
            ) by {
            if k < data.len() - 1 {
                assert(init[k] == data[k]);
            }
        }
    }
}

/// From `i` on, `codes` is whole pairs of hex digits that spell `out`.
pub open spec fn pairs_spell(codes: Seq<u32>, i: int, out: Seq<u8>) -> bool {
    &&& 0 <= i
    &&& codes.len() == i + 2 * out.len()
    &&& forall|k: int|
        #![trigger out[k]]
        0 <= k < out.len() ==> pair_at(codes, i + 2 * k) && pair_byte(codes, i + 2 * k) == out[k]
}

/// Whole pairs up to the end decode to what they spell, and the run ends
/// cleanly; stated from the `m`-th pair on.
proof fn lemma_pairs_decode(codes: Seq<u32>, i: int, out: Seq<u8>, m: int)
    requires
        pairs_spell(codes, i, out),
        0 <= m <= out.len(),
    ensures
        decoded_run(codes, i + 2 * m) == out.skip(m),
        run_stop(codes, i + 2 * m) == Stop::End,
    decreases out.len() - m,
{
    if m < out.len() {
        let x = out[m];
        assert(pair_at(codes, i + 2 * m) && pair_byte(codes, i + 2 * m) == out[m]);
        lemma_pairs_decode(codes, i, out, m + 1);
        assert(i + 2 * (m + 1) == i + 2 * m + 2);
        assert(decoded_run(codes, i + 2 * m) =~= out.skip(m));
    } else {
        assert(out.skip(m) =~= Seq::<u8>::empty());
    }
}

/// A run that ends cleanly passes only over hex digits.
proof fn lemma_end_all_hex(codes: Seq<u32>, i: int)
    requires
        0 <= i,
        run_stop(codes, i) == Stop::End,
    ensures
        forall|j: int| i <= j < codes.len() ==> is_hex_code(#[trigger] codes[j]),
    decreases codes.len() - i,
{
    if i < codes.len() {
        lemma_end_all_hex(codes, i + 2);
    }
}

/// The hex text of `data` is ASCII, has its prefix exactly when asked for,
/// and decodes back to `data` into a destination of `data.len()` bytes.
proof fn lemma_hex_text_decodes(data: Seq<u8>, options: DisplayOptions)
    ensures
        ({
            let t = hex_text(data, options);
            let codes = char_codes(t);
            &&& ascii_before(t, t.len() as int)
            &&& starts_with_0x(codes) == options.with_prefix
            &&& t.len() == payload_start(codes) + 2 * data.len()
            &&& decode_outcome(codes, payload_start(codes), data.len() as int, true) == Ok::<
                Seq<u8>,
                Fault,
            >(data)
        }),
{
    let t = hex_text(data, options);
    let codes = char_codes(t);
    let upper = options.case == Case::Upper;
    let d = digits_text(data, options.case);
    lemma_digits_text(data, options.case);
    let start: int = if options.with_prefix {
        2
    } else {
        0
    };
    assert forall|k: int| 0 <= k < data.len() implies {
        &&& #[trigger] t[start + 2 * k] == nibble_char(data[k] as int / 16, upper)
        &&& t[start + 2 * k + 1] == nibble_char(data[k] as int % 16, upper)
    } by {
        assert(d[2 * k] == nibble_char(data[k] as int / 16, upper));
        lemma_nibble(data[k] as int / 16, upper);
        lemma_nibble(data[k] as int % 16, upper);
    }
    assert forall|j: int| 0 <= j < t.len() implies (#[trigger] t[j] as u32) < 0x80
        && (start <= j ==> is_hex_code(t[j] as u32)) && (j == 1 && start == 0 ==> t[j] as u32
        != 0x78) by {
        if j >= start {
            let k = (j - start) / 2;
            assert(data[k] == data[k]);
            lemma_nibble(data[k] as int / 16, upper);
            lemma_nibble(data[k] as int % 16, upper);
        }
    }
    assert(starts_with_0x(codes) == options.with_prefix);
    assert forall|k: int|
        #![trigger data[k]]
        0 <= k < data.len() implies pair_at(codes, start + 2 * k) && pair_byte(
            codes,
            start + 2 * k,
        ) == data[k] by {
        assert(t[start + 2 * k] == nibble_char(data[k] as int / 16, upper));
        lemma_nibble(data[k] as int / 16, upper);
        lemma_nibble(data[k] as int % 16, upper);
        let b = data[k] as int;
        assert(b / 16 * 16 + b % 16 == b);
    }
    assert(pairs_spell(codes, start, data));
    lemma_pairs_decode(codes, start, data, 0);
    assert(data.skip(0) =~= data);
}

/// Bytes rendered as hex text under any options decode back to the same
/// bytes, as text.
pub proof fn lemma_text_round_trip(data: Seq<u8>, options: DisplayOptions)
    ensures
        ({
            let t = hex_text(data, options);
            text_outcome(t, expected_len(encode_utf8(t).len() as int, starts_with_0x(char_codes(t))), true)
                == Ok::<Seq<u8>, Fault>(data)
        }),
{
    let t = hex_text(data, options);
    lemma_hex_text_decodes(data, options);
    lemma_ascii_prefix(t, t.len() as int);
}

/// Bytes rendered as hex text under any options decode back to the same
/// bytes, as the UTF-8 bytes of that text.
pub proof fn lemma_ascii_round_trip(data: Seq<u8>, options: DisplayOptions)
    ensures
        ({
            let b = encode_utf8(hex_text(data, options));
            ascii_outcome(b, expected_len(b.len() as int, starts_with_0x(byte_codes(b))), true)
                == Ok::<Seq<u8>, Fault>(data)
        }),
{
    let t = hex_text(data, options);
    let b = encode_utf8(t);
    lemma_hex_text_decodes(data, options);
    lemma_ascii_prefix(t, t.len() as int);
    assert(byte_codes(b) =~= char_codes(t));
}

/// The bytes that a well-formed hex text spells, pair by pair.
pub open spec fn spelled(s: Seq<char>) -> Seq<u8> {
    let codes = char_codes(s);
    let start = payload_start(codes);
    Seq::new(((s.len() - start) / 2) as nat, |k: int| pair_byte(codes, start + 2 * k))
}

/// A hex digit in lower case is the digit of its value.
proof fn lemma_lower_digit(c: char)
    requires
        is_hex_char(c),
    ensures
        ascii_lower(c) == nibble_char(digit_value(c as u32), false),
{
    char_u32_cast(c, c as u32);
}

/// A well-formed hex text decodes to the bytes it spells, and those bytes,
/// rendered in lower case with the same prefix, give the text back up to case.
proof fn lemma_spelled(s: Seq<char>)
    requires
        well_formed_hex(s),
    ensures
        ({
            let codes = char_codes(s);
            let out = spelled(s);
            &&& ascii_before(s, s.len() as int)
            &&& s.len() == payload_start(codes) + 2 * out.len()
            &&& decode_outcome(codes, payload_start(codes), out.len() as int, true) == Ok::<
                Seq<u8>,
                Fault,
            >(out)
            &&& lowercase(hex_text(out, DisplayOptions { with_prefix: starts_with_0x(codes), case: Case::Lower }))
                == lowercase(s)
        }),
{
    let codes = char_codes(s);
    let start = payload_start(codes);
    let out = spelled(s);
    let options = DisplayOptions { with_prefix: starts_with_0x(codes), case: Case::Lower };
    let t = hex_text(out, options);
    assert forall|j: int| 0 <= j < s.len() implies (#[trigger] s[j] as u32) < 0x80 by {
        if j >= start {
            assert(is_hex_char(s[j]));
        }
    }
    assert forall|k: int|
        #![trigger out[k]]
        0 <= k < out.len() implies pair_at(codes, start + 2 * k) && pair_byte(codes, start + 2 * k)
            == out[k] by {
        assert(is_hex_char(s[start + 2 * k]));
        assert(is_hex_char(s[start + 2 * k + 1]));
    }
    assert(pairs_spell(codes, start, out));
    lemma_pairs_decode(codes, start, out, 0);
    assert(out.skip(0) =~= out);
    lemma_digits_text(out, Case::Lower);
    assert(t.len() == s.len());
    assert forall|j: int| 0 <= j < s.len() implies #[trigger] lowercase(t)[j] == lowercase(s)[j] by {
        if j >= start {
            let k = (j - start) / 2;
            let c1 = s[start + 2 * k];
            let c2 = s[start + 2 * k + 1];
            assert(is_hex_char(c1));
            assert(is_hex_char(c2));
            let d1 = digit_value(c1 as u32);
            let d2 = digit_value(c2 as u32);
            assert(out[k] == (d1 * 16 + d2) as u8);
            assert(out[k] as int / 16 == d1 && out[k] as int % 16 == d2) by {
                assert(0 <= d1 < 16 && 0 <= d2 < 16);
                assert((d1 * 16 + d2) / 16 == d1) by (nonlinear_arith)
                    requires
                        0 <= d1 < 16,
                        0 <= d2 < 16,
                ;
                assert((d1 * 16 + d2) % 16 == d2) by (nonlinear_arith)
                    requires
                        0 <= d1 < 16,
                        0 <= d2 < 16,
                ;
            }
            lemma_nibble(d1, false);
            lemma_nibble(d2, false);
            lemma_lower_digit(c1);
            lemma_lower_digit(c2);
        }
    }
    assert(lowercase(t) =~= lowercase(s));
}

/// A text of an optional `0x` and whole pairs of hex digits decodes, as text,
/// to bytes that render back to it in lower case with the same prefix, up to
/// the case of its letters.
pub proof fn lemma_text_reparse(s: Seq<char>)
    requires
        well_formed_hex(s),
    ensures
        match text_outcome(s, expected_len(encode_utf8(s).len() as int, starts_with_0x(char_codes(s))), true) {
            Ok(out) => lowercase(
                hex_text(out, DisplayOptions { with_prefix: starts_with_0x(char_codes(s)), case: Case::Lower }),
            ) == lowercase(s),
            Err(_) => false,
        },
{
    lemma_spelled(s);
    lemma_ascii_prefix(s, s.len() as int);
}

/// The same text given as its UTF-8 bytes decodes the same way.
pub proof fn lemma_ascii_reparse(s: Seq<char>)
    requires
        well_formed_hex(s),
    ensures
        ({
            let b = encode_utf8(s);
            match ascii_outcome(b, expected_len(b.len() as int, starts_with_0x(byte_codes(b))), true) {
                Ok(out) => lowercase(
                    hex_text(out, DisplayOptions { with_prefix: starts_with_0x(char_codes(s)), case: Case::Lower }),
                ) == lowercase(s),
                Err(_) => false,
            }
        }),
{
    lemma_spelled(s);
    lemma_ascii_prefix(s, s.len() as int);
    assert(byte_codes(encode_utf8(s)) =~= char_codes(s));
}

/// Whatever follows an optional `0x`, an odd number of elements never
/// decodes, whatever the destination: in particular a well-formed prefix
/// and an odd number of hex digits.
pub proof fn lemma_odd_rejected(codes: Seq<u32>, cap: int, exact: bool)
    requires
        (codes.len() - payload_start(codes)) % 2 == 1,
    ensures
        decode_outcome(codes, payload_start(codes), cap, exact) is Err,
{
    lemma_run_len(codes, payload_start(codes));
}

/// Text with an odd number of characters after an optional `0x` never decodes.
pub proof fn lemma_text_odd_rejected(s: Seq<char>, cap: int, exact: bool)
    requires
        (s.len() - payload_start(char_codes(s))) % 2 == 1,
    ensures
        text_outcome(s, cap, exact) is Err,
{
    lemma_odd_rejected(char_codes(s), cap, exact);
}

/// A byte string with an odd number of bytes after an optional `0x` never
/// decodes.
pub proof fn lemma_ascii_odd_rejected(b: Seq<u8>, cap: int, exact: bool)
    requires
        (b.len() - payload_start(byte_codes(b))) % 2 == 1,
    ensures
        ascii_outcome(b, cap, exact) is Err,
{
    lemma_odd_rejected(byte_codes(b), cap, exact);
}

/// An element that is not a hex digit, anywhere after an optional `0x`,
/// makes decoding fail, whatever the destination.
pub proof fn lemma_bad_element_rejected(codes: Seq<u32>, i: int, cap: int, exact: bool)
    requires
        payload_start(codes) <= i < codes.len(),
        !is_hex_code(codes[i]),
    ensures
        decode_outcome(codes, payload_start(codes), cap, exact) is Err,
{
    if run_stop(codes, payload_start(codes)) == Stop::End {
        lemma_end_all_hex(codes, payload_start(codes));
    }
}

/// Text with a character that is not a hex digit after an optional `0x`
/// never decodes.
pub proof fn lemma_text_bad_char_rejected(s: Seq<char>, i: int, cap: int, exact: bool)
    requires
        payload_start(char_codes(s)) <= i < s.len(),
        !is_hex_char(s[i]),
    ensures
        text_outcome(s, cap, exact) is Err,
{
    lemma_bad_element_rejected(char_codes(s), i, cap, exact);
}

/// A byte string with a byte that is not a hex digit after an optional `0x`
/// never decodes.
pub proof fn lemma_ascii_bad_byte_rejected(b: Seq<u8>, i: int, cap: int, exact: bool)
    requires
        payload_start(byte_codes(b)) <= i < b.len(),
        !is_hex_code(b[i] as u32),
    ensures
        ascii_outcome(b, cap, exact) is Err,
{
    lemma_bad_element_rejected(byte_codes(b), i, cap, exact);
}

/// The best-effort and the exact-fit policies agree: on the same input and
/// destination they fail alike, except that an exact fit also fails when
/// the input ends early, and either way the destination ends up the same,
/// the decoded run written into its start as far as it fits.
pub proof fn lemma_policies_agree(codes: Seq<u32>, start: int, dst: Seq<u8>)
    ensures
        ({
            let run = decoded_run(codes, start);
            let exact = decode_outcome(codes, start, dst.len() as int, true);
            match decode_outcome(codes, start, dst.len() as int, false) {
                Ok(out) => {
                    &&& out + dst.skip(out.len() as int) == partial_fill(run, dst)
                    &&& out.len() == dst.len() ==> exact == Ok::<Seq<u8>, Fault>(out) && out
                        == partial_fill(run, dst)
                    &&& out.len() < dst.len() ==> exact matches Err(Fault::TooShort(_))
                },
                Err(f) => exact == Err::<Seq<u8>, Fault>(f),
            }
        }),
{
    let run = decoded_run(codes, start);
    if run.len() <= dst.len() {
        assert(run.take(run.len() as int) =~= run);
        if run.len() == dst.len() {
            assert(dst.skip(dst.len() as int) =~= Seq::<u8>::empty());
            assert(run + dst.skip(run.len() as int) =~= run);
        }
    }
}

} // verus!
