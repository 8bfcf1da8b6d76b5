use vstd::prelude::*;

verus! {

/// True when `c` is the code of an ASCII hex digit: `0-9`, `a-f` or `A-F`.
pub open spec fn is_hex_code(c: u32) -> bool {
    (0x30 <= c <= 0x39) || (0x41 <= c <= 0x46) || (0x61 <= c <= 0x66)
}

/// The value of the hex digit whose code is `c`.
pub open spec fn digit_value(c: u32) -> int {
    if c <= 0x39 {
        c - 0x30
    } else if c <= 0x46 {
        c - 0x41 + 10
    } else {
        c - 0x61 + 10
    }
}

/// The character of a nibble `n < 16`, in lower or upper case.
pub open spec fn nibble_char(n: int, upper: bool) -> char {
    if n < 10 {
        (0x30 + n) as char
    } else if upper {
        (0x41 + n - 10) as char
    } else {
        (0x61 + n - 10) as char
    }
}

/// Reads the hex digit whose code is `c`.
pub fn hex_digit_value(c: u32) -> (r: Option<u8>)
    ensures
        r is Some <==> is_hex_code(c),
        r matches Some(v) ==> v == digit_value(c) && v < 16,
{
    if 0x30 <= c && c <= 0x39 {
        Some((c - 0x30) as u8)
    } else if 0x41 <= c && c <= 0x46 {
        Some((c - 0x41 + 10) as u8)
    } else if 0x61 <= c && c <= 0x66 {
        Some((c - 0x61 + 10) as u8)
    } else {
        None
    }
}

/// The character that stands for the nibble `n`.
pub fn nibble_to_char(n: u8, upper: bool) -> (r: char)
    requires
        n < 16,
    ensures
        r == nibble_char(n as int, upper),
        r as u32 == (if n < 10 { 0x30 + n } else if upper { 0x41 + n - 10 } else { 0x61 + n - 10 }),
{
    if n < 10 {
        (0x30 + n) as char
    } else if upper {
        (0x41 + n - 10) as char
    } else {
        (0x61 + n - 10) as char
    }
}

} // verus!
