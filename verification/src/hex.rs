//! Bytes as hexadecimal digits.

use vstd::prelude::*;

verus! {

/// The digit for a number below sixteen, in ASCII.
pub open spec fn digit(n: int) -> u8 {
    if n < 10 {
        (0x30 + n) as u8
    } else {
        (0x61 + n - 10) as u8
    }
}

/// The digits for `data`: two for each byte, the high one first.
pub open spec fn digits(data: Seq<u8>) -> Seq<u8> {
    Seq::new(
        2 * data.len(),
        |i: int|
            if i % 2 == 0 {
                digit(data[i / 2] as int / 16)
            } else {
                digit(data[i / 2] as int % 16)
            },
    )
}

/// The digit for a number below sixteen, in ASCII.
fn hex_digit(n: u8) -> (out: u8)
    requires
        n < 16,
    ensures
        out == digit(n as int),
{
    if n < 10 {
        0x30 + n
    } else {
        0x61 + (n - 10)
    }
}

/// The digits for `data`: two for each byte, the high one first.
pub fn hex(data: &[u8]) -> (out: Vec<u8>)
    ensures
        out@ == digits(data@),
{
    let mut out: Vec<u8> = Vec::new();
    let mut i: usize = 0;
    while i < data.len()
        invariant
            i <= data@.len(),
            out@ == digits(data@.take(i as int)),
        decreases data@.len() - i,
    {
        let byte = data[i];
        out.push(hex_digit(byte / 16));
        out.push(hex_digit(byte % 16));
        assert(out@ =~= digits(data@.take(i + 1)));
        i = i + 1;
    }
    assert(data@.take(i as int) =~= data@);
    out
}

/// The number that a digit stands for, if it is one.
pub open spec fn digit_value(c: u8) -> Option<int> {
    if '0' as u8 <= c <= '9' as u8 {
        Some(c - '0' as u8)
    } else if 'a' as u8 <= c <= 'f' as u8 {
        Some(10 + (c - 'a' as u8))
    } else {
        None
    }
}

/// Each byte is two digits, of which the first counts sixteen times as much as the
/// second: the bytes can be read back from the digits.
pub proof fn law_digits_read_back(data: Seq<u8>, i: int)
    requires
        0 <= i < data.len(),
    ensures
        digits(data).len() == 2 * data.len(),
        digit_value(digits(data)[2 * i]) matches Some(high) && digit_value(digits(data)[2 * i + 1])
            matches Some(low) && data[i] == 16 * high + low && 0 <= low < 16,
{
}

} // verus!
