//! Laws of integers and byte strings on the wire.

use vstd::prelude::*;
use crate::codec;
use crate::error::Error;

verus! {

/// A byte behind a number moves the number up by one byte, so that the first byte
/// is the most significant one.
pub proof fn law_first_byte_counts_most(s: Seq<u8>, last: u8)
    ensures
        codec::be_value(Seq::empty()) == 0,
        codec::be_value(s.push(last)) == 256 * codec::be_value(s) + last,
{
    assert(s.push(last).drop_last() =~= s);
}

/// Two bytes of a number are its upper and its lower half.
pub proof fn law_u16_bytes(v: u16)
    ensures
        codec::be_bytes(v as nat, 2) == seq![(v / 256) as u8, (v % 256) as u8],
{
    reveal_with_fuel(codec::be_bytes, 3);
    assert((v as nat / 256) % 256 == v / 256);
}

/// Four bytes of a number, of which byte `i` counts 256 times as much as the one
/// behind it.
pub proof fn law_u32_bytes(v: nat)
    requires
        v < 0x1_0000_0000,
    ensures
        codec::be_bytes(v, 4).len() == 4,
        v == 0x100_0000 * codec::be_bytes(v, 4)[0] + 0x1_0000 * codec::be_bytes(v, 4)[1] + 0x100
            * codec::be_bytes(v, 4)[2] + codec::be_bytes(v, 4)[3],
{
    reveal_with_fuel(codec::be_bytes, 5);
}

/// A number takes one, two, four or eight bytes, the fewest that hold it behind the
/// two bits that tell which; the first byte counts most.
pub proof fn law_varint_written(v: u64)
    requires
        v < 0x4000_0000_0000_0000,
    ensures
        v < 0x40 ==> codec::varint_bytes(v) == seq![v as u8],
        0x40 <= v < 0x4000 ==> codec::varint_bytes(v) == seq![
            (0x40 + v / 0x100) as u8,
            (v % 0x100) as u8,
        ],
        0x4000 <= v < 0x4000_0000 ==> codec::varint_bytes(v) == seq![
            (0x80 + v / 0x100_0000) as u8,
            (v / 0x1_0000 % 0x100) as u8,
            (v / 0x100 % 0x100) as u8,
            (v % 0x100) as u8,
        ],
        0x4000_0000 <= v ==> codec::varint_bytes(v) == seq![
            (0xc0 + v / 0x100_0000_0000_0000) as u8,
            (v / 0x1_0000_0000_0000 % 0x100) as u8,
            (v / 0x100_0000_0000 % 0x100) as u8,
            (v / 0x1_0000_0000 % 0x100) as u8,
            (v / 0x100_0000 % 0x100) as u8,
            (v / 0x1_0000 % 0x100) as u8,
            (v / 0x100 % 0x100) as u8,
            (v % 0x100) as u8,
        ],
{
    reveal(codec::varint_bytes);
    if v < 0x40 {
        lemma_two_bytes(v as nat);
    } else if v < 0x4000 {
        lemma_two_bytes(v as nat + 0x4000);
    } else if v < 0x4000_0000 {
        lemma_four_tagged(v as nat);
    } else {
        lemma_eight_tagged(v as nat);
    }
}

proof fn lemma_four_tagged(v: nat)
    requires
        v < 0x4000_0000,
    ensures
        codec::be_bytes(v + 0x8000_0000, 4) == seq![
            (0x80 + v / 0x100_0000) as u8,
            (v / 0x1_0000 % 0x100) as u8,
            (v / 0x100 % 0x100) as u8,
            (v % 0x100) as u8,
        ],
{
    let tagged = v + 0x8000_0000;
    lemma_four_bytes(tagged);
    assert(tagged / 0x100_0000 == v / 0x100_0000 + 0x80);
    assert(tagged / 0x1_0000 == v / 0x1_0000 + 0x8000);
    assert(tagged / 0x100 == v / 0x100 + 0x80_0000);
}

proof fn lemma_eight_tagged(v: nat)
    requires
        v < 0x4000_0000_0000_0000,
    ensures
        codec::be_bytes(v + 0xc000_0000_0000_0000, 8) == seq![
            (0xc0 + v / 0x100_0000_0000_0000) as u8,
            (v / 0x1_0000_0000_0000 % 0x100) as u8,
            (v / 0x100_0000_0000 % 0x100) as u8,
            (v / 0x1_0000_0000 % 0x100) as u8,
            (v / 0x100_0000 % 0x100) as u8,
            (v / 0x1_0000 % 0x100) as u8,
            (v / 0x100 % 0x100) as u8,
            (v % 0x100) as u8,
        ],
{
    let tagged = v + 0xc000_0000_0000_0000;
    lemma_eight_bytes(tagged);
    assert(tagged / 0x100_0000_0000_0000 % 0x100 == 0xc0 + v / 0x100_0000_0000_0000) by {
        assert(tagged / 0x100_0000_0000_0000 == v / 0x100_0000_0000_0000 + 0xc0);
    }
    lemma_untagged(v, 0xc0, 0x1_0000_0000_0000);
    lemma_untagged(v, 0xc000, 0x100_0000_0000);
    lemma_untagged(v, 0xc0_0000, 0x1_0000_0000);
    lemma_untagged(v, 0xc000_0000, 0x100_0000);
    lemma_untagged(v, 0xc0_0000_0000, 0x1_0000);
    lemma_untagged(v, 0xc000_0000_0000, 0x100);
    lemma_untagged(v, 0xc0_0000_0000_0000, 1);
}

proof fn lemma_untagged(v: nat, tag: nat, unit: nat)
    requires
        unit > 0,
    ensures
        (v + tag * 0x100 * unit) / unit % 0x100 == v / unit % 0x100,
{
    vstd::arithmetic::div_mod::lemma_hoist_over_denominator(
        v as int,
        (tag * 0x100) as int,
        unit,
    );
    let quotient = v / unit;
    assert((quotient + tag * 0x100) % 0x100 == quotient % 0x100);
}

proof fn lemma_two_bytes(v: nat)
    ensures
        codec::be_bytes(v, 1) == seq![(v % 0x100) as u8],
        codec::be_bytes(v, 2) == seq![(v / 0x100 % 0x100) as u8, (v % 0x100) as u8],
{
    reveal_with_fuel(codec::be_bytes, 3);
}

proof fn lemma_four_bytes(v: nat)
    ensures
        codec::be_bytes(v, 4) == seq![
            (v / 0x100_0000 % 0x100) as u8,
            (v / 0x1_0000 % 0x100) as u8,
            (v / 0x100 % 0x100) as u8,
            (v % 0x100) as u8,
        ],
{
    let above = v / 0x1_0000;
    lemma_two_bytes(above);
    assert(v / 0x100 / 0x100 == above);
    assert(codec::be_bytes(v, 4) == codec::be_bytes(v / 0x100, 3).push((v % 0x100) as u8));
    assert(codec::be_bytes(v / 0x100, 3) == codec::be_bytes(above, 2).push(
        (v / 0x100 % 0x100) as u8,
    ));
    assert(above / 0x100 == v / 0x100_0000);
}

proof fn lemma_eight_bytes(v: nat)
    ensures
        codec::be_bytes(v, 8) == seq![
            (v / 0x100_0000_0000_0000 % 0x100) as u8,
            (v / 0x1_0000_0000_0000 % 0x100) as u8,
            (v / 0x100_0000_0000 % 0x100) as u8,
            (v / 0x1_0000_0000 % 0x100) as u8,
            (v / 0x100_0000 % 0x100) as u8,
            (v / 0x1_0000 % 0x100) as u8,
            (v / 0x100 % 0x100) as u8,
            (v % 0x100) as u8,
        ],
{
    let v1 = v / 0x100;
    let v2 = v / 0x1_0000;
    let v3 = v / 0x100_0000;
    let v4 = v / 0x1_0000_0000;
    assert(v1 / 0x100 == v2);
    assert(v2 / 0x100 == v3);
    assert(v3 / 0x100 == v4);
    lemma_four_bytes(v4);
    assert(v4 / 0x100_0000 == v / 0x100_0000_0000_0000);
    assert(v4 / 0x1_0000 == v / 0x1_0000_0000_0000);
    assert(v4 / 0x100 == v / 0x100_0000_0000);
    assert(codec::be_bytes(v, 8) == codec::be_bytes(v1, 7).push((v % 0x100) as u8));
    assert(codec::be_bytes(v1, 7) == codec::be_bytes(v2, 6).push((v1 % 0x100) as u8));
    assert(codec::be_bytes(v2, 6) == codec::be_bytes(v3, 5).push((v2 % 0x100) as u8));
    assert(codec::be_bytes(v3, 5) == codec::be_bytes(v4, 4).push((v3 % 0x100) as u8));
}

/// Every number that is read stands in as many bytes as the upper two bits of the
/// first one say, and is what the bits behind those two make; where fewer bytes
/// are left there is no number.
pub proof fn law_varint_read(s: Seq<u8>)
    ensures
        s.len() == 0 ==> codec::parse_varint(s).0 is None,
        s.len() >= 1 && s[0] < 0x40 ==> codec::parse_varint(s) == (Some(s[0] as u64), s.skip(1)),
        s.len() >= 1 && 0x40 <= s[0] < 0x80 ==> if s.len() < 2 {
            codec::parse_varint(s).0 is None
        } else {
            codec::parse_varint(s) == (Some((0x100 * (s[0] - 0x40) + s[1]) as u64), s.skip(2))
        },
        s.len() >= 1 && 0x80 <= s[0] < 0xc0 ==> if s.len() < 4 {
            codec::parse_varint(s).0 is None
        } else {
            codec::parse_varint(s) == (
                Some((0x100_0000 * (s[0] - 0x80) + 0x1_0000 * s[1] + 0x100 * s[2] + s[3]) as u64),
                s.skip(4),
            )
        },
        s.len() >= 1 && 0xc0 <= s[0] ==> if s.len() < 8 {
            codec::parse_varint(s).0 is None
        } else {
            codec::parse_varint(s) == (
                Some(
                    (0x100_0000_0000_0000 * (s[0] - 0xc0) + 0x1_0000_0000_0000 * s[1]
                        + 0x100_0000_0000 * s[2] + 0x1_0000_0000 * s[3] + 0x100_0000 * s[4]
                        + 0x1_0000 * s[5] + 0x100 * s[6] + s[7]) as u64,
                ),
                s.skip(8),
            )
        },
{
    reveal(codec::parse_varint);
    if s.len() >= 1 {
        lemma_value_of(s, 1);
    }
    if s.len() >= 2 {
        lemma_value_of(s, 2);
    }
    if s.len() >= 4 {
        lemma_value_of(s, 3);
        lemma_value_of(s, 4);
    }
    if s.len() >= 8 {
        lemma_value_of(s, 5);
        lemma_value_of(s, 6);
        lemma_value_of(s, 7);
        lemma_value_of(s, 8);
    }
}

proof fn lemma_value_of(s: Seq<u8>, n: int)
    requires
        1 <= n <= s.len(),
    ensures
        codec::be_value(s.take(n)) == 256 * codec::be_value(s.take(n - 1)) + s[n - 1],
        codec::be_value(s.take(0)) == 0,
{
    assert(s.take(n).drop_last() =~= s.take(n - 1));
}

/// Where a field cannot be read, nothing of it is used up, but for the first byte of a
/// number, and for the length of a byte string.
pub proof fn law_left_behind_failure(s: Seq<u8>, n: nat)
    ensures
        codec::parse_u8(s).0 is None ==> codec::parse_u8(s).1 == s,
        codec::parse_u16(s).0 is None ==> codec::parse_u16(s).1 == s,
        codec::parse_bytes(s, n).0 is None ==> codec::parse_bytes(s, n).1 == s,
        codec::parse_varint(s).0 is None ==> codec::parse_varint(s).1 == if s.len() == 0 {
            s
        } else {
            s.skip(1)
        },
        codec::parse_vvec(s).0 is None ==> codec::parse_vvec(s).1 == codec::parse_varint(s).1,
{
    reveal(codec::parse_varint);
}

/// Fields of a fixed length are the bytes at the front, in their order, and there
/// is none where too few are left.
pub proof fn law_fixed_fields_read(s: Seq<u8>, n: nat)
    ensures
        s.len() == 0 ==> codec::parse_u8(s).0 is None,
        s.len() >= 1 ==> codec::parse_u8(s) == (Some(s[0]), s.subrange(1, s.len() as int)),
        s.len() < 2 ==> codec::parse_u16(s).0 is None,
        s.len() >= 2 ==> {
            &&& codec::parse_u16(s).0 matches Some(v) && v == 256 * s[0] + s[1]
            &&& codec::parse_u16(s).1 == s.subrange(2, s.len() as int)
        },
        s.len() < n ==> codec::parse_bytes(s, n).0 is None,
        s.len() >= n ==> {
            &&& codec::parse_bytes(s, n).0 matches Some(field) && field + codec::parse_bytes(s, n).1
                == s && field.len() == n
        },
{
    if s.len() >= n {
        assert(s.take(n as int) + s.skip(n as int) =~= s);
    }
}

/// A byte string stands behind its length, as it is.
pub proof fn law_byte_string_written(data: Seq<u8>)
    requires
        data.len() < 0x4000_0000_0000_0000,
    ensures
        codec::vvec_bytes(data) == codec::varint_bytes(data.len() as u64) + data,
{
}

/// A byte string is read if as many bytes are left as its length says, and is then
/// those bytes.
pub proof fn law_byte_string_read(s: Seq<u8>)
    ensures
        match codec::parse_varint(s).0 {
            None => codec::parse_vvec(s).0 is None,
            Some(len) => {
                let rest = codec::parse_varint(s).1;
                if rest.len() < len {
                    codec::parse_vvec(s).0 is None
                } else {
                    &&& codec::parse_vvec(s).0 matches Some(data) && data.len() == len && data
                        + codec::parse_vvec(s).1 == rest
                }
            },
        },
{
    let (len, rest) = codec::parse_varint(s);
    if len is Some && rest.len() >= len->Some_0 {
        assert(rest.take(len->Some_0 as int) + rest.skip(len->Some_0 as int) =~= rest);
    }
}

/// Of a field that must be there, a missing one is reported as missing data, and
/// one that is there is handed on.
pub proof fn law_missing_field(rest: Seq<u8>, v: u64)
    ensures
        codec::required((None::<u64>, rest)) == (Err::<u64, Error>(Error::NoMoreData), rest),
        codec::required((Some(v), rest)) == (Ok::<u64, Error>(v), rest),
{
}

/// A number has as many bytes as were asked for, and they make it up, if it is not too
/// large for them. Of a larger one the lowest bytes are there.
pub proof fn law_number_bytes(v: nat, n: nat)
    ensures
        codec::pow256(0) == 1,
        codec::pow256(n + 1) == 256 * codec::pow256(n),
        codec::be_bytes(v, n).len() == n,
        v < codec::pow256(n) ==> codec::be_value(codec::be_bytes(v, n)) == v,
        codec::be_bytes(v, n + 1) == codec::be_bytes(v / 256, n) + seq![(v % 256) as u8],
{
    codec::lemma_be_bytes_len(v, n);
    if v < codec::pow256(n) {
        codec::lemma_be_roundtrip(v, n);
    }
    assert(codec::be_bytes(v, n + 1) =~= codec::be_bytes(v / 256, n) + seq![(v % 256) as u8]);
}

} // verus!
