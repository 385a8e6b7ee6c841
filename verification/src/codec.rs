//! Byte-level reading and writing: big-endian integers, variable-length
//! integers and length-prefixed byte strings.
//!
//! A reader is specified by functions from the bytes that are left to a pair:
//! what was read, and the bytes that are left then.

use vstd::prelude::*;
use crate::error::{Error, Res};

verus! {

/// The number of values that a variable-length integer can take.
pub const VARINT_LIMIT: u64 = 0x4000_0000_0000_0000;

/// What a reader leaves: its result, and the bytes after it.
pub type Parsed<T> = (Result<T, Error>, Seq<u8>);

/// `256` to the power of `n`.
pub open spec fn pow256(n: nat) -> nat
    decreases n,
{
    if n == 0 {
        1
    } else {
        256 * pow256((n - 1) as nat)
    }
}

/// The big-endian number that `s` spells.
pub open spec fn be_value(s: Seq<u8>) -> nat
    decreases s.len(),
{
    if s.len() == 0 {
        0
    } else {
        be_value(s.drop_last()) * 256 + s.last() as nat
    }
}

/// The low `n` bytes of `v`, big-endian.
pub open spec fn be_bytes(v: nat, n: nat) -> Seq<u8>
    decreases n,
{
    if n == 0 {
        Seq::empty()
    } else {
        be_bytes(v / 256, (n - 1) as nat).push((v % 256) as u8)
    }
}

pub proof fn lemma_be_bytes_len(v: nat, n: nat)
    ensures
        be_bytes(v, n).len() == n,
    decreases n,
{
    if n > 0 {
        lemma_be_bytes_len(v / 256, (n - 1) as nat);
    }
}

/// Reading the `n` bytes that spell `v` gives `v` back, if it fits in them.
pub proof fn lemma_be_roundtrip(v: nat, n: nat)
    requires
        v < pow256(n),
    ensures
        be_value(be_bytes(v, n)) == v,
    decreases n,
{
    if n > 0 {
        let m = (n - 1) as nat;
        assert(v / 256 < pow256(m));
        lemma_be_roundtrip(v / 256, m);
        assert(be_bytes(v, n).drop_last() =~= be_bytes(v / 256, m));
    }
}

/// The bytes bound the number that they spell.
pub proof fn lemma_be_value_bound(s: Seq<u8>)
    ensures
        be_value(s) < pow256(s.len()),
    decreases s.len(),
{
    if s.len() > 0 {
        lemma_be_value_bound(s.drop_last());
    }
}

/// The first byte bounds the number from below and from above.
pub proof fn lemma_be_value_first(s: Seq<u8>)
    requires
        s.len() > 0,
    ensures
        s[0] * pow256((s.len() - 1) as nat) <= be_value(s),
        be_value(s) < (s[0] + 1) * pow256((s.len() - 1) as nat),
    decreases s.len(),
{
    let n = (s.len() - 1) as nat;
    if n == 0 {
        assert(s.drop_last().len() == 0);
        assert(be_value(s.drop_last()) == 0);
        assert(pow256(0) == 1);
    } else {
        let p = pow256((n - 1) as nat);
        let first = s[0] as nat;
        lemma_be_value_first(s.drop_last());
        assert(s.drop_last()[0] == s[0]);
        assert(pow256(n) == 256 * p);
        assert(first * (256 * p) == (first * p) * 256) by (nonlinear_arith);
        assert((first + 1) * (256 * p) == ((first + 1) * p) * 256) by (nonlinear_arith);
    }
}

/// The first byte of the `n` bytes that spell `v`.
pub proof fn lemma_be_bytes_first(v: nat, n: nat)
    requires
        n > 0,
        v < pow256(n),
    ensures
        be_bytes(v, n).len() == n,
        be_bytes(v, n)[0] * pow256((n - 1) as nat) <= v,
        v < (be_bytes(v, n)[0] + 1) * pow256((n - 1) as nat),
{
    lemma_be_bytes_len(v, n);
    lemma_be_roundtrip(v, n);
    lemma_be_value_first(be_bytes(v, n));
}

/// Reads one byte.
pub open spec fn parse_u8(s: Seq<u8>) -> (Option<u8>, Seq<u8>) {
    if s.len() < 1 {
        (None, s)
    } else {
        (Some(s[0]), s.skip(1))
    }
}

/// Reads a big-endian 16-bit integer.
pub open spec fn parse_u16(s: Seq<u8>) -> (Option<u16>, Seq<u8>) {
    if s.len() < 2 {
        (None, s)
    } else {
        (Some((s[0] * 256 + s[1]) as u16), s.skip(2))
    }
}

/// Reads `n` bytes.
pub open spec fn parse_bytes(s: Seq<u8>, n: nat) -> (Option<Seq<u8>>, Seq<u8>) {
    if s.len() < n {
        (None, s)
    } else {
        (Some(s.take(n as int)), s.skip(n as int))
    }
}

/// How many bytes a variable-length integer has whose first byte is `first`.
pub open spec fn varint_width(first: u8) -> nat {
    if first < 64 {
        1
    } else if first < 128 {
        2
    } else if first < 192 {
        4
    } else {
        8
    }
}

/// The two high bits that mark a variable-length integer of `width` bytes.
pub open spec fn varint_tag(width: nat) -> nat {
    if width == 1 {
        0
    } else if width == 2 {
        0x4000
    } else if width == 4 {
        0x8000_0000
    } else {
        0xc000_0000_0000_0000
    }
}

/// How many bytes the shortest encoding of `v` has.
pub open spec fn varint_size(v: u64) -> nat {
    if v < 64 {
        1
    } else if v < 0x4000 {
        2
    } else if v < 0x4000_0000 {
        4
    } else {
        8
    }
}

/// The shortest encoding of `v` as a variable-length integer.
#[verifier::opaque]
pub open spec fn varint_bytes(v: u64) -> Seq<u8> {
    be_bytes(v as nat + varint_tag(varint_size(v)), varint_size(v))
}

/// Reads a variable-length integer. Where it is cut off, its first byte is used
/// up.
#[verifier::opaque]
pub open spec fn parse_varint(s: Seq<u8>) -> (Option<u64>, Seq<u8>) {
    if s.len() == 0 {
        (None, s)
    } else {
        let width = varint_width(s[0]);
        if s.len() < width {
            (None, s.skip(1))
        } else {
            (
                Some((be_value(s.take(width as int)) - varint_tag(width)) as u64),
                s.skip(width as int),
            )
        }
    }
}

/// A byte string behind its length.
pub open spec fn vvec_bytes(data: Seq<u8>) -> Seq<u8> {
    varint_bytes(data.len() as u64) + data
}

/// Reads a byte string behind its length.
pub open spec fn parse_vvec(s: Seq<u8>) -> (Option<Seq<u8>>, Seq<u8>) {
    let (len, rest) = parse_varint(s);
    match len {
        None => (None, rest),
        Some(len) => parse_bytes(rest, len as nat),
    }
}

/// What a reader gives that takes the end of the input for an error.
pub open spec fn required<T>(p: (Option<T>, Seq<u8>)) -> Parsed<T> {
    match p.0 {
        Some(v) => (Ok(v), p.1),
        None => (Err(Error::NoMoreData), p.1),
    }
}

/// The powers of 256 that fit in 64 bits.
pub proof fn lemma_pow256()
    ensures
        pow256(0) == 1,
        pow256(1) == 0x100,
        pow256(2) == 0x1_0000,
        pow256(3) == 0x100_0000,
        pow256(4) == 0x1_0000_0000,
        pow256(5) == 0x100_0000_0000,
        pow256(6) == 0x1_0000_0000_0000,
        pow256(7) == 0x100_0000_0000_0000,
        pow256(8) == 0x1_0000_0000_0000_0000,
{
    reveal_with_fuel(pow256, 9);
}

/// The length of a variable-length integer.
pub proof fn lemma_varint_len(v: u64)
    ensures
        varint_bytes(v).len() == varint_size(v),
        1 <= varint_bytes(v).len() <= 8,
{
    reveal(varint_bytes);
    lemma_be_bytes_len(v as nat + varint_tag(varint_size(v)), varint_size(v));
}

/// The first byte of a variable-length integer tells its length, and its value
/// has the tag on top.
pub proof fn lemma_varint_tagged(s: Seq<u8>)
    requires
        s.len() > 0,
        s.len() == varint_width(s[0]),
    ensures
        varint_tag(s.len()) <= be_value(s) < varint_tag(s.len()) + VARINT_LIMIT,
        be_value(s) <= u64::MAX,
{
    lemma_be_value_first(s);
    lemma_pow256();
    let first = s[0] as int;
    if s.len() == 1 {
        assert(first * 1 <= be_value(s) < (first + 1) * 1);
    } else if s.len() == 2 {
        assert(first * 0x100 <= be_value(s) < (first + 1) * 0x100);
    } else if s.len() == 4 {
        assert(first * 0x100_0000 <= be_value(s) < (first + 1) * 0x100_0000);
    } else {
        assert(first * 0x100_0000_0000_0000 <= be_value(s) < (first + 1) * 0x100_0000_0000_0000);
    }
}

/// Reading a variable-length integer gives the number that was written, and
/// leaves what follows it.
pub proof fn lemma_varint_roundtrip(v: u64, tail: Seq<u8>)
    requires
        v < VARINT_LIMIT,
    ensures
        parse_varint(varint_bytes(v) + tail) == (Some(v), tail),
{
    reveal(varint_bytes);
    reveal(parse_varint);
    let width = varint_size(v);
    let tagged = v as nat + varint_tag(width);
    let bytes = varint_bytes(v);
    let s = bytes + tail;
    lemma_pow256();
    assert(tagged < pow256(width));
    lemma_be_bytes_len(tagged, width);
    lemma_be_roundtrip(tagged, width);
    lemma_be_bytes_first(tagged, width);
    let first = bytes[0] as int;
    assert(s[0] == bytes[0]);
    assert(varint_width(s[0]) == width) by {
        if width == 1 {
            assert(first * 1 <= tagged < (first + 1) * 1);
        } else if width == 2 {
            assert(first * 0x100 <= tagged < (first + 1) * 0x100);
        } else if width == 4 {
            assert(first * 0x100_0000 <= tagged < (first + 1) * 0x100_0000);
        } else {
            assert(first * 0x100_0000_0000_0000 <= tagged < (first + 1) * 0x100_0000_0000_0000);
        }
    }
    assert(s.take(width as int) =~= bytes);
    assert(s.skip(width as int) =~= tail);
}

/// Every number that is read as a variable-length integer can be written as one.
pub proof fn lemma_varint_in_range(s: Seq<u8>)
    ensures
        parse_varint(s).0 matches Some(v) ==> v < VARINT_LIMIT,
{
    reveal(parse_varint);
    if s.len() > 0 && s.len() >= varint_width(s[0]) {
        let head = s.take(varint_width(s[0]) as int);
        assert(head[0] == s[0]);
        lemma_varint_tagged(head);
    }
}

/// A variable-length integer that is read takes up at least one byte.
pub proof fn lemma_varint_shrinks(s: Seq<u8>)
    ensures
        parse_varint(s).1.len() <= s.len(),
        parse_varint(s).0 is Some ==> parse_varint(s).1.len() < s.len(),
{
    reveal(parse_varint);
}

/// What can be read of `s` is read the same with more behind it.
pub proof fn lemma_reads_with_more(s: Seq<u8>, more: Seq<u8>)
    ensures
        parse_u8(s).0 is Some ==> parse_u8(s + more) == (parse_u8(s).0, parse_u8(s).1 + more),
        parse_varint(s).0 is Some ==> parse_varint(s + more) == (
            parse_varint(s).0,
            parse_varint(s).1 + more,
        ),
{
    reveal(parse_varint);
    if s.len() > 0 {
        assert((s + more)[0] == s[0]);
        assert((s + more).skip(1) =~= s.skip(1) + more);
        let width = varint_width(s[0]) as int;
        if s.len() >= width {
            assert((s + more).take(width) =~= s.take(width));
            assert((s + more).skip(width) =~= s.skip(width) + more);
        }
    }
}

/// Reading a byte string gives the one that was written, and leaves what
/// follows it.
pub proof fn lemma_vvec_roundtrip(data: Seq<u8>, tail: Seq<u8>)
    requires
        data.len() < VARINT_LIMIT,
    ensures
        parse_vvec(vvec_bytes(data) + tail) == (Some(data), tail),
{
    let len = data.len() as u64;
    assert(vvec_bytes(data) + tail =~= varint_bytes(len) + (data + tail));
    lemma_varint_roundtrip(len, data + tail);
    lemma_bytes_roundtrip(data, tail);
}

/// Reading as many bytes as were written gives them.
pub proof fn lemma_bytes_roundtrip(data: Seq<u8>, tail: Seq<u8>)
    ensures
        parse_bytes(data + tail, data.len()) == (Some(data), tail),
{
    assert((data + tail).take(data.len() as int) =~= data);
    assert((data + tail).skip(data.len() as int) =~= tail);
}

/// Reading a 16-bit integer gives the one that was written.
pub proof fn lemma_u16_roundtrip(v: u16, tail: Seq<u8>)
    ensures
        be_bytes(v as nat, 2).len() == 2,
        parse_u16(be_bytes(v as nat, 2) + tail) == (Some(v), tail),
{
    reveal_with_fuel(be_bytes, 3);
    let bytes = be_bytes(v as nat, 2);
    assert(bytes[0] == (v / 256) as u8);
    assert(bytes[1] == (v % 256) as u8);
    let s = bytes + tail;
    assert(s[0] == bytes[0] && s[1] == bytes[1]);
    assert(s.skip(2) =~= tail);
}

/// Reading a byte gives the one that was written.
pub proof fn lemma_u8_roundtrip(v: u8, tail: Seq<u8>)
    ensures
        parse_u8(seq![v] + tail) == (Some(v), tail),
{
    assert((seq![v] + tail).skip(1) =~= tail);
}

/// Reads values from the front of a byte string.
pub struct Decoder<'a> {
    buf: &'a [u8],
}

impl<'a> View for Decoder<'a> {
    type V = Seq<u8>;

    /// The bytes that are left.
    closed spec fn view(&self) -> Seq<u8> {
        self.buf@
    }
}

impl<'a> Decoder<'a> {
    /// A reader of `buf`.
    pub fn new(buf: &'a [u8]) -> (dec: Self)
        ensures
            dec@ == buf@,
    {
        Decoder { buf }
    }

    /// How many bytes are left.
    pub fn remaining(&self) -> (n: usize)
        ensures
            n == self@.len(),
    {
        self.buf.len()
    }

    /// The next byte, which stays.
    pub fn peek_byte(&self) -> (byte: Option<u8>)
        ensures
            byte == parse_u8(self@).0,
    {
        if self.buf.len() == 0 {
            None
        } else {
            Some(self.buf[0])
        }
    }

    /// Takes the next `n` bytes, if there are as many.
    pub fn decode(&mut self, n: usize) -> (out: Option<&'a [u8]>)
        ensures
            match out {
                Some(bytes) => parse_bytes(old(self)@, n as nat) == (
                    Some(bytes@),
                    final(self)@,
                ),
                None => parse_bytes(old(self)@, n as nat) == (None::<Seq<u8>>, final(self)@),
            },
    {
        if self.buf.len() < n {
            return None;
        }
        let (head, tail) = self.buf.split_at(n);
        assert(head@ =~= self.buf@.take(n as int));
        assert(tail@ =~= self.buf@.skip(n as int));
        self.buf = tail;
        Some(head)
    }

    /// Takes all the bytes that are left.
    pub fn decode_remainder(&mut self) -> (out: &'a [u8])
        ensures
            out@ == old(self)@,
            final(self)@ == Seq::<u8>::empty(),
    {
        let n = self.buf.len();
        let (head, tail) = self.buf.split_at(n);
        assert(head@ =~= self.buf@);
        assert(tail@ =~= Seq::<u8>::empty());
        self.buf = tail;
        head
    }

    /// Takes one byte.
    pub fn decode_u8(&mut self) -> (out: Option<u8>)
        ensures
            (out, final(self)@) == parse_u8(old(self)@),
    {
        match self.decode(1) {
            Some(bytes) => Some(bytes[0]),
            None => None,
        }
    }

    /// Takes a big-endian 16-bit integer.
    pub fn decode_u16(&mut self) -> (out: Option<u16>)
        ensures
            (out, final(self)@) == parse_u16(old(self)@),
    {
        match self.decode(2) {
            Some(bytes) => Some(bytes[0] as u16 * 256 + bytes[1] as u16),
            None => None,
        }
    }

    /// Takes a variable-length integer.
    pub fn decode_varint(&mut self) -> (out: Option<u64>)
        ensures
            (out, final(self)@) == parse_varint(old(self)@),
            out matches Some(v) ==> v < VARINT_LIMIT,
    {
        proof {
            reveal(parse_varint);
        }
        if self.buf.len() == 0 {
            return None;
        }
        let first = self.buf[0];
        let width: usize = if first < 64 {
            1
        } else if first < 128 {
            2
        } else if first < 192 {
            4
        } else {
            8
        };
        let tag: u64 = if first < 64 {
            0
        } else if first < 128 {
            0x4000
        } else if first < 192 {
            0x8000_0000
        } else {
            0xc000_0000_0000_0000
        };
        if self.buf.len() < width {
            let _ = self.decode(1);
            return None;
        }
        match self.decode(width) {
            Some(bytes) => {
                let value = big_endian(bytes);
                proof {
                    assert(bytes@[0] == first);
                    lemma_varint_tagged(bytes@);
                }
                Some(value - tag)
            },
            None => None,
        }
    }

    /// Takes a byte string behind its length.
    pub fn decode_vvec(&mut self) -> (out: Option<&'a [u8]>)
        ensures
            match out {
                Some(bytes) => parse_vvec(old(self)@) == (Some(bytes@), final(self)@),
                None => parse_vvec(old(self)@) == (None::<Seq<u8>>, final(self)@),
            },
    {
        let len = self.decode_varint()?;
        if len > self.remaining() as u64 {
            return None;
        }
        self.decode(len as usize)
    }
}

/// The number that at most eight big-endian bytes spell.
pub fn big_endian(bytes: &[u8]) -> (value: u64)
    requires
        bytes@.len() <= 8,
    ensures
        value == be_value(bytes@),
{
    let mut value: u64 = 0;
    let mut i: usize = 0;
    while i < bytes.len()
        invariant
            i <= bytes@.len() <= 8,
            value == be_value(bytes@.take(i as int)),
            value < pow256(i as nat),
        decreases bytes@.len() - i,
    {
        proof {
            lemma_pow256();
            assert(bytes@.take(i + 1).drop_last() =~= bytes@.take(i as int));
            assert(pow256((i + 1) as nat) == 256 * pow256(i as nat));
        }
        value = value * 256 + bytes[i] as u64;
        i = i + 1;
    }
    assert(bytes@.take(i as int) =~= bytes@);
    value
}

/// Writes values to the end of a byte string.
pub struct Encoder {
    buf: Vec<u8>,
}

impl View for Encoder {
    type V = Seq<u8>;

    /// The bytes that were written.
    closed spec fn view(&self) -> Seq<u8> {
        self.buf@
    }
}

impl Default for Encoder {
    fn default() -> (enc: Self)
        ensures
            enc@ == Seq::<u8>::empty(),
    {
        Encoder { buf: Vec::new() }
    }
}

impl Encoder {
    /// How many bytes were written.
    pub fn len(&self) -> (n: usize)
        ensures
            n == self@.len(),
    {
        self.buf.len()
    }

    /// Whether nothing was written.
    pub fn is_empty(&self) -> (empty: bool)
        ensures
            empty == (self@.len() == 0),
    {
        self.buf.len() == 0
    }

    /// The bytes that were written.
    pub fn as_slice(&self) -> (bytes: &[u8])
        ensures
            bytes@ == self@,
    {
        self.buf.as_slice()
    }

    /// A reader of the bytes that were written.
    pub fn as_decoder(&self) -> (dec: Decoder<'_>)
        ensures
            dec@ == self@,
    {
        Decoder::new(self.buf.as_slice())
    }

    /// The bytes that were written, as a vector.
    pub fn into_vec(self) -> (bytes: Vec<u8>)
        ensures
            bytes@ == self@,
    {
        self.buf
    }

    /// Writes `data`.
    pub fn encode(&mut self, data: &[u8])
        ensures
            final(self)@ == old(self)@ + data@,
    {
        self.buf.extend_from_slice(data);
        assert(self.buf@ =~= old(self)@ + data@);
    }

    /// Writes one byte.
    pub fn encode_byte(&mut self, byte: u8)
        ensures
            final(self)@ == old(self)@ + seq![byte],
    {
        self.buf.push(byte);
        assert(self.buf@ =~= old(self)@ + seq![byte]);
    }

    /// Writes the low `n` bytes of `v`, big-endian.
    pub fn encode_uint(&mut self, n: usize, v: u64)
        requires
            1 <= n <= 8,
        ensures
            final(self)@ == old(self)@ + be_bytes(v as nat, n as nat),
        decreases n,
    {
        proof {
            reveal_with_fuel(be_bytes, 2);
        }
        if n > 1 {
            self.encode_uint(n - 1, v / 256);
        }
        self.buf.push((v % 256) as u8);
        assert(self.buf@ =~= old(self)@ + be_bytes(v as nat, n as nat));
    }

    /// Writes `v` as a variable-length integer.
    pub fn encode_varint(&mut self, v: u64)
        requires
            v < VARINT_LIMIT,
        ensures
            final(self)@ == old(self)@ + varint_bytes(v),
    {
        proof {
            reveal(varint_bytes);
        }
        if v < 64 {
            self.encode_uint(1, v);
        } else if v < 0x4000 {
            self.encode_uint(2, v + 0x4000);
        } else if v < 0x4000_0000 {
            self.encode_uint(4, v + 0x8000_0000);
        } else {
            self.encode_uint(8, v + 0xc000_0000_0000_0000);
        }
    }

    /// Writes `data` behind its length.
    pub fn encode_vvec(&mut self, data: &[u8])
        requires
            data@.len() < VARINT_LIMIT,
        ensures
            final(self)@ == old(self)@ + vvec_bytes(data@),
    {
        self.encode_varint(data.len() as u64);
        self.encode(data);
        assert(self@ =~= old(self)@ + vvec_bytes(data@));
    }
}

/// Reads a variable-length integer; the end of the input is an error.
pub fn decode_varint(dec: &mut Decoder) -> (out: Res<u64>)
    ensures
        (out, final(dec)@) == required(parse_varint(old(dec)@)),
        out matches Ok(v) ==> v < VARINT_LIMIT,
{
    dec.decode_varint().ok_or(Error::NoMoreData)
}

/// Reads a 16-bit integer; the end of the input is an error.
pub fn decode_uint(dec: &mut Decoder) -> (out: Res<u16>)
    ensures
        (out, final(dec)@) == required(parse_u16(old(dec)@)),
{
    dec.decode_u16().ok_or(Error::NoMoreData)
}

/// Reads one byte; the end of the input is an error.
pub fn decode_byte(dec: &mut Decoder) -> (out: Res<u8>)
    ensures
        (out, final(dec)@) == required(parse_u8(old(dec)@)),
{
    dec.decode_u8().ok_or(Error::NoMoreData)
}

/// The result of a reader of bytes, by what it holds.
pub open spec fn bytes_result(r: Res<Vec<u8>>) -> Result<Seq<u8>, Error> {
    match r {
        Ok(v) => Ok(v@),
        Err(e) => Err(e),
    }
}

/// Reads a byte string behind its length; the end of the input is an error.
pub fn decode_vvec(dec: &mut Decoder) -> (out: Res<Vec<u8>>)
    ensures
        (bytes_result(out), final(dec)@) == required(parse_vvec(old(dec)@)),
{
    match dec.decode_vvec() {
        Some(bytes) => Ok(vstd::slice::slice_to_vec(bytes)),
        None => Err(Error::NoMoreData),
    }
}

/// Reads `n` bytes; the end of the input is an error.
pub fn decode_exact(dec: &mut Decoder, n: usize) -> (out: Res<Vec<u8>>)
    ensures
        (bytes_result(out), final(dec)@) == required(parse_bytes(old(dec)@, n as nat)),
{
    match dec.decode(n) {
        Some(bytes) => Ok(vstd::slice::slice_to_vec(bytes)),
        None => Err(Error::NoMoreData),
    }
}

/// Whether two byte strings are the same.
pub fn bytes_equal(a: &[u8], b: &[u8]) -> (equal: bool)
    ensures
        equal == (a@ == b@),
{
    if a.len() != b.len() {
        return false;
    }
    let mut i: usize = 0;
    while i < a.len()
        invariant
            i <= a@.len(),
            a@.len() == b@.len(),
            a@.take(i as int) == b@.take(i as int),
        decreases a@.len() - i,
    {
        if a[i] != b[i] {
            return false;
        }
        assert(a@.take(i + 1) =~= a@.take(i as int).push(a@[i as int]));
        assert(b@.take(i + 1) =~= b@.take(i as int).push(b@[i as int]));
        i = i + 1;
    }
    assert(a@.take(i as int) =~= a@);
    assert(b@.take(i as int) =~= b@);
    true
}

} // verus!
