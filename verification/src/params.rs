//! The multicast transport parameters.

use vstd::prelude::*;
use crate::codec;
use crate::codec::{Decoder, Encoder, Parsed, VARINT_LIMIT};
use crate::error::{Error, Res};
use crate::frame;
use crate::types::ClientLimits;

verus! {

/// Experimental transport parameter ID for client multicast capabilities.
pub const CLIENT_PARAMS_TRANSPORT_PARAMETER_ID: u64 = 0xff3e800;

/// Experimental transport parameter ID for server multicast support.
pub const SERVER_SUPPORT_TRANSPORT_PARAMETER_ID: u64 = 0xff3e808;

/// Client multicast transport parameter payload.
#[derive(Debug, PartialEq, Eq)]
pub struct ClientTransportParams {
    /// The client's initial multicast limits.
    pub limits: ClientLimits,
    /// Supported packet hash algorithms, in preference order.
    pub hash_algorithms: Vec<u16>,
    /// Supported packet protection algorithms, in preference order.
    pub encryption_algorithms: Vec<u16>,
}

/// What [`ClientTransportParams`] hold.
pub struct ClientTransportParamsView {
    pub limits: ClientLimits,
    pub hash_algorithms: Seq<u16>,
    pub encryption_algorithms: Seq<u16>,
}

impl View for ClientTransportParams {
    type V = ClientTransportParamsView;

    open spec fn view(&self) -> ClientTransportParamsView {
        ClientTransportParamsView {
            limits: self.limits,
            hash_algorithms: self.hash_algorithms@,
            encryption_algorithms: self.encryption_algorithms@,
        }
    }
}

impl Clone for ClientTransportParams {
    fn clone(&self) -> (copy: Self)
        ensures
            copy@ == self@,
    {
        ClientTransportParams {
            limits: self.limits,
            hash_algorithms: vstd::slice::slice_to_vec(self.hash_algorithms.as_slice()),
            encryption_algorithms: vstd::slice::slice_to_vec(self.encryption_algorithms.as_slice()),
        }
    }
}

impl Default for ClientTransportParams {
    fn default() -> (params: Self)
        ensures
            params@ == (ClientTransportParamsView {
                limits: ClientLimits {
                    ipv4_channels_allowed: false,
                    ipv6_channels_allowed: false,
                    max_aggregate_rate_kibps: 0,
                    max_channel_ids: 0,
                },
                hash_algorithms: Seq::empty(),
                encryption_algorithms: Seq::empty(),
            }),
    {
        ClientTransportParams {
            limits: ClientLimits::default(),
            hash_algorithms: Vec::new(),
            encryption_algorithms: Vec::new(),
        }
    }
}

/// 16-bit integers on the wire, one after the other.
pub open spec fn u16_list_bytes(values: Seq<u16>) -> Seq<u8> {
    Seq::new(
        2 * values.len(),
        |i: int|
            if i % 2 == 0 {
                (values[i / 2] / 256) as u8
            } else {
                (values[i / 2] % 256) as u8
            },
    )
}

/// Reads `n` 16-bit integers. Where the input cannot hold as many, nothing is
/// read, and the parameter or the frame that they are part of is malformed.
pub open spec fn parse_u16_list(s: Seq<u8>, n: nat, transport_parameter: bool) -> Parsed<Seq<u16>> {
    if n > s.len() / 2 {
        (
            Err(
                if transport_parameter {
                    Error::TransportParameter
                } else {
                    Error::FrameEncoding
                },
            ),
            s,
        )
    } else {
        (
            Ok(Seq::new(n, |i: int| (s[2 * i] * 256 + s[2 * i + 1]) as u16)),
            s.skip(2 * n as int),
        )
    }
}

impl ClientTransportParamsView {
    /// Whether the numbers in the parameters can be written.
    pub open spec fn fits(self) -> bool {
        &&& frame::limits_fit(self.limits)
        &&& self.hash_algorithms.len() < VARINT_LIMIT
        &&& self.encryption_algorithms.len() < VARINT_LIMIT
    }

    /// The parameters on the wire.
    pub open spec fn wire_bytes(self) -> Seq<u8> {
        frame::limits_bytes(self.limits) + codec::varint_bytes(self.hash_algorithms.len() as u64)
            + codec::varint_bytes(self.encryption_algorithms.len() as u64) + u16_list_bytes(
            self.hash_algorithms,
        ) + u16_list_bytes(self.encryption_algorithms)
    }
}

/// Reads parameters that take up the whole input.
pub open spec fn parse_params(s: Seq<u8>) -> Parsed<ClientTransportParamsView> {
    match frame::parse_limits(s) {
        (Err(e), s) => (Err(e), s),
        (Ok(limits), s) => match codec::required(codec::parse_varint(s)) {
            (Err(e), s) => (Err(e), s),
            (Ok(hash_count), s) => match codec::required(codec::parse_varint(s)) {
                (Err(e), s) => (Err(e), s),
                (Ok(encryption_count), s) => match parse_u16_list(s, hash_count as nat, true) {
                    (Err(e), s) => (Err(e), s),
                    (Ok(hash_algorithms), s) => match parse_u16_list(
                        s,
                        encryption_count as nat,
                        true,
                    ) {
                        (Err(e), s) => (Err(e), s),
                        (Ok(encryption_algorithms), s) => if s.len() > 0 {
                            (Err(Error::TooMuchData), s)
                        } else {
                            (
                                Ok(
                                    ClientTransportParamsView {
                                        limits,
                                        hash_algorithms,
                                        encryption_algorithms,
                                    },
                                ),
                                s,
                            )
                        },
                    },
                },
            },
        },
    }
}

/// The result of a reader of parameters, by what it holds.
pub open spec fn params_result(
    r: Res<ClientTransportParams>,
) -> Result<ClientTransportParamsView, Error> {
    match r {
        Ok(params) => Ok(params@),
        Err(e) => Err(e),
    }
}

/// The result of a reader of 16-bit integers, by what it holds.
pub open spec fn u16_list_result(r: Res<Vec<u16>>) -> Result<Seq<u16>, Error> {
    match r {
        Ok(values) => Ok(values@),
        Err(e) => Err(e),
    }
}

/// Reads `count` 16-bit integers.
pub fn decode_u16_list(dec: &mut Decoder, count: u64, transport_parameter: bool) -> (out: Res<
    Vec<u16>,
>)
    ensures
        (u16_list_result(out), final(dec)@) == parse_u16_list(
            old(dec)@,
            count as nat,
            transport_parameter,
        ),
{
    if count > (dec.remaining() / 2) as u64 {
        return Err(
            if transport_parameter {
                Error::TransportParameter
            } else {
                Error::FrameEncoding
            },
        );
    }
    let ghost input = dec@;
    let mut values: Vec<u16> = Vec::new();
    let mut i: u64 = 0;
    assert(dec@ =~= input.skip(0));
    while i < count
        invariant
            i <= count <= input.len() / 2,
            dec@ == input.skip(2 * i),
            values@ =~= Seq::new(i as nat, |j: int| (input[2 * j] * 256 + input[2 * j + 1]) as u16),
        decreases count - i,
    {
        let value = codec::decode_uint(dec)?;
        assert(input.skip(2 * i)[0] == input[2 * i]);
        assert(input.skip(2 * i)[1] == input[2 * i + 1]);
        assert(input.skip(2 * i).skip(2) =~= input.skip(2 * (i + 1)));
        values.push(value);
        i = i + 1;
    }
    Ok(values)
}

/// Writes 16-bit integers.
pub fn encode_u16_list(enc: &mut Encoder, values: &[u16])
    ensures
        final(enc)@ == old(enc)@ + u16_list_bytes(values@),
{
    let mut i: usize = 0;
    assert(enc@ =~= old(enc)@ + u16_list_bytes(values@.take(0)));
    while i < values.len()
        invariant
            i <= values@.len(),
            enc@ == old(enc)@ + u16_list_bytes(values@.take(i as int)),
        decreases values@.len() - i,
    {
        enc.encode_uint(2, values[i] as u64);
        proof {
            let v = values@[i as int];
            reveal_with_fuel(codec::be_bytes, 3);
            assert(codec::be_bytes(v as nat, 2) =~= seq![(v / 256) as u8, (v % 256) as u8]);
            assert(enc@ =~= old(enc)@ + u16_list_bytes(values@.take(i + 1)));
        }
        i = i + 1;
    }
    assert(values@.take(i as int) =~= values@);
}

impl ClientTransportParams {
    /// Whether the numbers in the parameters can be written.
    pub fn numbers_fit(&self) -> (fit: bool)
        ensures
            fit == self@.fits(),
    {
        self.limits.numbers_fit() && (self.hash_algorithms.len() as u64) < VARINT_LIMIT && (
        self.encryption_algorithms.len() as u64) < VARINT_LIMIT
    }

    /// Writes the parameters.
    pub fn encode(&self, enc: &mut Encoder)
        requires
            self@.fits(),
        ensures
            final(enc)@ == old(enc)@ + self@.wire_bytes(),
    {
        self.limits.encode(enc);
        enc.encode_varint(self.hash_algorithms.len() as u64);
        enc.encode_varint(self.encryption_algorithms.len() as u64);
        encode_u16_list(enc, self.hash_algorithms.as_slice());
        encode_u16_list(enc, self.encryption_algorithms.as_slice());
        assert(enc@ =~= old(enc)@ + self@.wire_bytes());
    }

    /// Reads parameters that take up all that is left.
    pub fn decode(dec: &mut Decoder) -> (out: Res<Self>)
        ensures
            (params_result(out), final(dec)@) == parse_params(old(dec)@),
    {
        let limits = ClientLimits::decode(dec)?;
        let hash_algorithm_count = codec::decode_varint(dec)?;
        let encryption_algorithm_count = codec::decode_varint(dec)?;
        let hash_algorithms = decode_u16_list(dec, hash_algorithm_count, true)?;
        let encryption_algorithms = decode_u16_list(dec, encryption_algorithm_count, true)?;
        if dec.remaining() > 0 {
            return Err(Error::TooMuchData);
        }
        Ok(ClientTransportParams { limits, hash_algorithms, encryption_algorithms })
    }

    /// The parameters on the wire.
    pub fn to_vec(&self) -> (out: Vec<u8>)
        requires
            self@.fits(),
        ensures
            out@ == self@.wire_bytes(),
    {
        let mut enc = Encoder::default();
        self.encode(&mut enc);
        let out = enc.into_vec();
        assert(out@ =~= self@.wire_bytes());
        out
    }

    /// Reads parameters that take up the whole of `buf`.
    pub fn from_slice(buf: &[u8]) -> (out: Res<Self>)
        ensures
            params_result(out) == parse_params(buf@).0,
    {
        let mut dec = Decoder::new(buf);
        ClientTransportParams::decode(&mut dec)
    }
}

proof fn lemma_u16_list_roundtrip(values: Seq<u16>, tail: Seq<u8>, transport_parameter: bool)
    ensures
        parse_u16_list(u16_list_bytes(values) + tail, values.len(), transport_parameter) == (
            Ok::<Seq<u16>, Error>(values),
            tail,
        ),
{
    let s = u16_list_bytes(values) + tail;
    assert forall|i: int| 0 <= i < values.len() implies (s[2 * i] * 256 + s[2 * i + 1]) as u16
        == values[i] by {
        assert((2 * i) / 2 == i && (2 * i + 1) / 2 == i);
    }
    assert(parse_u16_list(s, values.len(), transport_parameter).0->Ok_0 =~= values);
    assert(s.skip(2 * values.len() as int) =~= tail);
}

proof fn lemma_params_prefix(params: ClientTransportParamsView, tail: Seq<u8>)
    requires
        params.fits(),
    ensures
        parse_params(params.wire_bytes() + tail) == if tail.len() > 0 {
            (Err(Error::TooMuchData), tail)
        } else {
            (Ok::<ClientTransportParamsView, Error>(params), tail)
        },
{
    let s4 = u16_list_bytes(params.encryption_algorithms) + tail;
    let s3 = u16_list_bytes(params.hash_algorithms) + s4;
    let s2 = codec::varint_bytes(params.encryption_algorithms.len() as u64) + s3;
    let s1 = codec::varint_bytes(params.hash_algorithms.len() as u64) + s2;
    assert(params.wire_bytes() + tail =~= frame::limits_bytes(params.limits) + s1);
    crate::frame_laws::lemma_limits_roundtrip(params.limits, s1);
    codec::lemma_varint_roundtrip(params.hash_algorithms.len() as u64, s2);
    codec::lemma_varint_roundtrip(params.encryption_algorithms.len() as u64, s3);
    lemma_u16_list_roundtrip(params.hash_algorithms, s4, true);
    lemma_u16_list_roundtrip(params.encryption_algorithms, tail, true);
}

/// Parameters that were written are read back as they were.
pub proof fn law_params_roundtrip(params: ClientTransportParamsView)
    requires
        params.fits(),
    ensures
        parse_params(params.wire_bytes()).0 == Ok::<ClientTransportParamsView, Error>(params),
{
    assert(params.wire_bytes() + Seq::empty() =~= params.wire_bytes());
    lemma_params_prefix(params, Seq::empty());
}

/// Bytes after the parameters are refused.
pub proof fn law_params_trailing_bytes_rejected(params: ClientTransportParamsView, extra: Seq<u8>)
    requires
        params.fits(),
        extra.len() > 0,
    ensures
        parse_params(params.wire_bytes() + extra).0 == Err::<ClientTransportParamsView, Error>(
            Error::TooMuchData,
        ),
{
    lemma_params_prefix(params, extra);
}

proof fn lemma_u16_list_with_more(s: Seq<u8>, n: nat, transport_parameter: bool, more: Seq<u8>)
    requires
        parse_u16_list(s, n, transport_parameter).0 is Ok,
    ensures
        parse_u16_list(s + more, n, transport_parameter) == (
            parse_u16_list(s, n, transport_parameter).0,
            parse_u16_list(s, n, transport_parameter).1 + more,
        ),
{
    let values = parse_u16_list(s, n, transport_parameter).0->Ok_0;
    assert(parse_u16_list(s + more, n, transport_parameter).0->Ok_0 =~= values);
    assert((s + more).skip(2 * n as int) =~= s.skip(2 * n as int) + more);
}

/// Bytes behind anything that is read as parameters are refused, however the
/// parameters were written.
pub proof fn law_nothing_behind_params(s: Seq<u8>, extra: Seq<u8>)
    requires
        parse_params(s).0 is Ok,
        extra.len() > 0,
    ensures
        parse_params(s + extra).0 == Err::<ClientTransportParamsView, Error>(Error::TooMuchData),
{
    let s1 = codec::parse_u8(s).1;
    codec::lemma_reads_with_more(s, extra);
    let s2 = codec::parse_varint(s1).1;
    codec::lemma_reads_with_more(s1, extra);
    let s3 = codec::parse_varint(s2).1;
    codec::lemma_reads_with_more(s2, extra);
    let (hash_count, s4) = codec::parse_varint(s3);
    codec::lemma_reads_with_more(s3, extra);
    let (encryption_count, s5) = codec::parse_varint(s4);
    codec::lemma_reads_with_more(s4, extra);
    let s6 = parse_u16_list(s5, hash_count->Some_0 as nat, true).1;
    lemma_u16_list_with_more(s5, hash_count->Some_0 as nat, true, extra);
    lemma_u16_list_with_more(s6, encryption_count->Some_0 as nat, true, extra);
}

/// Parameters that are cut off anywhere are refused.
pub proof fn law_cut_off_params_rejected(params: ClientTransportParamsView, k: int)
    requires
        params.fits(),
        0 <= k < params.wire_bytes().len(),
    ensures
        parse_params(params.wire_bytes().take(k)).0 is Err,
{
    let bytes = params.wire_bytes();
    if parse_params(bytes.take(k)).0 is Ok {
        law_nothing_behind_params(bytes.take(k), bytes.skip(k));
        assert(bytes.take(k) + bytes.skip(k) =~= bytes);
        law_params_roundtrip(params);
    }
}

/// Parameters that are read can be written, and would be read again.
pub proof fn law_decoded_params_fit(s: Seq<u8>)
    ensures
        parse_params(s).0 matches Ok(params) ==> params.fits() && parse_params(
            params.wire_bytes(),
        ).0 == Ok::<ClientTransportParamsView, Error>(params),
{
    assert forall|x: Seq<u8>| (#[trigger] codec::parse_varint(x)).0 is Some implies
        codec::parse_varint(x).0->Some_0 < VARINT_LIMIT by {
        codec::lemma_varint_in_range(x);
    }
    if let Ok(params) = parse_params(s).0 {
        law_params_roundtrip(params);
    }
}

/// The parameters on the wire: the limits, how many hash algorithms there are and how
/// many encryption algorithms, and the numbers of the ones and of the others.
pub proof fn law_params_layout(params: ClientTransportParamsView)
    ensures
        params.wire_bytes() == frame::limits_bytes(params.limits) + codec::varint_bytes(
            params.hash_algorithms.len() as u64,
        ) + codec::varint_bytes(params.encryption_algorithms.len() as u64) + u16_list_bytes(
            params.hash_algorithms,
        ) + u16_list_bytes(params.encryption_algorithms),
        params.fits() <==> params.limits.max_aggregate_rate_kibps < 0x4000_0000_0000_0000
            && params.limits.max_channel_ids < 0x4000_0000_0000_0000
            && params.hash_algorithms.len() < 0x4000_0000_0000_0000
            && params.encryption_algorithms.len() < 0x4000_0000_0000_0000,
{
}

/// Numbers of two bytes stand one behind the other, each with its upper byte first.
pub proof fn law_list_bytes(values: Seq<u16>, i: int)
    requires
        0 <= i < values.len(),
    ensures
        u16_list_bytes(values).len() == 2 * values.len(),
        values[i] == 256 * u16_list_bytes(values)[2 * i] + u16_list_bytes(values)[2 * i + 1],
{
    assert((2 * i + 1) / 2 == i && (2 * i) / 2 == i && (2 * i + 1) % 2 == 1 && (2 * i) % 2 == 0);
}

/// So many numbers of two bytes are read, in their order, or none where too few bytes
/// are left: that is an error of the parameters, or of the frame, that they stand in.
pub proof fn law_list_read(s: Seq<u8>, n: nat, transport_parameter: bool, i: int)
    ensures
        s.len() < 2 * n ==> parse_u16_list(s, n, transport_parameter).0 == Err::<Seq<u16>, Error>(
            if transport_parameter {
                Error::TransportParameter
            } else {
                Error::FrameEncoding
            },
        ),
        s.len() >= 2 * n ==> {
            &&& parse_u16_list(s, n, transport_parameter).0 matches Ok(values)
            &&& values.len() == n
            &&& 0 <= i < n ==> values[i] == 256 * s[2 * i] + s[2 * i + 1]
            &&& parse_u16_list(s, n, transport_parameter).1 == s.subrange(
                2 * n as int,
                s.len() as int,
            )
        },
{
    if s.len() >= 2 * n {
        assert(s.skip(2 * n as int) =~= s.subrange(2 * n as int, s.len() as int));
    }
}

/// Parameters are read field by field: a number that is missing is missing data, a list
/// that is cut off is a malformed parameter, and nothing may be left.
pub proof fn law_params_read(s: Seq<u8>)
    ensures
        ({
            let read = parse_params(s).0;
            let (limits, s1) = frame::parse_limits(s);
            let (hashes, s2) = codec::parse_varint(s1);
            let (ciphers, s3) = codec::parse_varint(s2);
            let missing = limits is Err || hashes is None || ciphers is None;
            &&& missing ==> read == Err::<ClientTransportParamsView, Error>(Error::NoMoreData)
            &&& !missing ==> {
                let n = hashes->Some_0 as nat;
                let m = ciphers->Some_0 as nat;
                let (hash_list, s4) = parse_u16_list(s3, n, true);
                let (cipher_list, s5) = parse_u16_list(s4, m, true);
                &&& s3.len() < 2 * n + 2 * m ==> read == Err::<ClientTransportParamsView, Error>(
                    Error::TransportParameter,
                )
                &&& s3.len() > 2 * n + 2 * m ==> read == Err::<ClientTransportParamsView, Error>(
                    Error::TooMuchData,
                )
                &&& s3.len() == 2 * n + 2 * m ==> {
                    &&& read matches Ok(params)
                    &&& params.limits == limits->Ok_0
                    &&& hash_list == Ok::<Seq<u16>, Error>(params.hash_algorithms)
                    &&& cipher_list == Ok::<Seq<u16>, Error>(params.encryption_algorithms)
                }
            }
        }),
{
}

} // verus!
