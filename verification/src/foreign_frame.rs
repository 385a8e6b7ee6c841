//! The QUIC frames that no channel packet carries. They are read to their end, so
//! that a malformed one is told from one that is out of place.

use vstd::prelude::*;
use crate::codec;
use crate::codec::{Decoder, Parsed, VARINT_LIMIT};
use crate::error::{Error, Res};
use crate::frame::CHANNEL_ID_MAX_LEN;

verus! {

/// The frame type of `ACK`.
pub const ACK: u64 = 0x02;

/// The frame type of `ACK` with ECN counts.
pub const ACK_ECN: u64 = 0x03;

/// The frame type of `STOP_SENDING`.
pub const STOP_SENDING: u64 = 0x05;

/// The frame type of `CRYPTO`.
pub const CRYPTO: u64 = 0x06;

/// The frame type of `NEW_TOKEN`.
pub const NEW_TOKEN: u64 = 0x07;

/// The frame type of `MAX_DATA`.
pub const MAX_DATA: u64 = 0x10;

/// The frame type of `MAX_STREAM_DATA`.
pub const MAX_STREAM_DATA: u64 = 0x11;

/// The frame type of `MAX_STREAMS` for streams for both directions.
pub const MAX_STREAMS_BIDI: u64 = 0x12;

/// The frame type of `MAX_STREAMS` for streams for one direction.
pub const MAX_STREAMS_UNI: u64 = 0x13;

/// The frame type of `DATA_BLOCKED`.
pub const DATA_BLOCKED: u64 = 0x14;

/// The frame type of `STREAM_DATA_BLOCKED`.
pub const STREAM_DATA_BLOCKED: u64 = 0x15;

/// The frame type of `STREAMS_BLOCKED` for streams for both directions.
pub const STREAMS_BLOCKED_BIDI: u64 = 0x16;

/// The frame type of `STREAMS_BLOCKED` for streams for one direction.
pub const STREAMS_BLOCKED_UNI: u64 = 0x17;

/// The frame type of `NEW_CONNECTION_ID`.
pub const NEW_CONNECTION_ID: u64 = 0x18;

/// The frame type of `RETIRE_CONNECTION_ID`.
pub const RETIRE_CONNECTION_ID: u64 = 0x19;

/// The frame type of `PATH_CHALLENGE`.
pub const PATH_CHALLENGE: u64 = 0x1a;

/// The frame type of `PATH_RESPONSE`.
pub const PATH_RESPONSE: u64 = 0x1b;

/// The frame type of `CONNECTION_CLOSE` with an error of the transport.
pub const CONNECTION_CLOSE_TRANSPORT: u64 = 0x1c;

/// The frame type of `CONNECTION_CLOSE` with an error of the application.
pub const CONNECTION_CLOSE_APPLICATION: u64 = 0x1d;

/// The frame type of `HANDSHAKE_DONE`.
pub const HANDSHAKE_DONE: u64 = 0x1e;

/// The frame type of `ACK_FREQUENCY`.
pub const ACK_FREQUENCY: u64 = 0xaf;

/// The bound on the number of ranges of an `ACK`.
pub const ACK_RANGE_LIMIT: u64 = 32768;

/// The most streams that a `MAX_STREAMS` can allow.
pub const MAX_STREAMS_LIMIT: u64 = 0x1000_0000_0000_0000;

/// The length of a stateless reset token.
pub const RESET_TOKEN_LEN: usize = 16;

/// The length of the data of `PATH_CHALLENGE` and `PATH_RESPONSE`.
pub const PATH_DATA_LEN: usize = 8;

/// Whether `frame_type` is the type of a frame that no channel packet carries.
pub open spec fn foreign_type(frame_type: u64) -> bool {
    ||| frame_type == ACK
    ||| frame_type == ACK_ECN
    ||| STOP_SENDING <= frame_type <= NEW_TOKEN
    ||| MAX_DATA <= frame_type <= HANDSHAKE_DONE
    ||| frame_type == ACK_FREQUENCY
}

/// What comes of a reader whose value does not matter.
pub open spec fn and_done<T>(p: Parsed<T>) -> Parsed<()> {
    match p {
        (Err(e), s) => (Err(e), s),
        (Ok(_), s) => (Ok(()), s),
    }
}

/// Reads `n` variable-length integers.
pub open spec fn parse_varints(s: Seq<u8>, n: nat) -> Parsed<()>
    decreases n,
{
    if n == 0 {
        (Ok(()), s)
    } else {
        match codec::required(codec::parse_varint(s)) {
            (Err(e), s) => (Err(e), s),
            (Ok(_), s) => parse_varints(s, (n - 1) as nat),
        }
    }
}

/// How many integers of an `ACK` follow the count of its ranges: the first range, a
/// gap and a length for each other, and the ECN counts.
pub open spec fn ack_tail(count: u64, ecn: bool) -> nat {
    1 + 2 * count as nat + if ecn {
        3nat
    } else {
        0nat
    }
}

/// Reads what follows the frame type of `ACK`.
pub open spec fn parse_ack(s: Seq<u8>, ecn: bool) -> Parsed<()> {
    match parse_varints(s, 2) {
        (Err(e), s) => (Err(e), s),
        (Ok(_), s) => match codec::required(codec::parse_varint(s)) {
            (Err(e), s) => (Err(e), s),
            (Ok(count), s) => if count >= ACK_RANGE_LIMIT {
                (Err(Error::TooMuchData), s)
            } else {
                parse_varints(s, ack_tail(count, ecn))
            },
        },
    }
}

/// Reads what follows the frame type of `CRYPTO`. The data may not go beyond the last
/// offset.
pub open spec fn parse_crypto(s: Seq<u8>) -> Parsed<()> {
    match codec::required(codec::parse_varint(s)) {
        (Err(e), s) => (Err(e), s),
        (Ok(offset), s) => match codec::required(codec::parse_vvec(s)) {
            (Err(e), s) => (Err(e), s),
            (Ok(data), s) => if offset + data.len() >= VARINT_LIMIT {
                (Err(Error::FrameEncoding), s)
            } else {
                (Ok(()), s)
            },
        },
    }
}

/// Reads what follows the frame type of `NEW_TOKEN`. The token may not be empty.
pub open spec fn parse_new_token(s: Seq<u8>) -> Parsed<()> {
    match codec::required(codec::parse_vvec(s)) {
        (Err(e), s) => (Err(e), s),
        (Ok(token), s) => if token.len() == 0 {
            (Err(Error::FrameEncoding), s)
        } else {
            (Ok(()), s)
        },
    }
}

/// Reads what follows the frame type of `MAX_STREAMS`.
pub open spec fn parse_max_streams(s: Seq<u8>) -> Parsed<()> {
    match codec::required(codec::parse_varint(s)) {
        (Err(e), s) => (Err(e), s),
        (Ok(maximum), s) => if maximum > MAX_STREAMS_LIMIT {
            (Err(Error::StreamLimit), s)
        } else {
            (Ok(()), s)
        },
    }
}

/// Reads a connection ID behind its length.
pub open spec fn parse_connection_id(s: Seq<u8>) -> Parsed<Seq<u8>> {
    match codec::required(codec::parse_u8(s)) {
        (Err(e), s) => (Err(e), s),
        (Ok(len), s) => codec::required(codec::parse_bytes(s, len as nat)),
    }
}

/// Reads what follows the frame type of `NEW_CONNECTION_ID`.
pub open spec fn parse_new_connection_id(s: Seq<u8>) -> Parsed<()> {
    match parse_varints(s, 2) {
        (Err(e), s) => (Err(e), s),
        (Ok(_), s) => match parse_connection_id(s) {
            (Err(e), s) => (Err(e), s),
            (Ok(connection_id), s) => if connection_id.len() > CHANNEL_ID_MAX_LEN {
                (Err(Error::FrameEncoding), s)
            } else {
                and_done(codec::required(codec::parse_bytes(s, RESET_TOKEN_LEN as nat)))
            },
        },
    }
}

/// Reads what follows the frame type of `CONNECTION_CLOSE`: `n` integers, and the
/// reason.
pub open spec fn parse_connection_close(s: Seq<u8>, n: nat) -> Parsed<()> {
    match parse_varints(s, n) {
        (Err(e), s) => (Err(e), s),
        (Ok(_), s) => and_done(codec::required(codec::parse_vvec(s))),
    }
}

/// Reads what follows the frame type of `ACK_FREQUENCY`. The tolerance may not be
/// zero, and the last byte is a truth value.
pub open spec fn parse_ack_frequency(s: Seq<u8>) -> Parsed<()> {
    match parse_varints(s, 1) {
        (Err(e), s) => (Err(e), s),
        (Ok(_), s) => match codec::required(codec::parse_varint(s)) {
            (Err(e), s) => (Err(e), s),
            (Ok(tolerance), s) => if tolerance == 0 {
                (Err(Error::FrameEncoding), s)
            } else {
                match parse_varints(s, 1) {
                    (Err(e), s) => (Err(e), s),
                    (Ok(_), s) => match codec::required(codec::parse_u8(s)) {
                        (Err(e), s) => (Err(e), s),
                        (Ok(ignore_order), s) => if ignore_order > 1 {
                            (Err(Error::FrameEncoding), s)
                        } else {
                            (Ok(()), s)
                        },
                    },
                }
            },
        },
    }
}

/// Reads what follows the frame type `frame_type`.
pub open spec fn parse_foreign(s: Seq<u8>, frame_type: u64) -> Parsed<()> {
    if frame_type == ACK || frame_type == ACK_ECN {
        parse_ack(s, frame_type == ACK_ECN)
    } else if frame_type == CRYPTO {
        parse_crypto(s)
    } else if frame_type == NEW_TOKEN {
        parse_new_token(s)
    } else if frame_type == MAX_STREAMS_BIDI || frame_type == MAX_STREAMS_UNI {
        parse_max_streams(s)
    } else if frame_type == NEW_CONNECTION_ID {
        parse_new_connection_id(s)
    } else if frame_type == PATH_CHALLENGE || frame_type == PATH_RESPONSE {
        and_done(codec::required(codec::parse_bytes(s, PATH_DATA_LEN as nat)))
    } else if frame_type == CONNECTION_CLOSE_TRANSPORT {
        parse_connection_close(s, 2)
    } else if frame_type == CONNECTION_CLOSE_APPLICATION {
        parse_connection_close(s, 1)
    } else if frame_type == ACK_FREQUENCY {
        parse_ack_frequency(s)
    } else if frame_type == STOP_SENDING || frame_type == MAX_STREAM_DATA || frame_type
        == STREAM_DATA_BLOCKED {
        parse_varints(s, 2)
    } else if frame_type == MAX_DATA || frame_type == DATA_BLOCKED || frame_type
        == STREAMS_BLOCKED_BIDI || frame_type == STREAMS_BLOCKED_UNI || frame_type
        == RETIRE_CONNECTION_ID {
        parse_varints(s, 1)
    } else if frame_type == HANDSHAKE_DONE {
        (Ok(()), s)
    } else {
        (Err(Error::UnknownFrameType), s)
    }
}

/// A frame type is refused as unknown exactly if no foreign frame has it.
pub proof fn law_foreign_types(s: Seq<u8>, frame_type: u64)
    ensures
        parse_foreign(s, frame_type).0 == Err::<(), Error>(Error::UnknownFrameType)
            <==> !foreign_type(frame_type),
{
    assert forall|x: Seq<u8>, n: nat| (#[trigger] parse_varints(x, n)).0 matches Err(e) ==> e
        == Error::NoMoreData by {
        lemma_varints(x, n);
    }
}

proof fn lemma_varints(s: Seq<u8>, n: nat)
    ensures
        parse_varints(s, n).1.len() <= s.len(),
        parse_varints(s, n).0 matches Err(e) ==> e == Error::NoMoreData,
    decreases n,
{
    if n > 0 {
        codec::lemma_varint_shrinks(s);
        lemma_varints(codec::parse_varint(s).1, (n - 1) as nat);
    }
}

/// A reader of foreign frames leaves no more than it was given.
pub proof fn lemma_foreign_shrinks(s: Seq<u8>, frame_type: u64)
    ensures
        parse_foreign(s, frame_type).1.len() <= s.len(),
{
    assert forall|x: Seq<u8>, n: nat| (#[trigger] parse_varints(x, n)).1.len() <= x.len() by {
        lemma_varints(x, n);
    }
    assert forall|x: Seq<u8>| (#[trigger] codec::parse_varint(x)).1.len() <= x.len() by {
        codec::lemma_varint_shrinks(x);
    }
    assert forall|x: Seq<u8>| (#[trigger] codec::parse_vvec(x)).1.len() <= x.len() by {}
    assert forall|x: Seq<u8>| (#[trigger] parse_connection_id(x)).1.len() <= x.len() by {}
}

/// Reads `n` variable-length integers.
fn skip_varints(dec: &mut Decoder, n: u64) -> (out: Res<()>)
    ensures
        (out, final(dec)@) == parse_varints(old(dec)@, n as nat),
{
    let mut left: u64 = n;
    while left > 0
        invariant
            parse_varints(dec@, left as nat) == parse_varints(old(dec)@, n as nat),
        decreases left,
    {
        codec::decode_varint(dec)?;
        left = left - 1;
    }
    Ok(())
}

/// Reads what follows the frame type of `ACK`.
fn skip_ack(dec: &mut Decoder, ecn: bool) -> (out: Res<()>)
    ensures
        (out, final(dec)@) == parse_ack(old(dec)@, ecn),
{
    skip_varints(dec, 2)?;
    let count = codec::decode_varint(dec)?;
    if count >= ACK_RANGE_LIMIT {
        return Err(Error::TooMuchData);
    }
    let tail: u64 = if ecn {
        1 + 2 * count + 3
    } else {
        1 + 2 * count
    };
    skip_varints(dec, tail)
}

/// Reads what follows the frame type of `CRYPTO`.
fn skip_crypto(dec: &mut Decoder) -> (out: Res<()>)
    ensures
        (out, final(dec)@) == parse_crypto(old(dec)@),
{
    let offset = codec::decode_varint(dec)?;
    let data = codec::decode_vvec(dec)?;
    if data.len() as u64 >= VARINT_LIMIT || offset + data.len() as u64 >= VARINT_LIMIT {
        return Err(Error::FrameEncoding);
    }
    Ok(())
}

/// Reads what follows the frame type of `NEW_TOKEN`.
fn skip_new_token(dec: &mut Decoder) -> (out: Res<()>)
    ensures
        (out, final(dec)@) == parse_new_token(old(dec)@),
{
    let token = codec::decode_vvec(dec)?;
    if token.len() == 0 {
        return Err(Error::FrameEncoding);
    }
    Ok(())
}

/// Reads what follows the frame type of `MAX_STREAMS`.
fn skip_max_streams(dec: &mut Decoder) -> (out: Res<()>)
    ensures
        (out, final(dec)@) == parse_max_streams(old(dec)@),
{
    let maximum = codec::decode_varint(dec)?;
    if maximum > MAX_STREAMS_LIMIT {
        return Err(Error::StreamLimit);
    }
    Ok(())
}

/// Reads what follows the frame type of `NEW_CONNECTION_ID`.
fn skip_new_connection_id(dec: &mut Decoder) -> (out: Res<()>)
    ensures
        (out, final(dec)@) == parse_new_connection_id(old(dec)@),
{
    skip_varints(dec, 2)?;
    let len = codec::decode_byte(dec)?;
    let connection_id = codec::decode_exact(dec, len as usize)?;
    if connection_id.len() > CHANNEL_ID_MAX_LEN {
        return Err(Error::FrameEncoding);
    }
    codec::decode_exact(dec, RESET_TOKEN_LEN)?;
    Ok(())
}

/// Reads what follows the frame type of `CONNECTION_CLOSE`: `n` integers, and the
/// reason.
fn skip_connection_close(dec: &mut Decoder, n: u64) -> (out: Res<()>)
    ensures
        (out, final(dec)@) == parse_connection_close(old(dec)@, n as nat),
{
    skip_varints(dec, n)?;
    codec::decode_vvec(dec)?;
    Ok(())
}

/// Reads what follows the frame type of `ACK_FREQUENCY`.
fn skip_ack_frequency(dec: &mut Decoder) -> (out: Res<()>)
    ensures
        (out, final(dec)@) == parse_ack_frequency(old(dec)@),
{
    skip_varints(dec, 1)?;
    let tolerance = codec::decode_varint(dec)?;
    if tolerance == 0 {
        return Err(Error::FrameEncoding);
    }
    skip_varints(dec, 1)?;
    let ignore_order = codec::decode_byte(dec)?;
    if ignore_order > 1 {
        return Err(Error::FrameEncoding);
    }
    Ok(())
}

/// Reads a frame that no channel packet carries, whose type was read before, to its
/// end.
pub fn skip_frame(frame_type: u64, dec: &mut Decoder) -> (out: Res<()>)
    ensures
        (out, final(dec)@) == parse_foreign(old(dec)@, frame_type),
{
    match frame_type {
        ACK | ACK_ECN => skip_ack(dec, frame_type == ACK_ECN),
        CRYPTO => skip_crypto(dec),
        NEW_TOKEN => skip_new_token(dec),
        MAX_STREAMS_BIDI | MAX_STREAMS_UNI => skip_max_streams(dec),
        NEW_CONNECTION_ID => skip_new_connection_id(dec),
        PATH_CHALLENGE | PATH_RESPONSE => {
            codec::decode_exact(dec, PATH_DATA_LEN)?;
            Ok(())
        },
        CONNECTION_CLOSE_TRANSPORT => skip_connection_close(dec, 2),
        CONNECTION_CLOSE_APPLICATION => skip_connection_close(dec, 1),
        ACK_FREQUENCY => skip_ack_frequency(dec),
        STOP_SENDING | MAX_STREAM_DATA | STREAM_DATA_BLOCKED => skip_varints(dec, 2),
        MAX_DATA | DATA_BLOCKED | STREAMS_BLOCKED_BIDI | STREAMS_BLOCKED_UNI
        | RETIRE_CONNECTION_ID => skip_varints(dec, 1),
        HANDSHAKE_DONE => Ok(()),
        _ => Err(Error::UnknownFrameType),
    }
}

} // verus!
