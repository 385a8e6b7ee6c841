//! Errors of the multicast transport.

use vstd::prelude::*;

verus! {

/// Why an operation was refused.
#[derive(Clone, Copy, Debug, PartialEq, Eq, Structural)]
pub enum Error {
    /// A cryptographic operation failed.
    Crypto,
    /// A packet does not match its integrity hash, or does not decrypt.
    Decrypt,
    /// A frame holds values that the protocol does not allow.
    FrameEncoding,
    /// A number does not fit in its type.
    IntegerOverflow,
    /// An operation was used in a way that it does not support.
    Internal,
    /// A packet is malformed, or is not for this channel.
    InvalidPacket,
    /// A stream does not exist.
    InvalidStreamId,
    /// The input or the output buffer ended too early.
    NoMoreData,
    /// Something that the operation needs is missing or not supported.
    NotAvailable,
    /// The peer broke a rule of the protocol.
    ProtocolViolation,
    /// A stream was used that cannot exist.
    StreamState,
    /// A stream limit was reached.
    StreamLimit,
    /// The input goes on after its end, or announces too many items.
    TooMuchData,
    /// A transport parameter is malformed.
    TransportParameter,
    /// A frame type is not known.
    UnknownFrameType,
}

/// The result of an operation that can be refused.
pub type Res<T> = Result<T, Error>;

} // verus!
