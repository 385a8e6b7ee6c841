//! QUIC multicast: the wire formats of its transport parameters and control frames,
//! the two ends of a multicast channel, and the streams of a connection that
//! channels deliver to.
//!
//! The library does no I/O and holds no cryptography. A channel asks for what it
//! needs of a cryptographic library by values, and takes the answers back.

pub mod ack;
pub mod algorithms;
pub mod channel_frame;
pub mod channel_frame_laws;
pub mod channel_laws;
pub mod channel_wire_laws;
pub mod codec;
pub mod codec_laws;
pub mod error;
pub mod foreign_frame;
pub mod frame;
pub mod frame_laws;
pub mod header_laws;
pub mod hex;
pub mod operation_laws;
pub mod ordered;
pub mod packet;
pub mod packet_laws;
pub mod params;
pub mod receive;
pub mod receive_laws;
pub mod send;
pub mod send_laws;
pub mod sparse;
pub mod stream_id;
pub mod stream_laws;
pub mod stream_order;
pub mod stream_use_laws;
pub mod streams;
pub mod types;
pub mod view_laws;
pub mod wire_laws;
