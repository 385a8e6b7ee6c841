# mcquic

Multicast for QUIC: the wire formats of its transport parameters and control
frames, the two ends of a multicast channel, and the streams of a connection that
channels deliver to. The library is written and proved in Verus.

The library does no I/O and holds no cryptography. A channel works in steps: a step
that needs a mask, a hash or a cipher ends in a request, and the answer starts the
next step. A caller owns the sockets and the cryptographic library.

| Part | Modules |
| --- | --- |
| Bytes, variable-length integers | `codec`, `hex` |
| Control frames and transport parameters | `types`, `frame`, `params` |
| Channel frames and packets | `channel_frame`, `foreign_frame`, `packet`, `algorithms` |
| The two ends of a channel | `send`, `receive`, `ack` |
| Streams | `stream_id`, `stream_order`, `sparse`, `streams` |
| What holds of them | `frame_laws`, `channel_frame_laws`, `packet_laws`, `channel_laws`, `stream_laws` |

`app/` is ordinary Rust around the library: it answers the requests with NSS, maps
socket addresses, drives the buffers of streams, and prints encodings
(`vectors::main`).
