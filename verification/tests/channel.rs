//! The two ends of a multicast channel, with a small cryptographic library that is
//! good for tests only.

use mcquic::algorithms::{HashAlgorithm, IntegrityHashAlgorithm};
use mcquic::channel_frame::{
    decode_channel_frames, encode_channel_frames, ChannelDatagram, ChannelFrame, QuicFrame,
};
use mcquic::codec::{Decoder, Encoder};
use mcquic::error::{Error, Res};
use mcquic::packet::{
    apply_header_protection, decode_packet_number, decrypt_channel_header, decrypt_channel_packet,
    encode_packet_number, open_payload, ChannelPacket, CryptoRequest,
};
use mcquic::receive::{ChannelReceiveState, ReceiveStep};
use mcquic::send::{ChannelSendOutput, ChannelSendState, SendStep};
use mcquic::types::{Announce, Frame, Integrity, IpAddr, Join, Key, Retire};

/// Spreads `data` over `len` bytes.
fn mix(parts: &[&[u8]], len: usize) -> Vec<u8> {
    let mut state = 0xcbf2_9ce4_8422_2325u64;
    for part in parts {
        state = (state ^ part.len() as u64).wrapping_mul(0x0100_0000_01b3);
        for byte in part.iter() {
            state = (state ^ u64::from(*byte)).wrapping_mul(0x0100_0000_01b3);
            state ^= state >> 29;
        }
    }
    let mut out = Vec::new();
    for i in 0..len {
        state = (state ^ i as u64).wrapping_mul(0x9e37_79b9_7f4a_7c15);
        state ^= state >> 31;
        out.push((state >> 24) as u8);
    }
    out
}

fn xor(data: &[u8], stream: &[u8]) -> Vec<u8> {
    data.iter().zip(stream).map(|(a, b)| a ^ b).collect()
}

fn answer(request: &CryptoRequest) -> Res<Vec<u8>> {
    match request {
        CryptoRequest::HeaderMask { secret, sample, .. } => {
            assert_eq!(sample.len(), 16);
            Ok(mix(&[secret, sample], 16))
        }
        CryptoRequest::Hash { algorithm, data } => Ok(mix(
            &[data],
            match algorithm {
                HashAlgorithm::Sha256 => 32,
                HashAlgorithm::Sha384 => 48,
                HashAlgorithm::Sha512 => 64,
            },
        )),
        CryptoRequest::Seal { secret, packet_number, header, plaintext, .. } => {
            let nonce = packet_number.to_be_bytes();
            let mut out = xor(plaintext, &mix(&[secret, &nonce], plaintext.len()));
            out.extend(mix(&[secret, &nonce, header, plaintext], 16));
            Ok(out)
        }
        CryptoRequest::Open { secret, min_packet_number, packet_number, header, ciphertext, .. } => {
            if packet_number < min_packet_number || ciphertext.len() < 16 {
                return Err(Error::Crypto);
            }
            let nonce = packet_number.to_be_bytes();
            let (data, tag) = ciphertext.split_at(ciphertext.len() - 16);
            let plaintext = xor(data, &mix(&[secret, &nonce], data.len()));
            if tag == mix(&[secret, &nonce, header, &plaintext], 16).as_slice() {
                Ok(plaintext)
            } else {
                Err(Error::Crypto)
            }
        }
    }
}

fn finish(state: &mut ChannelReceiveState, step: ReceiveStep) -> Res<Vec<ChannelDatagram>> {
    let mut step = step;
    loop {
        match step {
            ReceiveStep::Done(result) => return result,
            ReceiveStep::Await(request) => step = state.resume(answer(&request)),
        }
    }
}

fn insert_key(state: &mut ChannelReceiveState, key: Key) -> Res<Vec<ChannelDatagram>> {
    let step = state.insert_key(key);
    finish(state, step)
}

fn insert_integrity(
    state: &mut ChannelReceiveState,
    integrity: Integrity,
) -> Res<Vec<ChannelDatagram>> {
    let step = state.insert_integrity(integrity);
    finish(state, step)
}

fn process_protected_packet(
    state: &mut ChannelReceiveState,
    packet: &[u8],
) -> Res<Vec<ChannelDatagram>> {
    let step = state.process_protected_packet(packet);
    finish(state, step)
}

fn process_authenticated_packet(
    state: &mut ChannelReceiveState,
    packet: ChannelPacket,
    protected_packet: &[u8],
) -> Res<Vec<ChannelDatagram>> {
    let step = state.process_authenticated_packet(packet, protected_packet);
    finish(state, step)
}

fn write_packet(
    state: &mut ChannelSendState,
    frames: &[ChannelFrame],
    out: &mut [u8],
) -> Res<ChannelSendOutput> {
    let mut step = state.write_packet(frames);
    loop {
        match step {
            SendStep::Done(result) => return result,
            SendStep::Await(request) => step = state.resume(answer(&request), out),
        }
    }
}

fn channel_id() -> Vec<u8> {
    b"channel-1".to_vec()
}

fn announce() -> Announce {
    Announce {
        channel_id: channel_id(),
        source: IpAddr::V4([192, 0, 2, 1]),
        group: IpAddr::V4([233, 252, 0, 1]),
        udp_port: 4433,
        header_protection_algorithm: 0x1301,
        header_secret: vec![0x11; 32],
        aead_algorithm: 0x1301,
        integrity_hash_algorithm: 1,
        max_rate_kibps: 10_000,
        max_ack_delay_ms: 25,
    }
}

fn key(key_sequence: u64, from_packet_number: u64) -> Key {
    Key {
        channel_id: channel_id(),
        key_sequence,
        from_packet_number,
        secret: vec![0x22; 32],
    }
}

fn datagram(data: &[u8]) -> ChannelFrame {
    ChannelFrame::Datagram { data: data.to_vec() }
}

#[test]
fn channel_receive_releases_valid_datagram_and_ack() {
    let mut state = ChannelReceiveState::new(announce()).expect("receive state");
    insert_key(
        &mut state,
        Key {
            channel_id: channel_id(),
            key_sequence: 7,
            from_packet_number: 0,
            secret: vec![0xcc; 32],
        },
    )
    .expect("insert key");

    let protected_packet = b"protected packet bytes";
    let hash = IntegrityHashAlgorithm::from_id(1).expect("hash algorithm");
    let packet_hash = hash.hash(
        answer(&CryptoRequest::Hash {
            algorithm: hash.algorithm(),
            data: protected_packet.to_vec(),
        })
        .expect("packet hash"),
    );
    insert_integrity(
        &mut state,
        Integrity {
            channel_id: channel_id(),
            packet_number_start: 10,
            packet_hash_count: Some(1),
            packet_hashes: packet_hash,
        },
    )
    .expect("insert integrity");

    let released = process_authenticated_packet(
        &mut state,
        ChannelPacket {
            channel_id: channel_id(),
            packet_number: 10,
            key_sequence: 7,
            key_phase: false,
            frames: vec![ChannelFrame::Datagram {
                data: b"payload".to_vec(),
            }],
        },
        protected_packet,
    )
    .expect("process packet");

    assert_eq!(released.len(), 1);
    assert_eq!(released[0].data, b"payload");
    assert!(state.pending_ack().is_some());
    assert_eq!(state.pop_datagram(), released.into_iter().next());
}

#[test]
fn protected_channel_packet_releases_after_key_and_integrity() {
    let announce = announce();
    let key = Key {
        channel_id: channel_id(),
        key_sequence: 1,
        from_packet_number: 0,
        secret: vec![0x22; 32],
    };
    let mut sender = ChannelSendState::new(announce.clone(), key.clone()).expect("send state");
    let mut out = vec![0; 1200];
    let sent = write_packet(
        &mut sender,
        &[ChannelFrame::Datagram {
            data: b"payload".to_vec(),
        }],
        &mut out,
    )
    .expect("write channel packet");
    let protected_packet = &out[..sent.packet_len];

    let mut receiver = ChannelReceiveState::new(announce).expect("receive state");
    assert!(process_protected_packet(&mut receiver, protected_packet)
        .expect("buffer packet")
        .is_empty());
    assert!(insert_key(&mut receiver, key).expect("insert key").is_empty());
    let released =
        insert_integrity(&mut receiver, sent.integrity).expect("insert integrity releases");

    assert_eq!(released.len(), 1);
    assert_eq!(released[0].packet_number, sent.packet_number);
    assert_eq!(released[0].data, b"payload");
    assert_eq!(receiver.pop_datagram(), released.into_iter().next());
    assert!(receiver.pending_ack().is_some());
}

#[test]
fn protected_channel_packet_without_integrity_waits() {
    let announce = announce();
    let key = Key {
        channel_id: channel_id(),
        key_sequence: 1,
        from_packet_number: 0,
        secret: vec![0x22; 32],
    };
    let mut sender = ChannelSendState::new(announce.clone(), key.clone()).expect("send state");
    let mut out = vec![0; 1200];
    let sent = write_packet(
        &mut sender,
        &[ChannelFrame::Datagram {
            data: b"payload".to_vec(),
        }],
        &mut out,
    )
    .expect("write channel packet");

    let mut receiver = ChannelReceiveState::new(announce).expect("receive state");
    insert_key(&mut receiver, key).expect("insert key");
    assert!(process_protected_packet(&mut receiver, &out[..sent.packet_len])
        .expect("packet waits for integrity")
        .is_empty());
    assert!(receiver.pop_datagram().is_none());
    assert!(receiver.pending_ack().is_none());
}

#[test]
fn protected_channel_packet_rejects_integrity_mismatch() {
    let announce = announce();
    let key = Key {
        channel_id: channel_id(),
        key_sequence: 1,
        from_packet_number: 0,
        secret: vec![0x22; 32],
    };
    let mut sender = ChannelSendState::new(announce.clone(), key.clone()).expect("send state");
    let mut out = vec![0; 1200];
    let sent = write_packet(
        &mut sender,
        &[ChannelFrame::Datagram {
            data: b"payload".to_vec(),
        }],
        &mut out,
    )
    .expect("write channel packet");
    out[sent.packet_len - 1] ^= 0x01;

    let mut receiver = ChannelReceiveState::new(announce).expect("receive state");
    insert_key(&mut receiver, key).expect("insert key");
    insert_integrity(&mut receiver, sent.integrity).expect("insert integrity");
    assert_eq!(
        process_protected_packet(&mut receiver, &out[..sent.packet_len]).unwrap_err(),
        Error::Decrypt
    );
    assert!(receiver.pop_datagram().is_none());
}

#[test]
fn channel_receive_without_integrity_does_not_release() {
    let mut state = ChannelReceiveState::new(announce()).expect("receive state");
    insert_key(
        &mut state,
        Key {
            channel_id: channel_id(),
            key_sequence: 7,
            from_packet_number: 0,
            secret: vec![0xcc; 32],
        },
    )
    .expect("insert key");

    assert_eq!(
        process_authenticated_packet(
            &mut state,
            ChannelPacket {
                channel_id: channel_id(),
                packet_number: 10,
                key_sequence: 7,
                key_phase: false,
                frames: vec![ChannelFrame::Datagram {
                    data: b"payload".to_vec(),
                }],
            },
            b"protected packet bytes",
        )
        .unwrap_err(),
        Error::NotAvailable
    );
    assert!(state.pop_datagram().is_none());
}

#[test]
fn unsupported_algorithms_are_rejected() {
    let mut unsupported_hash = announce();
    unsupported_hash.integrity_hash_algorithm = 99;
    assert_eq!(
        ChannelReceiveState::new(unsupported_hash).unwrap_err(),
        Error::NotAvailable
    );

    let mut unsupported_aead = announce();
    unsupported_aead.aead_algorithm = 99;
    assert_eq!(
        ChannelReceiveState::new(unsupported_aead).unwrap_err(),
        Error::NotAvailable
    );
}

#[test]
fn a_sender_checks_what_it_is_given() {
    let mut mixed = announce();
    mixed.aead_algorithm = 0x1303;
    assert_eq!(
        ChannelSendState::new(mixed.clone(), key(1, 0)).unwrap_err(),
        Error::NotAvailable
    );
    // A receiver takes two algorithms.
    assert!(ChannelReceiveState::new(mixed).is_ok());

    let mut long = announce();
    long.channel_id = vec![0; 21];
    assert_eq!(
        ChannelSendState::new(long.clone(), key(1, 0)).unwrap_err(),
        Error::FrameEncoding
    );
    assert_eq!(
        ChannelReceiveState::new(long).unwrap_err(),
        Error::FrameEncoding
    );

    let mut other = key(1, 0);
    other.channel_id = b"other".to_vec();
    assert_eq!(
        ChannelSendState::new(announce(), other.clone()).unwrap_err(),
        Error::FrameEncoding
    );
    let mut sender = ChannelSendState::new(announce(), key(2, 5)).expect("send state");
    assert_eq!(sender.update_key(other), Err(Error::FrameEncoding));
    assert_eq!(sender.update_key(key(1, 5)), Err(Error::FrameEncoding));
    assert_eq!(sender.update_key(key(3, 4)), Err(Error::FrameEncoding));
    assert_eq!(sender.key(), &key(2, 5));
    assert_eq!(sender.announce(), &announce());
}

#[test]
fn packet_numbers_go_up_and_keys_do_not_rewind_them() {
    let mut sender = ChannelSendState::new(announce(), key(1, 7)).expect("send state");
    let mut out = [0; 100];
    assert_eq!(sender.next_packet_number(), 7);
    let first = write_packet(&mut sender, &[ChannelFrame::Ping], &mut out).expect("first");
    assert_eq!((first.packet_number, first.key_sequence, first.key_phase), (7, 1, true));
    assert_eq!(sender.next_packet_number(), 8);
    sender.update_key(key(2, 7)).expect("same start");
    assert_eq!(sender.next_packet_number(), 8);
    sender.update_key(key(4, 20)).expect("later start");
    assert_eq!(sender.next_packet_number(), 20);
    let second = write_packet(&mut sender, &[ChannelFrame::Ping], &mut out).expect("second");
    assert_eq!((second.packet_number, second.key_sequence, second.key_phase), (20, 4, false));
}

#[test]
fn a_packet_needs_room_and_frames() {
    let mut sender = ChannelSendState::new(announce(), key(1, 0)).expect("send state");
    let mut out = [0xee; 40];
    assert_eq!(
        write_packet(&mut sender, &[datagram(&[0; 100])], &mut out).unwrap_err(),
        Error::NoMoreData
    );
    assert_eq!(out, [0xee; 40]);
    assert_eq!(
        write_packet(&mut sender, &[], &mut out).unwrap_err(),
        Error::FrameEncoding
    );
    assert_eq!(sender.next_packet_number(), 0);
    // A header of 14 bytes, a frame of one byte and a tag of 16 bytes.
    let sent = write_packet(&mut sender, &[ChannelFrame::Ping], &mut out).expect("ping");
    assert_eq!(sent.packet_len, 31);
    assert_eq!(out[31..], [0xee; 9]);
    assert_eq!(&out[1..10], b"channel-1");
    assert_eq!(out[0] & 0xc0, 0x40);
    assert_eq!(sent.integrity.channel_id, channel_id());
    assert_eq!(sent.integrity.packet_number_start, 0);
    assert_eq!(sent.integrity.packet_hash_count, Some(1));
    assert_eq!(
        sent.integrity.packet_hashes,
        mix(&[&out[..31]], 32)
    );
}

#[test]
fn the_last_packet_number_is_not_sent() {
    let mut sender = ChannelSendState::new(announce(), key(1, u64::MAX)).expect("send state");
    let mut out = [0; 100];
    assert_eq!(
        write_packet(&mut sender, &[ChannelFrame::Ping], &mut out).unwrap_err(),
        Error::IntegerOverflow
    );
    assert_eq!(sender.next_packet_number(), u64::MAX);
}

#[test]
fn a_sender_passes_errors_on() {
    let mut sender = ChannelSendState::new(announce(), key(1, 0)).expect("send state");
    let mut out = [0; 100];
    assert_eq!(
        sender.resume(Ok(vec![]), &mut out),
        SendStep::Done(Err(Error::Internal))
    );
    assert!(matches!(sender.write_packet(&[ChannelFrame::Ping]), SendStep::Await(CryptoRequest::Seal { .. })));
    assert_eq!(
        sender.resume(Err(Error::Crypto), &mut out),
        SendStep::Done(Err(Error::Crypto))
    );
    assert_eq!(
        sender.resume(Ok(vec![]), &mut out),
        SendStep::Done(Err(Error::Internal))
    );
    // A ciphertext that is too short for a sample, and a mask that is too short.
    let _ = sender.write_packet(&[ChannelFrame::Ping]);
    assert_eq!(
        sender.resume(Ok(vec![1, 2, 3]), &mut out),
        SendStep::Done(Err(Error::NoMoreData))
    );
    let _ = sender.write_packet(&[ChannelFrame::Ping]);
    assert!(matches!(
        sender.resume(Ok(vec![1; 17]), &mut out),
        SendStep::Await(CryptoRequest::HeaderMask { .. })
    ));
    assert_eq!(
        sender.resume(Ok(vec![1; 4]), &mut out),
        SendStep::Done(Err(Error::Internal))
    );
}

fn channel(packets: &[&[ChannelFrame]]) -> Vec<(Vec<u8>, Integrity)> {
    let mut sender = ChannelSendState::new(announce(), key(1, 0)).expect("send state");
    packets
        .iter()
        .map(|frames| {
            let mut out = vec![0; 1200];
            let sent = write_packet(&mut sender, frames, &mut out).expect("packet");
            (out[..sent.packet_len].to_vec(), sent.integrity)
        })
        .collect()
}

#[test]
fn packets_are_released_in_the_order_of_their_numbers() {
    let sent = channel(&[
        &[datagram(b"a"), ChannelFrame::Ping, datagram(b"b")],
        &[datagram(b"c")],
        &[datagram(b"d")],
    ]);
    let mut receiver = ChannelReceiveState::new(announce()).expect("receive state");
    assert_eq!(receiver.channel_id(), b"channel-1");
    for (packet, integrity) in sent.iter().rev() {
        insert_integrity(&mut receiver, integrity.clone()).expect("integrity");
        assert!(process_protected_packet(&mut receiver, packet).expect("packet").is_empty());
    }
    let released = insert_key(&mut receiver, key(1, 0)).expect("key");
    let data: Vec<&[u8]> = released.iter().map(|d| d.data.as_slice()).collect();
    assert_eq!(data, [b"a", b"b", b"c", b"d"]);
    for datagram in released {
        assert_eq!(receiver.pop_datagram(), Some(datagram));
    }
    assert!(receiver.pop_datagram().is_none());
    let ack = receiver.pending_ack().expect("ack");
    assert_eq!((ack.largest_acknowledged, ack.first_ack_range), (2, 2));
    receiver.mark_ack_sent();
    assert!(receiver.pending_ack().is_none());
}

#[test]
fn a_packet_is_released_once() {
    let sent = channel(&[&[datagram(b"a")]]);
    let mut receiver = ChannelReceiveState::new(announce()).expect("receive state");
    insert_key(&mut receiver, key(1, 0)).expect("key");
    insert_integrity(&mut receiver, sent[0].1.clone()).expect("integrity");
    assert_eq!(
        process_protected_packet(&mut receiver, &sent[0].0).expect("first").len(),
        1
    );
    assert!(process_protected_packet(&mut receiver, &sent[0].0).expect("again").is_empty());
    assert!(receiver.pop_datagram().is_some());
    assert!(receiver.pop_datagram().is_none());
}

#[test]
fn the_newest_key_of_the_phase_is_used() {
    let mut sender = ChannelSendState::new(announce(), key(1, 0)).expect("send state");
    let mut newer = key(3, 1);
    newer.secret = vec![0x33; 32];
    sender.update_key(newer.clone()).expect("update");
    let mut out = vec![0; 1200];
    let sent = write_packet(&mut sender, &[datagram(b"x")], &mut out).expect("packet");
    assert_eq!(sent.packet_number, 1);
    let packet = &out[..sent.packet_len];

    let mut receiver = ChannelReceiveState::new(announce()).expect("receive state");
    insert_key(&mut receiver, key(1, 0)).expect("old");
    insert_key(&mut receiver, key(2, 0)).expect("other phase");
    insert_key(&mut receiver, newer.clone()).expect("new");
    let mut later = key(5, 2);
    later.secret = vec![0x44; 32];
    insert_key(&mut receiver, later).expect("later");
    insert_integrity(&mut receiver, sent.integrity.clone()).expect("integrity");
    assert_eq!(
        process_protected_packet(&mut receiver, packet).expect("packet").len(),
        1
    );

    // With the old key only, the packet does not open, and is gone.
    let mut receiver = ChannelReceiveState::new(announce()).expect("receive state");
    insert_key(&mut receiver, key(1, 0)).expect("old");
    insert_integrity(&mut receiver, sent.integrity).expect("integrity");
    assert_eq!(
        process_protected_packet(&mut receiver, packet).unwrap_err(),
        Error::Crypto
    );
    assert!(insert_key(&mut receiver, newer).expect("new").is_empty());
}

#[test]
fn keys_do_not_change() {
    let mut receiver = ChannelReceiveState::new(announce()).expect("receive state");
    insert_key(&mut receiver, key(1, 0)).expect("key");
    insert_key(&mut receiver, key(1, 0)).expect("same key");
    assert_eq!(
        insert_key(&mut receiver, key(1, 1)).unwrap_err(),
        Error::FrameEncoding
    );
    let mut secret = key(1, 0);
    secret.secret = vec![];
    assert_eq!(
        insert_key(&mut receiver, secret).unwrap_err(),
        Error::FrameEncoding
    );
    let mut other = key(2, 0);
    other.channel_id = b"other".to_vec();
    assert_eq!(
        insert_key(&mut receiver, other).unwrap_err(),
        Error::FrameEncoding
    );
}

fn integrity(start: u64, count: Option<u64>, len: usize) -> Integrity {
    Integrity {
        channel_id: channel_id(),
        packet_number_start: start,
        packet_hash_count: count,
        packet_hashes: vec![7; len],
    }
}

#[test]
fn hashes_have_to_fit() {
    let mut receiver = ChannelReceiveState::new(announce()).expect("receive state");
    for refused in [
        integrity(0, Some(2), 32),
        integrity(0, Some(1), 33),
        integrity(0, Some(u64::MAX), 32),
        integrity(0, None, 31),
    ] {
        assert_eq!(
            insert_integrity(&mut receiver, refused).unwrap_err(),
            Error::FrameEncoding
        );
    }
    assert!(insert_integrity(&mut receiver, integrity(0, None, 96)).is_ok());
    assert!(insert_integrity(&mut receiver, integrity(0, Some(0), 0)).is_ok());
    assert!(insert_integrity(&mut receiver, integrity(u64::MAX, Some(1), 32)).is_ok());
    assert_eq!(
        insert_integrity(&mut receiver, integrity(u64::MAX, Some(2), 64)).unwrap_err(),
        Error::IntegerOverflow
    );
    let mut other = integrity(0, None, 32);
    other.channel_id = b"other".to_vec();
    assert_eq!(
        insert_integrity(&mut receiver, other).unwrap_err(),
        Error::FrameEncoding
    );
}

#[test]
fn packets_of_other_channels_are_refused() {
    let sent = channel(&[&[datagram(b"a")]]);
    let mut receiver = ChannelReceiveState::new(announce()).expect("receive state");
    let mut other_channel = sent[0].0.clone();
    other_channel[1] ^= 1;
    let mut long_header = sent[0].0.clone();
    long_header[0] |= 0x80;
    let mut not_fixed = sent[0].0.clone();
    not_fixed[0] &= !0x40;
    for refused in [other_channel, long_header, not_fixed, sent[0].0[..29].to_vec(), vec![]] {
        assert_eq!(
            process_protected_packet(&mut receiver, &refused).unwrap_err(),
            Error::InvalidPacket
        );
    }
    let mut packet = ChannelPacket {
        channel_id: channel_id(),
        packet_number: 0,
        key_sequence: 1,
        key_phase: true,
        frames: vec![],
    };
    assert_eq!(
        process_authenticated_packet(&mut receiver, packet.clone(), &[]).unwrap_err(),
        Error::NotAvailable
    );
    packet.channel_id = b"other".to_vec();
    assert_eq!(
        process_authenticated_packet(&mut receiver, packet, &[]).unwrap_err(),
        Error::FrameEncoding
    );
}

#[test]
fn a_hash_is_checked_for_packets_opened_elsewhere() {
    let mut receiver = ChannelReceiveState::new(announce()).expect("receive state");
    insert_key(&mut receiver, key(1, 0)).expect("key");
    insert_integrity(&mut receiver, integrity(3, Some(1), 32)).expect("integrity");
    let packet = ChannelPacket {
        channel_id: channel_id(),
        packet_number: 3,
        key_sequence: 1,
        key_phase: true,
        frames: vec![datagram(b"a")],
    };
    assert_eq!(
        process_authenticated_packet(&mut receiver, packet, b"bytes").unwrap_err(),
        Error::Decrypt
    );
    assert!(receiver.pending_ack().is_none());
}

#[test]
fn a_mismatch_leaves_the_packet_waiting() {
    let sent = channel(&[&[datagram(b"a")]]);
    let mut receiver = ChannelReceiveState::new(announce()).expect("receive state");
    insert_key(&mut receiver, key(1, 0)).expect("key");
    insert_integrity(&mut receiver, integrity(0, Some(1), 32)).expect("wrong hash");
    assert_eq!(
        process_protected_packet(&mut receiver, &sent[0].0).unwrap_err(),
        Error::Decrypt
    );
    let released = insert_integrity(&mut receiver, sent[0].1.clone()).expect("right hash");
    assert_eq!(released.len(), 1);
}

#[test]
fn a_receiver_passes_errors_on() {
    let sent = channel(&[&[datagram(b"a")]]);
    let mut receiver = ChannelReceiveState::new(announce()).expect("receive state");
    assert_eq!(
        receiver.resume(Ok(vec![])),
        ReceiveStep::Done(Err(Error::Internal))
    );
    assert!(matches!(
        receiver.process_protected_packet(&sent[0].0),
        ReceiveStep::Await(CryptoRequest::HeaderMask { .. })
    ));
    assert_eq!(
        receiver.resume(Err(Error::Crypto)),
        ReceiveStep::Done(Err(Error::Crypto))
    );
    let _ = receiver.process_protected_packet(&sent[0].0);
    assert_eq!(
        receiver.resume(Ok(vec![0; 4])),
        ReceiveStep::Done(Err(Error::Internal))
    );
    // An operation that is started over takes the place of the one before.
    let _ = receiver.process_protected_packet(&sent[0].0);
    assert!(insert_key(&mut receiver, key(1, 0)).expect("key").is_empty());
    assert_eq!(
        receiver.resume(Ok(vec![0; 16])),
        ReceiveStep::Done(Err(Error::Internal))
    );
    insert_integrity(&mut receiver, sent[0].1.clone()).expect("integrity");
    let mut copy = receiver.clone();
    assert_eq!(
        process_protected_packet(&mut copy, &sent[0].0).expect("copy").len(),
        1
    );
    assert_eq!(
        process_protected_packet(&mut receiver, &sent[0].0).expect("state").len(),
        1
    );
}

fn written(frames: &[ChannelFrame]) -> Vec<u8> {
    let mut enc = Encoder::default();
    encode_channel_frames(&mut enc, frames).expect("frames");
    enc.into_vec()
}

#[test]
fn channel_frames_roundtrip() {
    let frames = vec![
        ChannelFrame::Padding { len: 3 },
        ChannelFrame::Ping,
        ChannelFrame::ResetStream {
            stream_id: 4,
            error_code: 70,
            final_size: 9,
        },
        ChannelFrame::Stream {
            stream_id: 3,
            offset: 0,
            fin: true,
            data: b"abc".to_vec(),
        },
        ChannelFrame::Stream {
            stream_id: 7,
            offset: 5,
            fin: false,
            data: vec![],
        },
        datagram(b"xyz"),
        ChannelFrame::Multicast(Frame::Key(key(1, 2))),
        ChannelFrame::Multicast(Frame::Retire(Retire {
            channel_id: channel_id(),
            after_packet_number: 4,
        })),
        ChannelFrame::Padding { len: 1 },
        ChannelFrame::Multicast(Frame::Integrity(Integrity {
            channel_id: b"other".to_vec(),
            packet_number_start: 1,
            packet_hash_count: None,
            packet_hashes: vec![1, 2, 3],
        })),
    ];
    let bytes = written(&frames);
    assert_eq!(decode_channel_frames(&announce(), &bytes).expect("decode"), frames);
}

#[test]
fn channel_frames_have_their_exact_bytes() {
    assert_eq!(written(&[datagram(b"ab")]), vec![0x31, 0x40, 0x02, b'a', b'b']);
    assert_eq!(
        written(&[ChannelFrame::Stream {
            stream_id: 3,
            offset: 64,
            fin: true,
            data: b"z".to_vec(),
        }]),
        vec![0x0f, 0x03, 0x40, 0x40, 0x01, b'z']
    );
    assert_eq!(
        written(&[ChannelFrame::Padding { len: 2 }, ChannelFrame::Ping]),
        vec![0, 0, 1]
    );
    assert_eq!(
        written(&[ChannelFrame::ResetStream {
            stream_id: 3,
            error_code: 1,
            final_size: 2,
        }]),
        vec![4, 3, 1, 2]
    );
}

fn refused(frame: ChannelFrame) {
    let mut enc = Encoder::default();
    assert_eq!(
        encode_channel_frames(&mut enc, &[frame]).unwrap_err(),
        Error::FrameEncoding
    );
}

#[test]
fn frames_that_no_channel_carries_are_refused() {
    for stream_id in [0, 1, 2, 4] {
        refused(ChannelFrame::Stream {
            stream_id,
            offset: 0,
            fin: false,
            data: vec![],
        });
    }
    refused(datagram(&[0; 0x4000]));
    let mut enc = Encoder::default();
    assert!(encode_channel_frames(&mut enc, &[datagram(&[0; 0x3fff])]).is_ok());
    refused(ChannelFrame::Multicast(Frame::Join(Join {
        channel_id: channel_id(),
        mc_limits_sequence: 1,
        mc_state_sequence: 2,
        mc_key_sequence: 3,
    })));

    let decode = |bytes: &[u8]| decode_channel_frames(&announce(), bytes);
    assert_eq!(decode(&[]).unwrap_err(), Error::InvalidPacket);
    // A known frame that channels do not carry, whole and cut off, and an unknown one.
    assert_eq!(decode(&[0x10, 0x05]).unwrap_err(), Error::FrameEncoding);
    assert_eq!(decode(&[0x10]).unwrap_err(), Error::NoMoreData);
    assert_eq!(decode(&[0x20]).unwrap_err(), Error::UnknownFrameType);
    // A frame type that is not written as shortly as possible.
    assert_eq!(decode(&[0x40, 0x01]).unwrap_err(), Error::ProtocolViolation);
    // A stream that the client opened, and data behind the last offset.
    assert_eq!(decode(&[0x0a, 0x02, 0x00]).unwrap_err(), Error::FrameEncoding);
    let mut far = vec![0x0e, 0x03];
    far.extend_from_slice(&[0xff; 8]);
    far.extend_from_slice(&[0x01, 0x00]);
    assert_eq!(decode(&far).unwrap_err(), Error::FrameEncoding);
    assert_eq!(decode(&[0x04, 0x03]).unwrap_err(), Error::NoMoreData);
    // A channel does not vouch for its own packets.
    let own = Frame::Integrity(integrity(0, Some(1), 32)).to_vec().expect("integrity");
    assert_eq!(decode(&own).unwrap_err(), Error::FrameEncoding);
}

#[test]
fn frames_without_a_length_take_up_the_rest() {
    assert_eq!(
        decode_channel_frames(&announce(), &[0x30, 1, 2, 3]).expect("datagram"),
        vec![datagram(&[1, 2, 3])]
    );
    assert_eq!(
        decode_channel_frames(&announce(), &[0x09, 3, 1, 2]).expect("stream"),
        vec![ChannelFrame::Stream {
            stream_id: 3,
            offset: 0,
            fin: true,
            data: vec![1, 2],
        }]
    );
    let zeros = vec![0; 0x1_0001];
    let mut dec = Decoder::new(&zeros);
    assert_eq!(QuicFrame::decode(&mut dec).expect("padding"), QuicFrame::Padding(0xffff));
    assert_eq!(QuicFrame::decode(&mut dec).expect("padding"), QuicFrame::Padding(2));
}

#[test]
fn packet_numbers_are_taken_to_be_near() {
    assert_eq!(decode_packet_number(0xa82f_30ea, 0x9b32, 2), 0xa82f_9b32);
    assert_eq!(decode_packet_number(0x1_00, 0xff, 1), 0xff);
    assert_eq!(decode_packet_number(0x1ff, 0x00, 1), 0x200);
    assert_eq!(decode_packet_number(0, 0xff, 1), 0xff);
    // Half a window above and below are as near: the larger one is taken.
    assert_eq!(decode_packet_number(0x180, 0x00, 1), 0x200);
    assert_eq!(decode_packet_number(0x17f, 0x00, 1), 0x100);
    assert_eq!(decode_packet_number(u64::MAX, 0x00, 1), u64::MAX - 0xff);
    assert_eq!(decode_packet_number(0x1_0000_0000, 5, 4), 0x1_0000_0005);

    let mut out = vec![9];
    encode_packet_number(0x0102_0304_0506, 4, &mut out).expect("four bytes");
    encode_packet_number(0x0708, 1, &mut out).expect("one byte");
    encode_packet_number(7, 0, &mut out).expect("no byte");
    assert_eq!(out, vec![9, 3, 4, 5, 6, 8]);
    assert_eq!(
        encode_packet_number(7, 5, &mut out).unwrap_err(),
        Error::FrameEncoding
    );
}

#[test]
fn header_protection_can_be_removed() {
    let mut packet = vec![0x47];
    packet.extend_from_slice(b"channel-1");
    packet.extend_from_slice(&[0, 0, 1, 2]);
    packet.extend_from_slice(&[0xcc; 20]);
    let plain = packet.clone();
    let mask = [0xff, 1, 2, 3, 4, 5];
    apply_header_protection(&announce(), &mut packet, &mask).expect("protect");
    assert_eq!(packet[0], 0x47 ^ 0x1f);
    assert_eq!(packet[10..14], [1, 2, 2, 6]);
    assert_eq!(packet[14..], plain[14..]);
    let header = decrypt_channel_header(&announce(), &mut packet, &mask, 0x100).expect("remove");
    assert_eq!(packet, plain);
    assert_eq!((header.packet_number, header.key_phase, header.header_end), (0x102, true, 14));

    // Shorter packet numbers are accepted.
    packet[0] = 0x40;
    packet[10] = 0x21;
    let header = decrypt_channel_header(&announce(), &mut packet, &[0; 5], 0x100).expect("short");
    assert_eq!((header.packet_number, header.key_phase, header.header_end), (0x121, false, 11));

    let mut short = vec![0x47; 20];
    assert_eq!(
        apply_header_protection(&announce(), &mut short, &mask).unwrap_err(),
        Error::NoMoreData
    );
}

#[test]
fn a_key_of_another_channel_opens_nothing() {
    let mut other = key(1, 0);
    other.channel_id = b"other".to_vec();
    let ping = [0x01];
    assert_eq!(
        decrypt_channel_packet(&announce(), &other, 0, true, &ping).unwrap_err(),
        Error::FrameEncoding
    );
    let packet = decrypt_channel_packet(&announce(), &key(1, 0), 0, true, &ping).expect("ping");
    assert_eq!(packet.frames, vec![ChannelFrame::Ping]);

    let sent = &channel(&[&[datagram(b"a")]])[0].0;
    // The key is looked at before the packet is.
    assert_eq!(
        open_payload(&announce(), &other, 0, &[], &[], 0).unwrap_err(),
        Error::FrameEncoding
    );
    assert_eq!(
        open_payload(&announce(), &key(1, 0), 0, &[], &[], 0).unwrap_err(),
        Error::InvalidPacket
    );
    let mask = answer(&CryptoRequest::HeaderMask {
        cipher: mcquic::algorithms::Cipher::Aes128GcmSha256,
        secret: announce().header_secret,
        sample: sent[14..30].to_vec(),
    })
    .expect("mask");
    let (key_phase, request) =
        open_payload(&announce(), &key(1, 0), 0, sent, &mask, 0).expect("request");
    assert!(key_phase && matches!(request, CryptoRequest::Open { packet_number: 0, .. }));
    assert_eq!(
        open_payload(&announce(), &key(1, 0), 1, sent, &mask, 0).unwrap_err(),
        Error::InvalidPacket
    );
}

#[test]
fn a_packet_that_waits_is_dropped_when_it_comes_again() {
    let sent = channel(&[&[datagram(b"a")], &[datagram(b"b")]]);
    let mut receiver = ChannelReceiveState::new(announce()).expect("receive state");
    for (packet, _) in sent.iter().chain(&sent) {
        assert!(process_protected_packet(&mut receiver, packet).expect("packet").is_empty());
    }
    insert_key(&mut receiver, key(1, 0)).expect("key");
    for (_, integrity) in &sent {
        assert_eq!(insert_integrity(&mut receiver, integrity.clone()).expect("hash").len(), 1);
    }
    for (packet, _) in &sent {
        assert!(process_protected_packet(&mut receiver, packet).expect("again").is_empty());
    }
    assert!(receiver.pop_datagram().is_some() && receiver.pop_datagram().is_some());
    assert!(receiver.pop_datagram().is_none());
}

#[test]
fn foreign_frames_are_read_to_their_end() {
    let read = |bytes: &[u8]| {
        let mut dec = Decoder::new(bytes);
        QuicFrame::decode(&mut dec).map(|frame| (frame, dec.remaining()))
    };
    let mut new_connection_id = vec![0x18, 1, 0, 2, 0xaa, 0xbb];
    new_connection_id.extend_from_slice(&[7; 16]);
    let whole: Vec<Vec<u8>> = vec![
        vec![0x02, 9, 0, 1, 2, 3, 4],
        vec![0x03, 9, 0, 0, 2, 1, 1, 1],
        vec![0x05, 3, 1],
        vec![0x06, 0, 2, 1, 2],
        vec![0x07, 1, 5],
        vec![0x10, 5],
        vec![0x11, 3, 5],
        vec![0x12, 5],
        vec![0x13, 5],
        vec![0x14, 5],
        vec![0x15, 3, 5],
        vec![0x16, 5],
        vec![0x17, 5],
        new_connection_id,
        vec![0x19, 5],
        vec![0x1a, 1, 2, 3, 4, 5, 6, 7, 8],
        vec![0x1b, 1, 2, 3, 4, 5, 6, 7, 8],
        vec![0x1c, 1, 0, 1, b'x'],
        vec![0x1d, 1, 1, b'x'],
        vec![0x1e],
        vec![0x40, 0xaf, 1, 2, 3, 0],
    ];
    for bytes in &whole {
        assert_eq!(read(bytes), Ok((QuicFrame::Other, 0)));
        assert_eq!(
            decode_channel_frames(&announce(), bytes).unwrap_err(),
            Error::FrameEncoding
        );
        for k in 0..bytes.len() {
            assert_eq!(read(&bytes[..k]), Err(Error::NoMoreData));
        }
        // What follows is left.
        let mut more = bytes.clone();
        more.push(1);
        assert_eq!(read(&more), Ok((QuicFrame::Other, 1)));
    }
}

#[test]
fn malformed_foreign_frames_are_refused() {
    let read = |bytes: &[u8]| QuicFrame::decode(&mut Decoder::new(bytes)).unwrap_err();
    // Too many ranges, data beyond the last offset, an empty token.
    assert_eq!(read(&[0x02, 9, 0, 0x80, 0, 0x80, 0, 2]), Error::TooMuchData);
    let mut far = vec![0x06];
    far.extend_from_slice(&[0xff; 8]);
    far.extend_from_slice(&[1, 0]);
    assert_eq!(read(&far), Error::FrameEncoding);
    assert_eq!(read(&[0x07, 0]), Error::FrameEncoding);
    // More streams than there can be.
    assert_eq!(read(&[0x12, 0xd0, 0, 0, 0, 0, 0, 0, 1]), Error::StreamLimit);
    let most = [0x12, 0xd0, 0, 0, 0, 0, 0, 0, 0];
    assert_eq!(QuicFrame::decode(&mut Decoder::new(&most)), Ok(QuicFrame::Other));
    // A connection ID that is too long.
    let mut long = vec![0x18, 1, 0, 21];
    long.extend_from_slice(&[7; 37]);
    assert_eq!(read(&long), Error::FrameEncoding);
    // A tolerance of zero, and a truth value that is none.
    assert_eq!(read(&[0x40, 0xaf, 1, 0, 3, 0]), Error::FrameEncoding);
    assert_eq!(read(&[0x40, 0xaf, 1, 2, 3, 2]), Error::FrameEncoding);
}
