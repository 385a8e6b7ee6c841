//! The wire formats of transport parameters and control frames.

use mcquic::channel_frame::{all_numbers_fit, ChannelFrame};
use mcquic::codec::{decode_varint, Decoder, Encoder};
use mcquic::error::Error;
use mcquic::frame::{
    is_frame_type, FRAME_TYPE_ACK, FRAME_TYPE_ANNOUNCE_V4, FRAME_TYPE_ANNOUNCE_V6, FRAME_TYPE_KEY,
    FRAME_TYPE_INTEGRITY_WITH_LENGTH, FRAME_TYPE_STATE,
};
use mcquic::hex;
use mcquic::params::{
    decode_u16_list, ClientTransportParams, CLIENT_PARAMS_TRANSPORT_PARAMETER_ID,
    SERVER_SUPPORT_TRANSPORT_PARAMETER_ID,
};
use mcquic::types::{
    Ack, AckEcnCounts, AckRange, Announce, ChannelState, ClientLimits, Frame, Integrity, IpAddr,
    Join, Key, Leave, Limits, Retire, Sender, State, StateReasonScope,
    STATE_REASON_REQUESTED_BY_SERVER,
};

fn roundtrip(frame: Frame) {
    let encoded = frame.to_vec().expect("encode frame");
    let decoded = Frame::from_slice(&encoded).expect("decode frame");
    assert_eq!(frame, decoded);
}

fn channel_id() -> Vec<u8> {
    b"channel-1".to_vec()
}

fn v6(segments: [u16; 8]) -> IpAddr {
    let mut octets = [0; 16];
    for (i, segment) in segments.iter().enumerate() {
        octets[2 * i] = (segment >> 8) as u8;
        octets[2 * i + 1] = (segment & 0xff) as u8;
    }
    IpAddr::V6(octets)
}

#[test]
fn client_transport_params_roundtrip() {
    let params = ClientTransportParams {
        limits: ClientLimits {
            ipv4_channels_allowed: true,
            ipv6_channels_allowed: false,
            max_aggregate_rate_kibps: 100_000,
            max_channel_ids: 32,
        },
        hash_algorithms: vec![1, 2, 8],
        encryption_algorithms: vec![0x1301, 0x1303],
    };

    let encoded = params.to_vec();
    assert_eq!(
        ClientTransportParams::from_slice(&encoded).expect("decode params"),
        params
    );
}

#[test]
fn client_transport_params_reject_trailing_bytes() {
    let mut encoded = ClientTransportParams {
        limits: ClientLimits {
            ipv4_channels_allowed: true,
            ipv6_channels_allowed: true,
            max_aggregate_rate_kibps: 1,
            max_channel_ids: 1,
        },
        hash_algorithms: vec![1],
        encryption_algorithms: vec![0x1301],
    }
    .to_vec();
    encoded.push(0);

    assert_eq!(
        ClientTransportParams::from_slice(&encoded).unwrap_err(),
        Error::TooMuchData
    );
}

#[test]
fn frame_roundtrips() {
    roundtrip(Frame::Announce(Announce {
        channel_id: channel_id(),
        source: IpAddr::V4([192, 0, 2, 1]),
        group: IpAddr::V4([233, 252, 0, 1]),
        udp_port: 4433,
        header_protection_algorithm: 0x1301,
        header_secret: vec![1, 2, 3, 4],
        aead_algorithm: 0x1301,
        integrity_hash_algorithm: 1,
        max_rate_kibps: 10_000,
        max_ack_delay_ms: 25,
    }));
    roundtrip(Frame::Announce(Announce {
        channel_id: channel_id(),
        source: v6([0, 0, 0, 0, 0, 0, 0, 1]),
        group: v6([0xff3e, 0, 0, 0, 0, 0, 0, 1]),
        udp_port: 4433,
        header_protection_algorithm: 0x1301,
        header_secret: vec![1, 2, 3, 4],
        aead_algorithm: 0x1301,
        integrity_hash_algorithm: 1,
        max_rate_kibps: 10_000,
        max_ack_delay_ms: 25,
    }));
    roundtrip(Frame::Key(Key {
        channel_id: channel_id(),
        key_sequence: 7,
        from_packet_number: 9,
        secret: vec![0xaa; 32],
    }));
    roundtrip(Frame::Join(Join {
        channel_id: channel_id(),
        mc_limits_sequence: 1,
        mc_state_sequence: 2,
        mc_key_sequence: 3,
    }));
    roundtrip(Frame::Leave(Leave {
        channel_id: channel_id(),
        mc_state_sequence: 3,
        after_packet_number: 100,
    }));
    roundtrip(Frame::Integrity(Integrity {
        channel_id: channel_id(),
        packet_number_start: 42,
        packet_hash_count: None,
        packet_hashes: vec![0xbb; 16],
    }));
    roundtrip(Frame::Integrity(Integrity {
        channel_id: channel_id(),
        packet_number_start: 42,
        packet_hash_count: Some(2),
        packet_hashes: vec![0xbb; 16],
    }));
    roundtrip(Frame::Ack(Ack {
        channel_id: channel_id(),
        largest_acknowledged: 10,
        ack_delay: 0,
        first_ack_range: 3,
        ack_ranges: vec![AckRange {
            gap: 1,
            ack_range_length: 2,
        }],
        ecn_counts: None,
    }));
    roundtrip(Frame::Ack(Ack {
        channel_id: channel_id(),
        largest_acknowledged: 10,
        ack_delay: 0,
        first_ack_range: 3,
        ack_ranges: vec![],
        ecn_counts: Some(AckEcnCounts {
            ect0_count: 1,
            ect1_count: 2,
            ecn_ce_count: 3,
        }),
    }));
    roundtrip(Frame::Limits(Limits {
        sequence: 1,
        limits: ClientLimits {
            ipv4_channels_allowed: true,
            ipv6_channels_allowed: true,
            max_aggregate_rate_kibps: 20_000,
            max_channel_ids: 8,
        },
        max_joined_count: 4,
    }));
    roundtrip(Frame::Retire(Retire {
        channel_id: channel_id(),
        after_packet_number: 100,
    }));
    roundtrip(Frame::State(State {
        channel_id: channel_id(),
        sequence: 1,
        state: ChannelState::DeclinedJoin,
        reason_scope: StateReasonScope::Application,
        reason_code: 404,
        reason_phrase: b"not found".to_vec(),
    }));
    roundtrip(Frame::State(State {
        channel_id: channel_id(),
        sequence: 2,
        state: ChannelState::Joined,
        reason_scope: StateReasonScope::Transport,
        reason_code: STATE_REASON_REQUESTED_BY_SERVER,
        reason_phrase: b"joined".to_vec(),
    }));
}

#[test]
fn invalid_channel_id_is_rejected() {
    let frame = Frame::Key(Key {
        channel_id: vec![],
        key_sequence: 0,
        from_packet_number: 0,
        secret: vec![],
    });
    assert_eq!(frame.to_vec().unwrap_err(), Error::FrameEncoding);
}

#[test]
fn sender_direction() {
    assert_eq!(
        Frame::Announce(Announce {
            channel_id: channel_id(),
            source: IpAddr::V4([127, 0, 0, 1]),
            group: IpAddr::V4([224, 0, 0, 1]),
            udp_port: 4433,
            header_protection_algorithm: 0x1301,
            header_secret: vec![],
            aead_algorithm: 0x1301,
            integrity_hash_algorithm: 1,
            max_rate_kibps: 1,
            max_ack_delay_ms: 1,
        })
        .sender(),
        Sender::Server
    );
    assert_eq!(
        Frame::Limits(Limits {
            sequence: 1,
            limits: ClientLimits::default(),
            max_joined_count: 1,
        })
        .sender(),
        Sender::Client
    );
}

#[test]
fn explicit_integrity_can_use_hash_len_to_leave_following_frame() {
    let frame = Frame::Integrity(Integrity {
        channel_id: channel_id(),
        packet_number_start: 4,
        packet_hash_count: Some(2),
        packet_hashes: vec![0xaa; 8],
    });
    let mut encoded = Encoder::default();
    frame.encode(&mut encoded).expect("encode integrity");
    let ack = Frame::Ack(Ack {
        channel_id: channel_id(),
        largest_acknowledged: 4,
        ack_delay: 0,
        first_ack_range: 0,
        ack_ranges: vec![],
        ecn_counts: None,
    });
    ack.encode(&mut encoded).expect("encode ack");

    let mut dec = encoded.as_decoder();
    assert_eq!(
        Frame::decode_payload(decode_varint(&mut dec).expect("type"), &mut dec, Some(4))
            .expect("decode integrity"),
        frame
    );
    assert_eq!(Frame::decode(&mut dec).expect("decode ack"), ack);
}

#[test]
fn state_joined_requires_server_request_reason() {
    let frame = Frame::State(State {
        channel_id: channel_id(),
        sequence: 1,
        state: ChannelState::Joined,
        reason_scope: StateReasonScope::Transport,
        reason_code: 99,
        reason_phrase: vec![],
    });
    assert_eq!(frame.to_vec().unwrap_err(), Error::FrameEncoding);
}

#[test]
fn recognizes_mcquic_frame_types() {
    assert!(is_frame_type(FRAME_TYPE_KEY));
    assert!(is_frame_type(FRAME_TYPE_ANNOUNCE_V6));
    assert!(!is_frame_type(0x1));
}

fn hex(data: &[u8]) -> String {
    data.iter().map(|byte| format!("{byte:02x}")).collect()
}

#[test]
fn frames_have_their_exact_bytes() {
    let id = b"ab".to_vec();
    // Frame types take four bytes, with the tag 10 on top.
    assert_eq!(
        hex(&Frame::Retire(Retire {
            channel_id: id.clone(),
            after_packet_number: 100,
        })
        .to_vec()
        .expect("retire")),
        "8ff3e80a0261624064"
    );
    assert_eq!(
        hex(&Frame::Key(Key {
            channel_id: id.clone(),
            key_sequence: 1,
            from_packet_number: 0x4000,
            secret: vec![0xaa, 0xbb],
        })
        .to_vec()
        .expect("key")),
        "8ff3e8010261620180004000".to_owned() + "02aabb"
    );
    assert_eq!(
        hex(&Frame::Join(Join {
            channel_id: id.clone(),
            mc_limits_sequence: 1,
            mc_state_sequence: 2,
            mc_key_sequence: 3,
        })
        .to_vec()
        .expect("join")),
        "8ff3e802026162010203"
    );
    assert_eq!(
        hex(&Frame::Leave(Leave {
            channel_id: id.clone(),
            mc_state_sequence: 3,
            after_packet_number: 63,
        })
        .to_vec()
        .expect("leave")),
        "8ff3e803026162033f"
    );
    assert_eq!(
        hex(&Frame::Integrity(Integrity {
            channel_id: id.clone(),
            packet_number_start: 4,
            packet_hash_count: Some(1),
            packet_hashes: vec![9, 8],
        })
        .to_vec()
        .expect("integrity")),
        "8ff3e80502616204010908"
    );
    assert_eq!(
        hex(&Frame::Ack(Ack {
            channel_id: id.clone(),
            largest_acknowledged: 10,
            ack_delay: 0,
            first_ack_range: 3,
            ack_ranges: vec![AckRange {
                gap: 1,
                ack_range_length: 2,
            }],
            ecn_counts: Some(AckEcnCounts {
                ect0_count: 5,
                ect1_count: 6,
                ecn_ce_count: 7,
            }),
        })
        .to_vec()
        .expect("ack")),
        "8ff3e8070261620a0001030102050607"
    );
    assert_eq!(
        hex(&Frame::Limits(Limits {
            sequence: 1,
            limits: ClientLimits {
                ipv4_channels_allowed: true,
                ipv6_channels_allowed: true,
                max_aggregate_rate_kibps: 64,
                max_channel_ids: 2,
            },
            max_joined_count: 4,
        })
        .to_vec()
        .expect("limits")),
        "8ff3e809010340400204"
    );
    assert_eq!(
        hex(&Frame::State(State {
            channel_id: id.clone(),
            sequence: 1,
            state: ChannelState::Left,
            reason_scope: StateReasonScope::Application,
            reason_code: 9,
            reason_phrase: b"x".to_vec(),
        })
        .to_vec()
        .expect("state")),
        "8ff3e80c0261620101090178"
    );
    assert_eq!(
        hex(&Frame::Announce(Announce {
            channel_id: id,
            source: IpAddr::V4([192, 0, 2, 1]),
            group: IpAddr::V4([233, 252, 0, 1]),
            udp_port: 4433,
            header_protection_algorithm: 0x1301,
            header_secret: vec![1],
            aead_algorithm: 0x1302,
            integrity_hash_algorithm: 8,
            max_rate_kibps: 5,
            max_ack_delay_ms: 25,
        })
        .to_vec()
        .expect("announce")),
        "8ff3e811026162c0000201e9fc00011151130101011302000805".to_owned() + "19"
    );
}

#[test]
fn parameters_have_their_exact_bytes() {
    let params = ClientTransportParams {
        limits: ClientLimits {
            ipv4_channels_allowed: false,
            ipv6_channels_allowed: true,
            max_aggregate_rate_kibps: 1,
            max_channel_ids: 0x4000_0000,
        },
        hash_algorithms: vec![1],
        encryption_algorithms: vec![0x1301, 0x1303],
    };
    assert_eq!(
        hex(&params.to_vec()),
        "0201c0000000400000000102000113011303"
    );
    assert_eq!(ClientTransportParams::default().to_vec(), vec![0, 0, 0, 0, 0]);
}

#[test]
fn malformed_parameters_are_rejected() {
    // More algorithms than bytes.
    assert_eq!(
        ClientTransportParams::from_slice(&[0, 0, 0, 2, 0, 0, 1]).unwrap_err(),
        Error::TransportParameter
    );
    assert_eq!(
        ClientTransportParams::from_slice(&[0, 0, 0]).unwrap_err(),
        Error::NoMoreData
    );
    let bytes = [0u8, 1];
    assert_eq!(
        decode_u16_list(&mut Decoder::new(&bytes), 2, false).unwrap_err(),
        Error::FrameEncoding
    );
    assert_eq!(
        decode_u16_list(&mut Decoder::new(&bytes), 1, false).expect("one"),
        vec![1]
    );
}

#[test]
fn trailing_bytes_after_a_frame_are_rejected() {
    let mut encoded = Frame::Leave(Leave {
        channel_id: channel_id(),
        mc_state_sequence: 3,
        after_packet_number: 100,
    })
    .to_vec()
    .expect("leave");
    encoded.push(0);
    assert_eq!(
        Frame::from_slice(&encoded).unwrap_err(),
        Error::TooMuchData
    );
}

#[test]
fn malformed_frames_are_rejected() {
    assert_eq!(Frame::from_slice(&[]).unwrap_err(), Error::NoMoreData);
    assert_eq!(Frame::from_slice(&[1]).unwrap_err(), Error::UnknownFrameType);

    let key_type = [0x8f, 0xf3, 0xe8, 0x01];
    let mut empty_channel = key_type.to_vec();
    empty_channel.push(0);
    assert_eq!(
        Frame::from_slice(&empty_channel).unwrap_err(),
        Error::FrameEncoding
    );
    let mut long_channel = key_type.to_vec();
    long_channel.push(21);
    long_channel.extend_from_slice(&[0; 30]);
    assert_eq!(
        Frame::from_slice(&long_channel).unwrap_err(),
        Error::FrameEncoding
    );

    let bad_state = [0x01, b'a', 0x00, 0x05, 0x00, 0x00];
    assert_eq!(
        Frame::decode_payload(FRAME_TYPE_STATE, &mut Decoder::new(&bad_state), None).unwrap_err(),
        Error::FrameEncoding
    );

    // 32769 ACK ranges.
    let many = [0x01, b'a', 0x00, 0x00, 0x80, 0x00, 0x80, 0x01, 0x00];
    assert_eq!(
        Frame::decode_payload(FRAME_TYPE_ACK, &mut Decoder::new(&many), None).unwrap_err(),
        Error::TooMuchData
    );
    // Two ACK ranges, and three bytes for them.
    let short = [0x01, b'a', 0x00, 0x00, 0x02, 0x00, 0x01, 0x01, 0x01];
    assert_eq!(
        Frame::decode_payload(FRAME_TYPE_ACK, &mut Decoder::new(&short), None).unwrap_err(),
        Error::FrameEncoding
    );
    // More hashes than any input can hold.
    let mut huge = vec![0x01, b'a', 0x00];
    huge.extend_from_slice(&[0xff; 8]);
    assert_eq!(
        Frame::decode_payload(
            FRAME_TYPE_INTEGRITY_WITH_LENGTH,
            &mut Decoder::new(&huge),
            Some(64)
        )
        .unwrap_err(),
        Error::FrameEncoding
    );
}

#[test]
fn addresses_of_two_families_have_no_frame_type() {
    let frame = Frame::Announce(Announce {
        channel_id: channel_id(),
        source: IpAddr::V4([192, 0, 2, 1]),
        group: v6([0xff3e, 0, 0, 0, 0, 0, 0, 1]),
        udp_port: 4433,
        header_protection_algorithm: 0x1301,
        header_secret: vec![],
        aead_algorithm: 0x1301,
        integrity_hash_algorithm: 1,
        max_rate_kibps: 1,
        max_ack_delay_ms: 1,
    });
    assert_eq!(frame.frame_type().unwrap_err(), Error::FrameEncoding);
    let mut enc = Encoder::default();
    assert_eq!(frame.encode(&mut enc).unwrap_err(), Error::FrameEncoding);
    assert!(enc.is_empty());
}

#[test]
fn frames_know_how_they_are_sent() {
    let ack = Frame::Ack(Ack {
        channel_id: channel_id(),
        largest_acknowledged: 4,
        ack_delay: 0,
        first_ack_range: 0,
        ack_ranges: vec![],
        ecn_counts: None,
    });
    let open_ended = Frame::Integrity(Integrity {
        channel_id: channel_id(),
        packet_number_start: 4,
        packet_hash_count: None,
        packet_hashes: vec![],
    });
    let counted = Frame::Integrity(Integrity {
        channel_id: channel_id(),
        packet_number_start: 4,
        packet_hash_count: Some(0),
        packet_hashes: vec![],
    });
    assert!(!ack.ack_eliciting() && !ack.retransmit_on_loss());
    assert!(counted.ack_eliciting() && counted.retransmit_on_loss());
    assert!(open_ended.requires_packet_end());
    assert!(!counted.requires_packet_end() && !ack.requires_packet_end());
    assert_eq!(ack.sender(), Sender::Client);
    assert_eq!(counted.sender(), Sender::Server);
}

#[test]
fn channel_states_have_codes() {
    for (code, state) in [
        (1, ChannelState::Left),
        (2, ChannelState::DeclinedJoin),
        (3, ChannelState::Joined),
        (4, ChannelState::Retired),
    ] {
        assert_eq!(ChannelState::decode(code).expect("state"), state);
        assert_eq!(u8::from(state), code);
    }
    assert_eq!(ChannelState::decode(0).unwrap_err(), Error::FrameEncoding);
    assert_eq!(ChannelState::decode(5).unwrap_err(), Error::FrameEncoding);
}

#[test]
fn a_cut_off_number_uses_up_its_first_byte() {
    let bytes = [0x80, 0x01, 0x02];
    let mut dec = Decoder::new(&bytes);
    assert_eq!(dec.decode_varint(), None);
    assert_eq!(dec.remaining(), 2);
}

#[test]
fn numbers_have_all_widths() {
    for (value, bytes) in [
        (37u64, vec![0x25u8]),
        (15_293, vec![0x7b, 0xbd]),
        (494_878_333, vec![0x9d, 0x7f, 0x3e, 0x7d]),
        (
            151_288_809_941_952_652,
            vec![0xc2, 0x19, 0x7c, 0x5e, 0xff, 0x14, 0xe8, 0x8c],
        ),
    ] {
        let mut enc = Encoder::default();
        enc.encode_varint(value);
        assert_eq!(enc.as_slice(), bytes.as_slice());
        assert_eq!(enc.as_decoder().decode_varint(), Some(value));
    }
    // A number can be read that is not written as shortly as possible.
    assert_eq!(Decoder::new(&[0x40, 0x25]).decode_varint(), Some(37));
}

#[test]
fn announce_v6_uses_its_own_type() {
    let frame = Frame::Announce(Announce {
        channel_id: channel_id(),
        source: v6([0, 0, 0, 0, 0, 0, 0, 1]),
        group: v6([0xff3e, 0, 0, 0, 0, 0, 0, 1]),
        udp_port: 1,
        header_protection_algorithm: 0,
        header_secret: vec![],
        aead_algorithm: 0,
        integrity_hash_algorithm: 0,
        max_rate_kibps: 0,
        max_ack_delay_ms: 0,
    });
    assert_eq!(frame.frame_type().expect("type"), FRAME_TYPE_ANNOUNCE_V6);
    assert!(is_frame_type(FRAME_TYPE_ANNOUNCE_V4));
}

#[test]
fn transport_parameters_have_their_ids() {
    assert_eq!(CLIENT_PARAMS_TRANSPORT_PARAMETER_ID, 0xff3e800);
    assert_eq!(SERVER_SUPPORT_TRANSPORT_PARAMETER_ID, 0xff3e808);
}

#[test]
fn numbers_fit_below_two_to_the_sixty_second() {
    let retire = |after_packet_number: u64| {
        Frame::Retire(Retire {
            channel_id: channel_id(),
            after_packet_number,
        })
    };
    let largest = (1 << 62) - 1;
    assert!(retire(largest).numbers_fit());
    assert!(!retire(1 << 62).numbers_fit());
    roundtrip(retire(largest));

    let mut params = ClientTransportParams::default();
    params.limits.max_channel_ids = largest;
    assert!(params.numbers_fit());
    params.limits.max_aggregate_rate_kibps = 1 << 62;
    assert!(!params.numbers_fit());

    assert!(all_numbers_fit(&[]));
    assert!(all_numbers_fit(&[ChannelFrame::Ping, ChannelFrame::Multicast(retire(largest))]));
    assert!(!all_numbers_fit(&[
        ChannelFrame::Ping,
        ChannelFrame::Stream {
            stream_id: 3,
            offset: 1 << 62,
            fin: false,
            data: vec![],
        },
    ]));
}

#[test]
fn bytes_have_two_digits() {
    assert_eq!(hex::hex(&[]), b"");
    assert_eq!(hex::hex(&[0x00, 0x9a, 0xf1]), b"009af1");
}

#[test]
fn what_is_cut_off_is_refused() {
    let params = ClientTransportParams {
        limits: ClientLimits {
            ipv4_channels_allowed: true,
            ipv6_channels_allowed: true,
            max_aggregate_rate_kibps: 100_000,
            max_channel_ids: 32,
        },
        hash_algorithms: vec![1, 2],
        encryption_algorithms: vec![0x1301],
    };
    let bytes = params.to_vec();
    for k in 0..bytes.len() {
        assert!(ClientTransportParams::from_slice(&bytes[..k]).is_err());
    }
    assert!(ClientTransportParams::from_slice(&bytes).is_ok());

    let key = Frame::Key(Key {
        channel_id: channel_id(),
        key_sequence: 70,
        from_packet_number: 0x4000,
        secret: vec![7; 32],
    });
    let bytes = key.to_vec().expect("key");
    for k in 0..bytes.len() {
        assert!(Frame::from_slice(&bytes[..k]).is_err());
    }
}
