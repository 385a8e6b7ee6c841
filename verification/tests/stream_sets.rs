//! The streams of a connection.

use mcquic::error::Error;
use mcquic::sparse::SparseStreamIdRanges;
use mcquic::stream_id::{Role, StreamId, StreamType};
use mcquic::stream_order::StreamOrder;
use mcquic::streams::{
    AckAction, Endpoint, FrameStats, InitialLimits, LossAction, MaintenanceWriter,
    SendStreamRecoveryToken, StreamAction, StreamFrame, StreamLimit, StreamRecoveryToken, Streams, TransportParameterId,
};

#[test]
fn adjacent_stream_ids_coalesce_in_both_directions() {
    let mut seen = SparseStreamIdRanges::default();
    assert!(seen.insert(StreamId::new(3)));
    assert!(seen.insert(StreamId::new(7)));
    assert!(seen.insert(StreamId::new(19)));
    assert_eq!(seen.range_count(), 2);

    assert!(seen.insert(StreamId::new(15)));
    assert_eq!(seen.range_count(), 2);
    assert!(seen.insert(StreamId::new(11)));
    assert_eq!(seen.range_count(), 1);
    assert!(!seen.insert(StreamId::new(11)));
    assert!(seen.contains(StreamId::new(3)));
    assert!(seen.contains(StreamId::new(19)));

    seen.clear();
    assert_eq!(seen.range_count(), 0);
    assert!(!seen.contains(StreamId::new(11)));
}

#[test]
fn streams_that_were_not_noted_are_not_seen() {
    let mut seen = SparseStreamIdRanges::default();
    assert!(seen.insert(StreamId::new(u64::MAX)));
    assert!(seen.insert(StreamId::new(7)));
    assert!(!seen.contains(StreamId::new(3)));
    assert!(!seen.contains(StreamId::new(11)));
    assert!(!seen.contains(StreamId::new(u64::MAX - 4)));
    assert!(seen.insert(StreamId::new(u64::MAX - 4)));
    assert_eq!(seen.range_count(), 2);
}

#[test]
fn stream_ids_have_parts() {
    let id = StreamId::new(7);
    assert!(id.is_uni() && !id.is_bidi() && id.is_server_initiated());
    assert_eq!(id.index(), 1);
    assert_eq!(id.role(), Role::Server);
    assert_eq!(id.stream_type(), StreamType::UniDi);
    assert!(id.is_remote_initiated(Role::Client) && !id.is_remote_initiated(Role::Server));
    assert!(id.is_send_only(Role::Server) && !id.is_send_only(Role::Client));
    assert!(!StreamId::new(5).is_send_only(Role::Server));
}

#[test]
fn streams_are_ordered_from_high_to_low() {
    let mut orders = [Some(1), Some(7), None, Some(-3)].map(|sendorder| StreamOrder { sendorder });
    orders.sort_by(|a, b| a.cmp(b));
    assert_eq!(orders.map(|order| order.sendorder), [None, Some(7), Some(1), Some(-3)]);
    assert!(StreamOrder { sendorder: Some(2) } < StreamOrder { sendorder: Some(1) });
    assert!(StreamOrder { sendorder: None } < StreamOrder { sendorder: Some(i64::MAX) });
}

fn client(sparse: bool) -> Streams {
    Streams::new(Role::Client, 2, 3, sparse, false)
}

fn ids(created: &[mcquic::streams::NewStream]) -> Vec<u64> {
    created.iter().map(|stream| stream.stream_id.as_u64()).collect()
}

#[test]
fn streams_before_the_one_used_are_opened() {
    let mut streams = client(false);
    let obtained = streams.obtain_stream(StreamId::new(11)).expect("third");
    assert_eq!(ids(&obtained.created), vec![3, 7, 11]);
    assert!(obtained.recv && !obtained.send);
    assert_eq!(
        obtained.created[0].recv_limit,
        Some(StreamLimit {
            endpoint: Endpoint::Local,
            parameter: TransportParameterId::InitialMaxStreamDataUni,
        })
    );
    assert_eq!(obtained.created[0].send_limit, None);
    let again = streams.obtain_stream(StreamId::new(7)).expect("second");
    assert!(again.created.is_empty() && again.recv);
    assert_eq!(
        streams.obtain_stream(StreamId::new(15)).unwrap_err(),
        Error::StreamLimit
    );
    assert!(!streams.is_stream_id_allowed(StreamId::new(15)));
    streams.raise_remote_limit(StreamType::UniDi, 4);
    streams.raise_remote_limit(StreamType::UniDi, 1);
    assert!(streams.is_stream_id_allowed(StreamId::new(15)));
    assert_eq!(
        ids(&streams.obtain_stream(StreamId::new(15)).expect("fourth").created),
        vec![15]
    );
}

#[test]
fn streams_that_are_passed_over_are_not_opened() {
    let mut streams = client(true);
    let obtained = streams.obtain_stream(StreamId::new(11)).expect("third");
    assert_eq!(ids(&obtained.created), vec![11]);
    let before = streams.obtain_stream(StreamId::new(3)).expect("first");
    assert_eq!(ids(&before.created), vec![3]);
    assert!(streams.obtain_stream(StreamId::new(3)).expect("first").created.is_empty());
    assert_eq!(
        streams.obtain_stream(StreamId::new(15)).unwrap_err(),
        Error::StreamLimit
    );
    // Streams for both directions are opened one after the other all the same.
    let bidi = streams.obtain_stream(StreamId::new(5)).expect("second");
    assert_eq!(ids(&bidi.created), vec![1, 5]);
    assert!(bidi.send && bidi.recv);
    assert_eq!(
        bidi.created[1].recv_limit,
        Some(StreamLimit {
            endpoint: Endpoint::Local,
            parameter: TransportParameterId::InitialMaxStreamDataBidiRemote,
        })
    );
    assert_eq!(
        bidi.created[1].send_limit,
        Some(StreamLimit {
            endpoint: Endpoint::Remote,
            parameter: TransportParameterId::InitialMaxStreamDataBidiLocal,
        })
    );
    streams.clear_streams();
    assert_eq!(
        ids(&streams.obtain_stream(StreamId::new(3)).expect("first").created),
        vec![3]
    );
}

#[test]
fn local_streams_need_a_limit() {
    let mut streams = client(false);
    assert_eq!(
        streams.stream_create(StreamType::BiDi).unwrap_err(),
        Error::StreamLimit
    );
    assert_eq!(
        streams.obtain_stream(StreamId::new(0)).unwrap_err(),
        Error::StreamState
    );
    assert_eq!(
        streams.set_initial_limits(2, 0),
        InitialLimits {
            update_send_streams: true,
            bidi_creatable: true,
            uni_creatable: false,
        }
    );
    let first = streams.stream_create(StreamType::BiDi).expect("first");
    assert_eq!(first.stream_id.as_u64(), 0);
    assert_eq!(
        first.send_limit,
        Some(StreamLimit {
            endpoint: Endpoint::Remote,
            parameter: TransportParameterId::InitialMaxStreamDataBidiRemote,
        })
    );
    assert_eq!(
        first.recv_limit,
        Some(StreamLimit {
            endpoint: Endpoint::Local,
            parameter: TransportParameterId::InitialMaxStreamDataBidiLocal,
        })
    );
    let second = streams.stream_create(StreamType::BiDi).expect("second");
    assert_eq!(second.stream_id.as_u64(), 4);
    assert_eq!(
        streams.stream_create(StreamType::BiDi).unwrap_err(),
        Error::StreamLimit
    );
    assert!(!streams.handle_max_streams(StreamType::UniDi, 0));
    assert!(streams.handle_max_streams(StreamType::UniDi, 1));
    let uni = streams.stream_create(StreamType::UniDi).expect("uni");
    assert_eq!(uni.stream_id.as_u64(), 2);
    assert_eq!(uni.recv_limit, None);
    assert_eq!(streams.handle_max_data(3, None), vec![]);
    let all = streams.handle_max_data(3, Some(8));
    assert!(all.iter().all(|stream| (stream.previous_limit, stream.current_limit) == (3, 8)));
    let mut told: Vec<u64> = all.iter().map(|stream| stream.stream_id.as_u64()).collect();
    told.sort_unstable();
    assert_eq!(told, vec![0, 2, 4]);

    // A stream that has ended is known, but has no sides.
    assert_eq!(streams.cleanup_closed_streams(&[StreamId::new(0)], &[StreamId::new(0)]), (0, 0));
    let ended = streams.obtain_stream(StreamId::new(0)).expect("ended");
    assert!(!ended.send && !ended.recv);
    streams.zero_rtt_rejected();
    assert_eq!(
        streams.obtain_stream(StreamId::new(0)).unwrap_err(),
        Error::StreamState
    );
}

#[test]
fn ended_streams_of_the_peer_are_counted() {
    let mut streams = client(false);
    streams.obtain_stream(StreamId::new(5)).expect("bidi");
    streams.obtain_stream(StreamId::new(7)).expect("uni");
    let ended: Vec<StreamId> = [1, 3, 3, 7, 11].map(StreamId::new).to_vec();
    assert_eq!(streams.cleanup_closed_streams(&[StreamId::new(1)], &ended), (1, 2));
    assert_eq!(streams.cleanup_closed_streams(&[], &ended), (0, 0));
}

fn stats() -> FrameStats {
    FrameStats {
        reset_stream: 0,
        stop_sending: 0,
        stream: 0,
        max_data: 0,
        max_stream_data: 0,
        max_streams: 0,
        data_blocked: 0,
        stream_data_blocked: 0,
        streams_blocked: 0,
    }
}

#[test]
fn frames_lead_to_actions() {
    let mut streams = client(false);
    streams.set_initial_limits(1, 1);
    streams.stream_create(StreamType::UniDi).expect("uni");
    let mut counts = stats();
    let recv = StreamId::new(3);
    let send = StreamId::new(2);

    let outcome = streams.input_frame(
        &StreamFrame::Stream { stream_id: recv, offset: 4, fin: true },
        &mut counts,
    );
    assert_eq!(ids(&outcome.created), vec![3]);
    assert_eq!(
        outcome.result,
        Ok(StreamAction::Deliver { stream_id: recv, offset: 4, fin: true })
    );
    assert_eq!(outcome.stop_sending, None);
    let outcome = streams.input_frame(
        &StreamFrame::ResetStream {
            stream_id: recv,
            application_error_code: 1,
            final_size: 2,
        },
        &mut counts,
    );
    assert_eq!(
        outcome.result,
        Ok(StreamAction::ResetReceive {
            stream_id: recv,
            application_error_code: 1,
            final_size: 2,
        })
    );
    let outcome = streams.input_frame(
        &StreamFrame::StopSending { stream_id: send, application_error_code: 9 },
        &mut counts,
    );
    assert_eq!(outcome.stop_sending, Some((send, 9)));
    assert_eq!(
        outcome.result,
        Ok(StreamAction::ResetSend { stream_id: send, application_error_code: 9 })
    );
    // The application is told even where the frame is refused.
    let unknown = StreamId::new(6);
    let outcome = streams.input_frame(
        &StreamFrame::StopSending { stream_id: unknown, application_error_code: 9 },
        &mut counts,
    );
    assert_eq!(outcome.stop_sending, Some((unknown, 9)));
    assert_eq!(outcome.result, Err(Error::StreamState));
    // There is no sending side.
    let outcome = streams.input_frame(
        &StreamFrame::MaxStreamData { stream_id: recv, maximum_stream_data: 5 },
        &mut counts,
    );
    assert_eq!(outcome.result, Ok(StreamAction::Nothing));
    let outcome = streams.input_frame(
        &StreamFrame::MaxStreamData { stream_id: send, maximum_stream_data: 5 },
        &mut counts,
    );
    assert_eq!(
        outcome.result,
        Ok(StreamAction::MaxStreamData { stream_id: send, maximum_stream_data: 5 })
    );
    let outcome = streams.input_frame(
        &StreamFrame::StreamDataBlocked { stream_id: send },
        &mut counts,
    );
    assert_eq!(outcome.result, Err(Error::StreamState));
    let outcome = streams.input_frame(
        &StreamFrame::StreamDataBlocked { stream_id: recv },
        &mut counts,
    );
    assert_eq!(
        outcome.result,
        Ok(StreamAction::SendStreamFlowControlUpdate { stream_id: recv })
    );
    let outcome = streams.input_frame(&StreamFrame::MaxData { maximum_data: 8 }, &mut counts);
    assert_eq!(outcome.result, Ok(StreamAction::MaxData { maximum_data: 8 }));
    for (maximum_streams, action) in [
        (1, StreamAction::Nothing),
        (2, StreamAction::StreamCreatable { stream_type: StreamType::BiDi }),
    ] {
        let outcome = streams.input_frame(
            &StreamFrame::MaxStreams { stream_type: StreamType::BiDi, maximum_streams },
            &mut counts,
        );
        assert_eq!(outcome.result, Ok(action));
    }
    let outcome = streams.input_frame(&StreamFrame::DataBlocked, &mut counts);
    assert_eq!(outcome.result, Ok(StreamAction::SendFlowControlUpdate));
    let outcome = streams.input_frame(&StreamFrame::StreamsBlocked, &mut counts);
    assert_eq!(outcome.result, Ok(StreamAction::Nothing));
    let outcome = streams.input_frame(&StreamFrame::Other, &mut counts);
    assert_eq!(outcome.result, Err(Error::Internal));
    assert_eq!(
        counts,
        FrameStats {
            reset_stream: 1,
            stop_sending: 2,
            stream: 1,
            max_data: 1,
            max_stream_data: 2,
            max_streams: 2,
            data_blocked: 1,
            stream_data_blocked: 2,
            streams_blocked: 1,
        }
    );
}

#[test]
fn losses_and_acknowledgments_lead_to_actions() {
    let mut streams = client(false);
    let id = StreamId::new(3);
    let (created, action) =
        streams.lost(&StreamRecoveryToken::MaxStreamData { stream_id: id, max_data: 4 });
    assert_eq!(ids(&created), vec![3]);
    assert_eq!(action, LossAction::MaxStreamDataLost { stream_id: id, max_data: 4 });
    let (_, action) = streams.lost(&StreamRecoveryToken::StopSending { stream_id: StreamId::new(2) });
    assert_eq!(action, LossAction::Nothing);
    let (_, action) = streams.lost(&StreamRecoveryToken::DataBlocked(7));
    assert_eq!(action, LossAction::DataBlockedLost { limit: 7 });
    let (_, action) = streams.lost(&StreamRecoveryToken::MaxData(8));
    assert_eq!(action, LossAction::MaxDataLost { maximum_data: 8 });
    let (_, action) = streams.lost(&StreamRecoveryToken::ResetStream { stream_id: id });
    assert_eq!(action, LossAction::ResetLost { stream_id: id });
    let data = SendStreamRecoveryToken {
        stream_id: StreamId::new(2),
        offset: 5,
        length: 7,
        fin: true,
    };
    let (created, action) = streams.lost(&StreamRecoveryToken::Stream(data));
    assert!(created.is_empty());
    assert_eq!(action, LossAction::StreamLost(data));
    assert_eq!(
        Streams::acked(&StreamRecoveryToken::Stream(data)),
        AckAction::StreamAcked(data)
    );
    assert_eq!(
        Streams::acked(&StreamRecoveryToken::StopSending { stream_id: id }),
        AckAction::StopSendingAcked { stream_id: id }
    );
    assert_eq!(Streams::acked(&StreamRecoveryToken::MaxData(1)), AckAction::Nothing);
}

#[test]
fn maintenance_frames_are_written_in_turn() {
    let mut writers = vec![];
    let mut previous = None;
    while let Some(next) = Streams::write_maintenance_frames(previous, false) {
        writers.push(next);
        previous = Some(next);
    }
    assert_eq!(
        writers,
        vec![
            MaintenanceWriter::SenderFlowControl,
            MaintenanceWriter::ReceiverFlowControl,
            MaintenanceWriter::RecvStreams,
            MaintenanceWriter::RemoteStreamLimits(StreamType::BiDi),
            MaintenanceWriter::RemoteStreamLimits(StreamType::UniDi),
            MaintenanceWriter::LocalStreamLimits(StreamType::BiDi),
            MaintenanceWriter::LocalStreamLimits(StreamType::UniDi),
        ]
    );
    assert_eq!(
        Streams::write_maintenance_frames(Some(MaintenanceWriter::SenderFlowControl), true),
        None
    );
    assert_eq!(
        Streams::write_maintenance_frames(Some(MaintenanceWriter::RecvStreams), true),
        Some(MaintenanceWriter::RemoteStreamLimits(StreamType::BiDi))
    );
}

#[test]
fn streams_are_found_without_being_opened() {
    let mut streams = client(false);
    let recv = StreamId::new(3);
    assert_eq!(streams.get_recv_stream(recv), Err(Error::InvalidStreamId));
    assert_eq!(streams.recv_stream_count(), 0);
    streams.obtain_stream(StreamId::new(7)).expect("second");
    assert_eq!(streams.get_recv_stream(recv), Ok(recv));
    assert_eq!(streams.get_send_stream(recv), Err(Error::InvalidStreamId));
    assert_eq!(streams.recv_stream_count(), 2);
    let bidi = StreamId::new(1);
    streams.obtain_stream(bidi).expect("bidi");
    assert_eq!(streams.get_send_stream(bidi), Ok(bidi));
    streams.clear_streams();
    assert_eq!(streams.get_send_stream(bidi), Err(Error::InvalidStreamId));
    assert_eq!(streams.recv_stream_count(), 0);
}

#[test]
fn a_server_with_multicast_passes_streams_over_too() {
    for (client_params, server_support, opened) in [
        (false, false, vec![2, 6]),
        (false, true, vec![6]),
        (true, false, vec![6]),
    ] {
        let mut streams = Streams::new(Role::Server, 2, 3, client_params, server_support);
        let obtained = streams.obtain_stream(StreamId::new(6)).expect("second");
        assert_eq!(ids(&obtained.created), opened);
    }
}

#[test]
fn counts_of_frames_have_an_end() {
    let mut full = stats();
    full.streams_blocked = usize::MAX;
    assert!(!full.can_count(&StreamFrame::StreamsBlocked));
    assert!(full.can_count(&StreamFrame::DataBlocked));
    assert!(full.can_count(&StreamFrame::Other));
    let mut streams = client(false);
    streams.input_frame(&StreamFrame::DataBlocked, &mut full);
    assert_eq!(full.data_blocked, 1);
}

#[test]
fn streams_for_one_direction_have_one_side() {
    let mut streams = client(false);
    streams.set_initial_limits(1, 1);
    let own = streams.stream_create(StreamType::UniDi).expect("own").stream_id;
    assert_eq!(streams.get_send_stream(own), Ok(own));
    assert_eq!(streams.get_recv_stream(own), Err(Error::InvalidStreamId));
    let remote = StreamId::new(3);
    let obtained = streams.obtain_stream(remote).expect("remote");
    assert!(obtained.recv && !obtained.send);
    assert_eq!(streams.get_send_stream(remote), Err(Error::InvalidStreamId));
}
