//! Laws of what the use of a stream opens, and of what each frame that is about
//! streams comes to.

use vstd::prelude::*;
use crate::error::Error;
use crate::sparse;
use crate::stream_id;
use crate::stream_id::{Role, StreamId, StreamType};
use crate::stream_laws;
use crate::streams;
use crate::streams::{AckAction, Endpoint, FrameStats, LocalStreamLimit, LossAction, MaintenanceWriter, NewStream, RemoteStreamLimit, StreamAction, StreamFrame, StreamLimit, StreamRecoveryToken, StreamsView, TransportParameterId, WritableStream};

verus! {

// ---------------------------------------------------------------------------
// Stream IDs
// ---------------------------------------------------------------------------

/// Clients open streams with even numbers, servers those with odd ones. Of every four
/// numbers the first two are for both directions, the others for one.
pub proof fn law_stream_kinds(id: u64)
    ensures
        stream_id::initiator(id) == Role::Client <==> id % 2 == 0,
        stream_id::type_of(id) == StreamType::BiDi <==> id / 2 % 2 == 0,
        stream_id::first_id(StreamType::BiDi, Role::Client) == 0,
        stream_id::first_id(StreamType::BiDi, Role::Server) == 1,
        stream_id::first_id(StreamType::UniDi, Role::Client) == 2,
        stream_id::first_id(StreamType::UniDi, Role::Server) == 3,
{
}

/// Whether the other end than `role` opens the stream `id`.
pub open spec fn of_peer(role: Role, id: u64) -> bool {
    match role {
        Role::Client => id % 2 == 1,
        Role::Server => id % 2 == 0,
    }
}

/// Whether the stream `id` is for both directions.
pub open spec fn both_ways(id: u64) -> bool {
    id % 4 == 0 || id % 4 == 1
}

// ---------------------------------------------------------------------------
// Streams of the peer
// ---------------------------------------------------------------------------

/// Whether one of the ranges in `seen` holds `id`.
pub open spec fn recorded(seen: Map<u64, u64>, id: u64) -> bool {
    exists|start: u64| #[trigger] seen.contains_key(start) && start <= id <= seen[start]
}

/// The limit on the streams that the peer opens, of the type of the stream `id`.
pub open spec fn limit_of(state: StreamsView, id: u64) -> RemoteStreamLimit {
    if both_ways(id) {
        state.remote_bidi
    } else {
        state.remote_uni
    }
}

/// The peer may use a stream if fewer streams of its type come before it than the
/// limit says.
pub proof fn law_stream_allowed(state: StreamsView, id: u64)
    ensures
        state.allowed(id) <==> id / 4 < limit_of(state, id).max,
{
}

/// Whether the use of `id` opens the stream `x`: the peer opens it, it is of the type
/// of `id`, and it was not opened before. Where streams that are passed over are not
/// opened it is `id` itself, and otherwise `id` or a stream before it.
pub open spec fn opened_by(state: StreamsView, id: u64, x: u64) -> bool {
    &&& of_peer(state.role, id)
    &&& if both_ways(id) || state.sparse is None {
        x % 4 == id % 4 && limit_of(state, id).next <= x / 4 <= id / 4
    } else {
        x == id && !recorded(state.sparse->Some_0, id)
    }
}

/// When the peer uses a stream that its limit does not allow, that is an error.
/// Otherwise the streams that this opens are told from the lowest up, each once.
pub proof fn law_streams_to_open(state: StreamsView, id: u64)
    requires
        state.valid(),
    ensures
        of_peer(state.role, id) && id / 4 >= limit_of(state, id).max ==> state.to_open(id) == Err::<
            Seq<u64>,
            Error,
        >(Error::StreamLimit),
        !of_peer(state.role, id) || id / 4 < limit_of(state, id).max ==> {
            &&& state.to_open(id) matches Ok(ids)
            &&& forall|x: u64| #[trigger] ids.contains(x) <==> opened_by(state, id, x)
            &&& forall|i: int, j: int|
                0 <= i < j < ids.len() ==> (#[trigger] ids[i]) < (#[trigger] ids[j])
        },
{
    lemma_recorded(state, id);
    if let Ok(ids) = state.to_open(id) {
        let next = limit_of(state, id).next;
        assert forall|x: u64| #[trigger] ids.contains(x) <==> opened_by(state, id, x) by {
            if ids.contains(x) {
                let i = choose|i: int| 0 <= i < ids.len() && ids[i] == x;
                if both_ways(id) || state.sparse is None {
                    lemma_step((next + i) as u64, id);
                }
            }
            if opened_by(state, id, x) {
                if both_ways(id) || state.sparse is None {
                    let i = x / 4 - next;
                    assert(4 * (next + i) + id % 4 == x);
                    assert(ids[i] == x);
                } else {
                    assert(ids[0] == x);
                }
            }
        }
        stream_laws::law_remote_streams_opened_once(state, id);
    }
}

proof fn lemma_step(n: u64, id: u64)
    requires
        n <= id / 4,
    ensures
        4 * n + id % 4 <= id,
        (4 * n + id % 4) as u64 % 4 == id % 4,
        (4 * n + id % 4) as u64 / 4 == n,
{
}

proof fn lemma_recorded(state: StreamsView, id: u64)
    requires
        state.valid(),
    ensures
        state.sparse matches Some(seen) ==> (sparse::covers(seen, id) <==> recorded(seen, id)),
{
    if let Some(seen) = state.sparse {
        let class = stream_id::first_id(StreamType::UniDi, streams::other(state.role));
        sparse::lemma_covers_in_range(seen, class, id);
        assert(sparse::in_range(seen, id) <==> recorded(seen, id));
    }
}

/// What the use of a stream changes. The streams that it opens get a receiving side,
/// and a sending side where they are for both directions. The count of the streams of
/// the type reaches beyond the stream. A stream whose predecessors are passed over is
/// recorded. Nothing else changes.
pub proof fn law_use_of_stream(state: StreamsView, id: u64, x: u64)
    requires
        state.valid(),
    ensures
        ({
            let after = state.after_use(id);
            let used = of_peer(state.role, id) && id / 4 < limit_of(state, id).max;
            &&& !used ==> after == state
            &&& used ==> {
                &&& after.recv.contains(x) <==> state.recv.contains(x) || opened_by(state, id, x)
                &&& after.send.contains(x) <==> state.send.contains(x) || both_ways(id)
                    && opened_by(state, id, x)
                &&& limit_of(after, id).next == if id / 4 >= limit_of(state, id).next {
                    id / 4 + 1
                } else {
                    limit_of(state, id).next as int
                }
                &&& limit_of(after, id).max == limit_of(state, id).max
                &&& both_ways(id) ==> after.remote_uni == state.remote_uni
                &&& !both_ways(id) ==> after.remote_bidi == state.remote_bidi
                &&& after.local_bidi == state.local_bidi
                &&& after.local_uni == state.local_uni
                &&& after.role == state.role
                &&& both_ways(id) ==> after.sparse == state.sparse
                &&& state.sparse is None <==> after.sparse is None
                &&& !both_ways(id) && state.sparse is Some && x % 4 == id % 4 ==> (recorded(
                    after.sparse->Some_0,
                    x,
                ) <==> recorded(state.sparse->Some_0, x) || x == id)
            }
        }),
{
    let after = state.after_use(id);
    law_streams_to_open(state, id);
    if of_peer(state.role, id) && id / 4 < limit_of(state, id).max {
        let ids = state.to_open(id)->Ok_0;
        assert(ids.to_set().contains(x) <==> ids.contains(x));
        if opened_by(state, id, x) {
            assert(x % 4 == id % 4);
        }
        stream_laws::law_use_keeps_valid(state, id);
        if !both_ways(id) && state.sparse is Some && x % 4 == id % 4 {
            lemma_recorded(state, x);
            lemma_recorded(after, x);
            stream_laws::lemma_sparse(state, id, x);
        }
    }
}

/// What a stream stands for in a frame. A stream of this end that was not opened yet
/// and has no side is refused, and so is one of the peer beyond its limit. Otherwise
/// the two sides are those that there are once the peer used the stream.
pub proof fn law_stream_obtained(state: StreamsView, id: u64)
    requires
        state.valid(),
    ensures
        ({
            let out = state.obtained(id);
            let peer = of_peer(state.role, id);
            let used = if both_ways(id) {
                state.local_bidi.used
            } else {
                state.local_uni.used
            };
            let beyond = peer && id / 4 >= limit_of(state, id).max;
            let unopened = !peer && !state.send.contains(id) && !state.recv.contains(id) && id / 4
                >= used;
            &&& beyond ==> out == Err::<(Seq<u64>, bool, bool), Error>(Error::StreamLimit)
            &&& unopened ==> out == Err::<(Seq<u64>, bool, bool), Error>(Error::StreamState)
            &&& !beyond && !unopened ==> {
                &&& out matches Ok((ids, send, recv))
                &&& state.to_open(id) == Ok::<Seq<u64>, Error>(ids)
                &&& send <==> state.send.contains(id) || both_ways(id) && opened_by(state, id, id)
                &&& recv <==> state.recv.contains(id) || opened_by(state, id, id)
            }
        }),
{
    law_streams_to_open(state, id);
    law_use_of_stream(state, id, id);
}

/// The first limits of a stream that the peer opened: what it may send is up to the
/// parameters of this end, and what this end may send, on a stream for both directions,
/// is up to those of the peer.
pub proof fn law_new_stream_of_peer(stream: NewStream, id: u64)
    ensures
        streams::is_new_remote(stream, id) <==> {
            &&& stream.stream_id@ == id
            &&& both_ways(id) ==> {
                &&& stream.recv_limit == Some(
                    StreamLimit {
                        endpoint: Endpoint::Local,
                        parameter: TransportParameterId::InitialMaxStreamDataBidiRemote,
                    },
                )
                &&& stream.send_limit == Some(
                    StreamLimit {
                        endpoint: Endpoint::Remote,
                        parameter: TransportParameterId::InitialMaxStreamDataBidiLocal,
                    },
                )
            }
            &&& !both_ways(id) ==> {
                &&& stream.recv_limit == Some(
                    StreamLimit {
                        endpoint: Endpoint::Local,
                        parameter: TransportParameterId::InitialMaxStreamDataUni,
                    },
                )
                &&& stream.send_limit is None
            }
        },
{
}

/// Streams that the peer opened are made one for each number, in the same order.
pub proof fn law_new_streams_of_peer(made: Seq<NewStream>, ids: Seq<u64>, i: int)
    requires
        streams::are_new_remote(made, ids),
    ensures
        made.len() == ids.len(),
        0 <= i < ids.len() ==> made[i].stream_id@ == ids[i] && streams::is_new_remote(
            made[i],
            ids[i],
        ),
{
}

// ---------------------------------------------------------------------------
// Streams of this end
// ---------------------------------------------------------------------------

/// The first limits of a stream that this end opened.
pub proof fn law_new_stream_of_this_end(stream: NewStream, id: u64)
    ensures
        streams::is_new_local(stream, id) <==> {
            &&& stream.stream_id@ == id
            &&& both_ways(id) ==> {
                &&& stream.recv_limit == Some(
                    StreamLimit {
                        endpoint: Endpoint::Local,
                        parameter: TransportParameterId::InitialMaxStreamDataBidiLocal,
                    },
                )
                &&& stream.send_limit == Some(
                    StreamLimit {
                        endpoint: Endpoint::Remote,
                        parameter: TransportParameterId::InitialMaxStreamDataBidiRemote,
                    },
                )
            }
            &&& !both_ways(id) ==> {
                &&& stream.recv_limit is None
                &&& stream.send_limit == Some(
                    StreamLimit {
                        endpoint: Endpoint::Remote,
                        parameter: TransportParameterId::InitialMaxStreamDataUni,
                    },
                )
            }
        },
{
}

/// This end opens its streams of a type one after the other, as long as the limit
/// allows, and no number is used up beyond the largest one. The stream gets a sending
/// side, and a receiving side where it is for both directions. Nothing else changes.
pub proof fn law_stream_of_this_end_opened(state: StreamsView, stream_type: StreamType, x: u64)
    requires
        state.valid(),
    ensures
        ({
            let limit = match stream_type {
                StreamType::BiDi => state.local_bidi,
                StreamType::UniDi => state.local_uni,
            };
            let first = match (stream_type, state.role) {
                (StreamType::BiDi, Role::Client) => 0int,
                (StreamType::BiDi, Role::Server) => 1int,
                (StreamType::UniDi, Role::Client) => 2int,
                (StreamType::UniDi, Role::Server) => 3int,
            };
            let id = state.next_local(stream_type);
            let after = state.after_create(stream_type);
            &&& state.can_open(stream_type) <==> limit.used < limit.limit && 4 * limit.used + first
                <= u64::MAX
            &&& state.can_open(stream_type) ==> {
                &&& id == 4 * limit.used + first
                &&& after.send.contains(x) <==> state.send.contains(x) || x == id
                &&& after.recv.contains(x) <==> state.recv.contains(x) || x == id && stream_type
                    == StreamType::BiDi
                &&& stream_type == StreamType::BiDi ==> after.local_bidi.used == limit.used + 1
                    && after.local_bidi.limit == limit.limit && after.local_uni == state.local_uni
                &&& stream_type == StreamType::UniDi ==> after.local_uni.used == limit.used + 1
                    && after.local_uni.limit == limit.limit && after.local_bidi == state.local_bidi
                &&& after.role == state.role
                &&& after.remote_bidi == state.remote_bidi
                &&& after.remote_uni == state.remote_uni
                &&& after.sparse == state.sparse
            }
        }),
{
}

/// A limit that the peer tells counts if it is higher than the one before. As many
/// streams can be opened as it allows more than were opened.
pub proof fn law_limit_raised(limit: LocalStreamLimit, maximum: u64)
    ensures
        limit.raised(maximum).limit >= maximum,
        limit.raised(maximum).limit >= limit.limit,
        limit.raised(maximum).limit == maximum || limit.raised(maximum).limit == limit.limit,
        limit.raised(maximum).used == limit.used,
        limit.used <= limit.limit ==> limit.used + limit.available() == limit.limit,
        limit.used > limit.limit ==> limit.available() == 0,
{
}

/// The limits of either type are told apart.
pub proof fn law_limits_by_type(
    state: StreamsView,
    remote: RemoteStreamLimit,
    local: LocalStreamLimit,
)
    ensures
        state.remote(StreamType::BiDi) == state.remote_bidi,
        state.remote(StreamType::UniDi) == state.remote_uni,
        state.local(StreamType::BiDi) == state.local_bidi,
        state.local(StreamType::UniDi) == state.local_uni,
        state.with_remote(StreamType::BiDi, remote) == (StreamsView {
            remote_bidi: remote,
            ..state
        }),
        state.with_remote(StreamType::UniDi, remote) == (StreamsView {
            remote_uni: remote,
            ..state
        }),
        state.with_local(StreamType::BiDi, local) == (StreamsView { local_bidi: local, ..state }),
        state.with_local(StreamType::UniDi, local) == (StreamsView { local_uni: local, ..state }),
{
}

/// Clearing the streams takes every side away and forgets which were seen, and
/// leaves the rest.
pub proof fn law_all_cleared(state: StreamsView)
    ensures
        state.cleared().send == Set::<u64>::empty(),
        state.cleared().recv == Set::<u64>::empty(),
        state.sparse is None ==> state.cleared().sparse is None,
        state.sparse is Some ==> state.cleared().sparse == Some(Map::<u64, u64>::empty()),
        state.cleared().role == state.role,
        state.cleared().remote_bidi == state.remote_bidi,
        state.cleared().remote_uni == state.remote_uni,
        state.cleared().local_bidi == state.local_bidi,
        state.cleared().local_uni == state.local_uni,
{
}

// ---------------------------------------------------------------------------
// Frames
// ---------------------------------------------------------------------------

/// A frame on a stream that is refused is refused with the same error, and nothing is
/// opened by it.
pub proof fn law_refused_stream(state: StreamsView, frame: StreamFrame)
    ensures
        ({
            let id = match frame {
                StreamFrame::ResetStream { stream_id, .. } => Some(stream_id),
                StreamFrame::StopSending { stream_id, .. } => Some(stream_id),
                StreamFrame::Stream { stream_id, .. } => Some(stream_id),
                StreamFrame::MaxStreamData { stream_id, .. } => Some(stream_id),
                _ => None,
            };
            &&& id is Some ==> (state.obtained(id->Some_0@) matches Err(e) ==> state.input(frame)
                == (state, Seq::<u64>::empty(), Err::<StreamAction, Error>(e)))
            &&& id is Some ==> (state.obtained(id->Some_0@) matches Ok((ids, send, recv)) ==> {
                let (after, opened, result) = state.input(frame);
                &&& after == state.after_use(id->Some_0@)
                &&& opened == ids
                &&& result is Ok
            })
        }),
{
}

/// STREAM, on a stream that has a receiving side once it was opened: the data goes to
/// that stream, at the offset of the frame and with its FIN bit, each as it came.
/// Without a receiving side nothing is done.
pub proof fn law_stream_frame(state: StreamsView, stream_id: StreamId, offset: u64, fin: bool)
    requires
        state.obtained(stream_id@) is Ok,
    ensures
        ({
            let (_, _, result) = state.input(StreamFrame::Stream { stream_id, offset, fin });
            let recv = state.after_use(stream_id@).recv.contains(stream_id@);
            &&& recv ==> {
                &&& result matches Ok(StreamAction::Deliver { stream_id: to, offset: at, fin: last })
                &&& to == stream_id
                &&& at == offset
                &&& last == fin
            }
            &&& !recv ==> result == Ok::<StreamAction, Error>(StreamAction::Nothing)
        }),
{
}

/// RESET_STREAM, on a stream that has a receiving side once it was opened: that side is
/// reset, with the reason and the length of the frame.
pub proof fn law_reset_stream_frame(
    state: StreamsView,
    stream_id: StreamId,
    application_error_code: u64,
    final_size: u64,
)
    requires
        state.obtained(stream_id@) is Ok,
    ensures
        ({
            let (_, _, result) = state.input(
                StreamFrame::ResetStream { stream_id, application_error_code, final_size },
            );
            let recv = state.after_use(stream_id@).recv.contains(stream_id@);
            &&& recv ==> {
                &&& result matches Ok(
                    StreamAction::ResetReceive {
                        stream_id: of,
                        application_error_code: code,
                        final_size: size,
                    },
                )
                &&& of == stream_id
                &&& code == application_error_code
                &&& size == final_size
            }
            &&& !recv ==> result == Ok::<StreamAction, Error>(StreamAction::Nothing)
        }),
{
}

/// STOP_SENDING, on a stream that has a sending side once it was opened: that side is
/// reset, with the reason of the frame.
pub proof fn law_stop_sending_frame(
    state: StreamsView,
    stream_id: StreamId,
    application_error_code: u64,
)
    requires
        state.obtained(stream_id@) is Ok,
    ensures
        ({
            let (_, _, result) = state.input(
                StreamFrame::StopSending { stream_id, application_error_code },
            );
            let send = state.after_use(stream_id@).send.contains(stream_id@);
            &&& send ==> {
                &&& result matches Ok(
                    StreamAction::ResetSend { stream_id: of, application_error_code: code },
                )
                &&& of == stream_id
                &&& code == application_error_code
            }
            &&& !send ==> result == Ok::<StreamAction, Error>(StreamAction::Nothing)
        }),
{
}

/// MAX_STREAM_DATA, on a stream that has a sending side once it was opened: that side
/// gets the limit of the frame.
pub proof fn law_max_stream_data_frame(
    state: StreamsView,
    stream_id: StreamId,
    maximum_stream_data: u64,
)
    requires
        state.obtained(stream_id@) is Ok,
    ensures
        ({
            let (_, _, result) = state.input(
                StreamFrame::MaxStreamData { stream_id, maximum_stream_data },
            );
            let send = state.after_use(stream_id@).send.contains(stream_id@);
            &&& send ==> {
                &&& result matches Ok(
                    StreamAction::MaxStreamData { stream_id: of, maximum_stream_data: limit },
                )
                &&& of == stream_id
                &&& limit == maximum_stream_data
            }
            &&& !send ==> result == Ok::<StreamAction, Error>(StreamAction::Nothing)
        }),
{
}

/// STREAM_DATA_BLOCKED: on a stream that only this end sends on it is refused. On one
/// that has a receiving side once it was opened, the peer is told how much it may send
/// there.
pub proof fn law_stream_data_blocked_frame(state: StreamsView, stream_id: StreamId)
    ensures
        ({
            let id = stream_id@;
            let (after, opened, result) = state.input(StreamFrame::StreamDataBlocked { stream_id });
            let send_only = !both_ways(id) && !of_peer(state.role, id);
            &&& send_only ==> after == state && opened.len() == 0 && result == Err::<
                StreamAction,
                Error,
            >(Error::StreamState)
            &&& !send_only ==> match state.obtained(id) {
                Err(e) => after == state && opened.len() == 0 && result == Err::<
                    StreamAction,
                    Error,
                >(e),
                Ok((ids, _, _)) => {
                    let recv = state.after_use(id).recv.contains(id);
                    &&& after == state.after_use(id)
                    &&& opened == ids
                    &&& recv ==> (result matches Ok(
                        StreamAction::SendStreamFlowControlUpdate { stream_id: of },
                    ) && of == stream_id)
                    &&& !recv ==> result == Ok::<StreamAction, Error>(StreamAction::Nothing)
                },
            }
        }),
{
}

/// Frames on no stream. MAX_DATA hands its limit on. MAX_STREAMS raises the limit on the
/// streams of its type, and the application is told if it is higher than before. To
/// DATA_BLOCKED this end answers how much the peer may send, and STREAMS_BLOCKED needs
/// no answer. Any other frame is not for the streams. None of them opens a stream.
pub proof fn law_connection_frames(
    state: StreamsView,
    maximum_data: u64,
    stream_type: StreamType,
    maximum_streams: u64,
)
    ensures
        ({
            let (after, opened, result) = state.input(StreamFrame::MaxData { maximum_data });
            &&& after == state && opened.len() == 0
            &&& result matches Ok(StreamAction::MaxData { maximum_data: limit }) && limit
                == maximum_data
        }),
        ({
            let (after, opened, result) = state.input(
                StreamFrame::MaxStreams { stream_type, maximum_streams },
            );
            let limit = match stream_type {
                StreamType::BiDi => state.local_bidi,
                StreamType::UniDi => state.local_uni,
            };
            let raised = LocalStreamLimit { limit: maximum_streams, used: limit.used };
            &&& opened.len() == 0
            &&& maximum_streams <= limit.limit ==> after == state && result == Ok::<
                StreamAction,
                Error,
            >(StreamAction::Nothing)
            &&& maximum_streams > limit.limit ==> {
                &&& stream_type == StreamType::BiDi ==> after == (StreamsView {
                    local_bidi: raised,
                    ..state
                })
                &&& stream_type == StreamType::UniDi ==> after == (StreamsView {
                    local_uni: raised,
                    ..state
                })
                &&& result matches Ok(StreamAction::StreamCreatable { stream_type: of }) && of
                    == stream_type
            }
        }),
        state.input(StreamFrame::DataBlocked) == (
            state,
            Seq::<u64>::empty(),
            Ok::<StreamAction, Error>(StreamAction::SendFlowControlUpdate),
        ),
        state.input(StreamFrame::StreamsBlocked) == (
            state,
            Seq::<u64>::empty(),
            Ok::<StreamAction, Error>(StreamAction::Nothing),
        ),
        state.input(StreamFrame::Other) == (
            state,
            Seq::<u64>::empty(),
            Err::<StreamAction, Error>(Error::Internal),
        ),
{
}

/// Every frame adds one to the count of its kind, and to no other.
pub proof fn law_frame_counted(stats: FrameStats, frame: StreamFrame)
    requires
        stats.has_room(frame),
    ensures
        ({
            let after = stats.counted(frame);
            &&& after.reset_stream == stats.reset_stream + (if frame is ResetStream {
                1int
            } else {
                0int
            })
            &&& after.stop_sending == stats.stop_sending + (if frame is StopSending {
                1int
            } else {
                0int
            })
            &&& after.stream == stats.stream + (if frame is Stream {
                1int
            } else {
                0int
            })
            &&& after.max_data == stats.max_data + (if frame is MaxData {
                1int
            } else {
                0int
            })
            &&& after.max_stream_data == stats.max_stream_data + (if frame is MaxStreamData {
                1int
            } else {
                0int
            })
            &&& after.max_streams == stats.max_streams + (if frame is MaxStreams {
                1int
            } else {
                0int
            })
            &&& after.data_blocked == stats.data_blocked + (if frame is DataBlocked {
                1int
            } else {
                0int
            })
            &&& after.stream_data_blocked == stats.stream_data_blocked + (if frame
                is StreamDataBlocked {
                1int
            } else {
                0int
            })
            &&& after.streams_blocked == stats.streams_blocked + (if frame is StreamsBlocked {
                1int
            } else {
                0int
            })
        }),
{
}

/// A frame can be counted unless the count of its kind has reached the largest
/// number.
pub proof fn law_frame_can_be_counted(stats: FrameStats, frame: StreamFrame)
    ensures
        stats.has_room(frame) <==> {
            &&& frame is ResetStream ==> stats.reset_stream < usize::MAX
            &&& frame is StopSending ==> stats.stop_sending < usize::MAX
            &&& frame is Stream ==> stats.stream < usize::MAX
            &&& frame is MaxData ==> stats.max_data < usize::MAX
            &&& frame is MaxStreamData ==> stats.max_stream_data < usize::MAX
            &&& frame is MaxStreams ==> stats.max_streams < usize::MAX
            &&& frame is DataBlocked ==> stats.data_blocked < usize::MAX
            &&& frame is StreamDataBlocked ==> stats.stream_data_blocked < usize::MAX
            &&& frame is StreamsBlocked ==> stats.streams_blocked < usize::MAX
        },
{
}

// ---------------------------------------------------------------------------
// Lost and acknowledged packets
// ---------------------------------------------------------------------------

/// What was lost is told with what it said, and opens no stream, but for what is about
/// a receiving stream: that stream is looked up as for a frame, and told if it has a
/// receiving side then.
pub proof fn law_loss_told(state: StreamsView, token: StreamRecoveryToken)
    ensures
        ({
            let (after, opened, action) = state.lost(token);
            let quiet = after == state && opened.len() == 0;
            match token {
                StreamRecoveryToken::Stream(data) => quiet && (action matches LossAction::StreamLost(
                    lost,
                ) && lost == data),
                StreamRecoveryToken::ResetStream { stream_id } => quiet && (action
                    matches LossAction::ResetLost { stream_id: of } && of == stream_id),
                StreamRecoveryToken::StreamDataBlocked { stream_id, limit } => quiet && (action
                    matches LossAction::BlockedLost { stream_id: of, limit: at } && of == stream_id
                    && at == limit),
                StreamRecoveryToken::MaxStreamData { stream_id, max_data } => match state.obtained(
                    stream_id@,
                ) {
                    Err(_) => quiet && action == LossAction::Nothing,
                    Ok((ids, _, recv)) => {
                        &&& after == state.after_use(stream_id@)
                        &&& opened == ids
                        &&& recv ==> (action matches LossAction::MaxStreamDataLost {
                            stream_id: of,
                            max_data: limit,
                        } && of == stream_id && limit == max_data)
                        &&& !recv ==> action == LossAction::Nothing
                    },
                },
                StreamRecoveryToken::StopSending { stream_id } => match state.obtained(
                    stream_id@,
                ) {
                    Err(_) => quiet && action == LossAction::Nothing,
                    Ok((ids, _, recv)) => {
                        &&& after == state.after_use(stream_id@)
                        &&& opened == ids
                        &&& recv ==> (action matches LossAction::StopSendingLost { stream_id: of }
                            && of == stream_id)
                        &&& !recv ==> action == LossAction::Nothing
                    },
                },
                StreamRecoveryToken::StreamsBlocked { stream_type, limit } => quiet && (action
                    matches LossAction::StreamsBlockedLost { stream_type: of, limit: at } && of
                    == stream_type && at == limit),
                StreamRecoveryToken::MaxStreams { stream_type, max_streams } => quiet && (action
                    matches LossAction::MaxStreamsLost { stream_type: of, max_streams: at } && of
                    == stream_type && at == max_streams),
                StreamRecoveryToken::DataBlocked(limit) => quiet && (action
                    matches LossAction::DataBlockedLost { limit: at } && at == limit),
                StreamRecoveryToken::MaxData(limit) => quiet && (action
                    matches LossAction::MaxDataLost { maximum_data: at } && at == limit),
            }
        }),
{
}

/// That data, RESET_STREAM or STOP_SENDING was acknowledged is told, and nothing else.
pub proof fn law_acknowledgment_told(token: StreamRecoveryToken)
    ensures
        match token {
            StreamRecoveryToken::Stream(data) => streams::acked_action(token)
                matches AckAction::StreamAcked(acked) && acked == data,
            StreamRecoveryToken::ResetStream { stream_id } => streams::acked_action(token)
                matches AckAction::ResetAcked { stream_id: of } && of == stream_id,
            StreamRecoveryToken::StopSending { stream_id } => streams::acked_action(token)
                matches AckAction::StopSendingAcked { stream_id: of } && of == stream_id,
            _ => streams::acked_action(token) == AckAction::Nothing,
        },
{
}

/// The first writer of maintenance frames comes even in a full packet, and so does the
/// one behind the receiving streams.
pub proof fn law_writers_in_full_packet(full: bool)
    ensures
        streams::writer_after(None, full) == Some(MaintenanceWriter::SenderFlowControl),
        streams::writer_after(Some(MaintenanceWriter::RecvStreams), full) == Some(
            MaintenanceWriter::RemoteStreamLimits(StreamType::BiDi),
        ),
{
}

// ---------------------------------------------------------------------------
// Streams that have ended
// ---------------------------------------------------------------------------

/// The numbers of streams are those that occur among them.
pub proof fn law_numbers_of_streams(ids: Seq<StreamId>, x: u64)
    ensures
        streams::id_set(ids).contains(x) <==> exists|i: int|
            0 <= i < ids.len() && (#[trigger] ids[i])@ == x,
{
    let numbers = ids.map_values(|id: StreamId| id@);
    if streams::id_set(ids).contains(x) {
        let i = choose|i: int| 0 <= i < numbers.len() && numbers[i] == x;
        assert(ids[i]@ == x);
    }
    if exists|i: int| 0 <= i < ids.len() && (#[trigger] ids[i])@ == x {
        let i = choose|i: int| 0 <= i < ids.len() && (#[trigger] ids[i])@ == x;
        assert(numbers[i] == x);
    }
}

/// Of the receiving streams that have ended, those of a type are counted that the peer
/// had opened and that were still known, each once, however often it is named.
pub proof fn law_ended_streams_counted(
    recv: Set<u64>,
    ids: Seq<StreamId>,
    role: Role,
    stream_type: StreamType,
)
    ensures
        ({
            let ended = Set::new(
                |x: u64|
                    recv.contains(x) && of_peer(role, x) && (stream_type == StreamType::BiDi
                        <==> both_ways(x)) && streams::id_set(ids).contains(x),
            );
            &&& ended.finite()
            &&& streams::retired(recv, ids, role, stream_type) == ended.len()
        }),
    decreases ids.len(),
{
    let ended = Set::new(
        |x: u64|
            recv.contains(x) && of_peer(role, x) && (stream_type == StreamType::BiDi <==> both_ways(
                x,
            )) && streams::id_set(ids).contains(x),
    );
    if ids.len() == 0 {
        assert forall|x: u64| !ended.contains(x) by {
            law_numbers_of_streams(ids, x);
        }
        assert(ended =~= Set::empty());
    } else {
        let before = ids.drop_last();
        let id = ids.last()@;
        law_ended_streams_counted(recv, before, role, stream_type);
        let earlier = Set::new(
            |x: u64|
                recv.contains(x) && of_peer(role, x) && (stream_type == StreamType::BiDi
                    <==> both_ways(x)) && streams::id_set(before).contains(x),
        );
        assert forall|x: u64|
            streams::id_set(ids).contains(x) <==> streams::id_set(before).contains(x) || x == id by {
            law_numbers_of_streams(ids, x);
            law_numbers_of_streams(before, x);
            if streams::id_set(before).contains(x) {
                let i = choose|i: int| 0 <= i < before.len() && (#[trigger] before[i])@ == x;
                assert(ids[i]@ == x);
            }
            if x == id {
                assert(ids[ids.len() - 1]@ == x);
            }
            if streams::id_set(ids).contains(x) && x != id {
                let i = choose|i: int| 0 <= i < ids.len() && (#[trigger] ids[i])@ == x;
                assert(before[i]@ == x);
            }
        }
        let counts = recv.contains(id) && of_peer(role, id) && (stream_type == StreamType::BiDi
            <==> both_ways(id));
        if counts && !streams::id_set(before).contains(id) {
            assert(ended =~= earlier.insert(id));
        } else {
            assert(ended =~= earlier);
        }
    }
}

/// The streams that are told of a limit are those that are named, in the same order.
pub proof fn law_told_streams(told: Seq<WritableStream>, i: int)
    ensures
        streams::told_streams(told).len() == told.len(),
        0 <= i < told.len() ==> streams::told_streams(told)[i] == told[i].stream_id,
{
}

} // verus!
