//! Laws of the streams of a connection.

use vstd::prelude::*;
use crate::error::Error;
use crate::sparse;
use crate::stream_id;
use crate::stream_id::StreamType;
use crate::streams;
use crate::streams::{MaintenanceWriter, StreamsView};

verus! {

proof fn lemma_kind_of_step(n: u64, id: u64)
    requires
        n <= id / 4,
    ensures
        4 * n + id % 4 <= id,
        stream_id::type_of((4 * n + id % 4) as u64) == stream_id::type_of(id),
        stream_id::initiator((4 * n + id % 4) as u64) == stream_id::initiator(id),
        (4 * n + id % 4) as u64 / 4 == n,
{
}

/// The remainder that the numbers of the peer's streams for one direction leave.
pub open spec fn sparse_class(state: StreamsView) -> u64 {
    stream_id::first_id(StreamType::UniDi, streams::other(state.role))
}

pub proof fn lemma_sparse(state: StreamsView, id: u64, x: u64)
    requires
        state.valid(),
        state.is_sparse(id),
        state.is_remote(id),
        x % 4 == id % 4,
    ensures
        sparse::coalesced(sparse::with_id(state.sparse->Some_0, id), sparse_class(state)),
        sparse::covers(sparse::with_id(state.sparse->Some_0, id), x) <==> sparse::covers(
            state.sparse->Some_0,
            x,
        ) || x == id,
{
    let seen = state.sparse->Some_0;
    let class = sparse_class(state);
    stream_id::law_id_parts(id);
    sparse::law_insert_notes_stream(seen, class, id);
    let next = sparse::with_id(seen, id);
    assert(sparse::seen(next, class).contains(x) == sparse::covers(next, x));
    assert(sparse::seen(seen, class).contains(x) == sparse::covers(seen, x));
}

proof fn lemma_opened_stays(state: StreamsView, id: u64, x: u64)
    requires
        state.valid(),
        state.is_remote(x),
        state.opened(x),
    ensures
        state.after_use(id).opened(x),
{
    if state.to_open(id) is Ok && state.is_remote(id) && state.is_sparse(id) && state.is_sparse(
        x,
    ) {
        assert(x % 4 == id % 4);
        lemma_sparse(state, id, x);
    }
}

/// What is opened was not opened before, and is so after that.
proof fn lemma_newly_opened(state: StreamsView, id: u64, i: int)
    requires
        state.valid(),
        state.to_open(id) is Ok,
        0 <= i < state.to_open(id)->Ok_0.len(),
    ensures
        ({
            let x = state.to_open(id)->Ok_0[i];
            &&& !state.opened(x)
            &&& state.allowed(x)
            &&& state.is_remote(x)
            &&& state.after_use(id).opened(x)
            &&& stream_id::type_of(x) == stream_id::type_of(id)
            &&& state.after_use(id).recv.contains(x)
            &&& state.after_use(id).send.contains(x) <==> state.send.contains(x)
                || stream_id::type_of(x) == StreamType::BiDi
        }),
{
    let ids = state.to_open(id)->Ok_0;
    assert(ids.contains(ids[i]));
    assert(ids.to_set().contains(ids[i]));
    if state.is_sparse(id) {
        lemma_sparse(state, id, id);
    } else {
        let next = state.remote(stream_id::type_of(id)).next;
        lemma_kind_of_step((next + i) as u64, id);
    }
}

/// Each stream that is opened when the peer uses a stream was not opened before, and
/// had no sides. It is allowed, is opened after that, comes up once, and has a
/// receiving side, and a sending side if it is for both directions.
pub proof fn law_remote_streams_opened_once(state: StreamsView, id: u64)
    requires
        state.valid(),
    ensures
        state.to_open(id) matches Ok(ids) ==> {
            &&& forall|i: int|
                0 <= i < ids.len() ==> {
                    &&& !state.opened(#[trigger] ids[i])
                    &&& !state.recv.contains(ids[i])
                    &&& !state.send.contains(ids[i])
                    &&& state.allowed(ids[i])
                    &&& state.is_remote(ids[i])
                    &&& state.after_use(id).opened(ids[i])
                    &&& state.after_use(id).recv.contains(ids[i])
                    &&& state.after_use(id).send.contains(ids[i]) == (stream_id::type_of(ids[i])
                        == StreamType::BiDi)
                }
            &&& forall|i: int, j: int|
                0 <= i < j < ids.len() ==> (#[trigger] ids[i]) < (#[trigger] ids[j])
        },
{
    if let Ok(ids) = state.to_open(id) {
        if ids.len() > 0 {
            let next = state.remote(stream_id::type_of(id)).next;
            let after = state.after_use(id);
            assert forall|i: int| 0 <= i < ids.len() implies {
                &&& !state.opened(#[trigger] ids[i])
                &&& !state.recv.contains(ids[i])
                &&& !state.send.contains(ids[i])
                &&& state.allowed(ids[i])
                &&& state.is_remote(ids[i])
                &&& after.opened(ids[i])
                &&& after.recv.contains(ids[i])
                &&& after.send.contains(ids[i]) == (stream_id::type_of(ids[i])
                    == StreamType::BiDi)
            } by {
                lemma_newly_opened(state, id, i);
            }
            assert forall|i: int, j: int| 0 <= i < j < ids.len() implies (#[trigger] ids[i]) < (
            #[trigger] ids[j]) by {
                lemma_kind_of_step((next + i) as u64, id);
                lemma_kind_of_step((next + j) as u64, id);
            }
        }
    }
}

/// A stream of the peer that was opened stays so when the peer uses streams.
pub proof fn law_opened_stays(state: StreamsView, id: u64, x: u64)
    requires
        state.valid(),
        state.is_remote(x),
        state.opened(x),
    ensures
        state.after_use(id).opened(x),
        state.after_use(id).valid(),
{
    law_use_keeps_valid(state, id);
    lemma_opened_stays(state, id, x);
}

/// The streams of a connection stay valid when the peer uses streams.
pub proof fn law_use_keeps_valid(state: StreamsView, id: u64)
    requires
        state.valid(),
    ensures
        state.after_use(id).valid(),
{
    if state.to_open(id) is Ok && state.is_remote(id) {
        let after = state.after_use(id);
        let ids = state.to_open(id)->Ok_0;
        if state.is_sparse(id) {
            lemma_sparse(state, id, id);
        }
        assert forall|x: u64| #[trigger] after.recv.contains(x) implies after.can_receive(x) by {
            if state.recv.contains(x) {
                if state.is_remote(x) {
                    lemma_opened_stays(state, id, x);
                }
            } else {
                let i = choose|i: int| 0 <= i < ids.len() && ids[i] == x;
                lemma_newly_opened(state, id, i);
            }
        }
        assert forall|x: u64| #[trigger] after.send.contains(x) implies after.can_send(x) by {
            if state.send.contains(x) {
                if state.is_remote(x) {
                    lemma_opened_stays(state, id, x);
                }
            } else {
                assert(ids.to_set().contains(x));
                let i = choose|i: int| 0 <= i < ids.len() && ids[i] == x;
                lemma_newly_opened(state, id, i);
            }
        }
    }
}

/// A stream for one direction has one side only: this end does not receive on those
/// that it opens, and does not send on those that the peer opens.
pub proof fn law_one_direction_one_side(state: StreamsView, id: u64)
    requires
        state.valid(),
        stream_id::type_of(id) == StreamType::UniDi,
    ensures
        state.is_remote(id) ==> !state.send.contains(id),
        !state.is_remote(id) ==> !state.recv.contains(id),
        state.obtained(id) matches Ok((_, send, recv)) ==> if state.is_remote(id) {
            !send
        } else {
            !recv
        },
{
    law_use_keeps_valid(state, id);
}

/// A stream that the peer uses is open after that, and so are the streams of its
/// type before it, unless they are passed over.
pub proof fn law_streams_before_opened(state: StreamsView, id: u64, x: u64)
    requires
        state.valid(),
        state.is_remote(id),
        state.allowed(id),
        x == id || (!state.is_sparse(id) && x <= id && x % 4 == id % 4),
    ensures
        state.after_use(id).opened(x),
{
    if state.is_sparse(id) {
        lemma_sparse(state, id, id);
    }
}

/// A stream that is passed over is not opened and has no sides, and can be opened
/// later.
pub proof fn law_passed_over_not_opened(state: StreamsView, id: u64, x: u64)
    requires
        state.valid(),
        state.is_remote(id),
        state.allowed(id),
        state.is_sparse(id),
        x % 4 == id % 4,
        x != id,
    ensures
        state.after_use(id).opened(x) == state.opened(x),
        !state.opened(x) ==> !state.after_use(id).recv.contains(x) && !state.after_use(
            id,
        ).send.contains(x),
{
    lemma_sparse(state, id, x);
    law_use_keeps_valid(state, id);
}

/// A stream beyond the limit is refused, and nothing is opened.
pub proof fn law_limit_kept(state: StreamsView, id: u64)
    requires
        state.is_remote(id),
        !state.allowed(id),
    ensures
        state.obtained(id) == Err::<(Seq<u64>, bool, bool), Error>(Error::StreamLimit),
        state.after_use(id) == state,
{
}

/// This end opens each of its streams once: the next one is one of this end and of
/// the type that was asked for, has a number that no stream before it has, and had no
/// sides. It has a sending side then, and a receiving side if it is for both
/// directions.
pub proof fn law_local_streams_opened_once(state: StreamsView, stream_type: StreamType)
    requires
        state.valid(),
        state.can_open(stream_type),
    ensures
        ({
            let id = state.next_local(stream_type);
            let after = state.after_create(stream_type);
            &&& stream_id::type_of(id) == stream_type
            &&& !state.is_remote(id)
            &&& id / 4 == state.local(stream_type).used
            &&& !state.send.contains(id)
            &&& !state.recv.contains(id)
            &&& after.valid()
            &&& after.local(stream_type).used == state.local(stream_type).used + 1
            &&& after.local(stream_type).used <= after.local(stream_type).limit
            &&& !after.never_opened(id)
            &&& after.send.contains(id)
            &&& after.recv.contains(id) == (stream_type == StreamType::BiDi)
        }),
{
    let id = state.next_local(stream_type);
    let after = state.after_create(stream_type);
    assert(stream_id::type_of(id) == stream_type && !state.is_remote(id) && id / 4 == state.local(
        stream_type,
    ).used);
    assert forall|x: u64| #[trigger] after.recv.contains(x) implies after.can_receive(x) by {
        if x != id {
            assert(state.can_receive(x));
        }
    }
    assert forall|x: u64| #[trigger] after.send.contains(x) implies after.can_send(x) by {
        if x != id {
            assert(state.can_send(x));
        }
    }
}

/// How many writers of maintenance frames can still come after `writer`.
pub open spec fn writers_left(writer: Option<MaintenanceWriter>) -> nat {
    match writer {
        None => 7,
        Some(MaintenanceWriter::SenderFlowControl) => 6,
        Some(MaintenanceWriter::ReceiverFlowControl) => 5,
        Some(MaintenanceWriter::RecvStreams) => 4,
        Some(MaintenanceWriter::RemoteStreamLimits(StreamType::BiDi)) => 3,
        Some(MaintenanceWriter::RemoteStreamLimits(StreamType::UniDi)) => 2,
        Some(MaintenanceWriter::LocalStreamLimits(StreamType::BiDi)) => 1,
        Some(MaintenanceWriter::LocalStreamLimits(StreamType::UniDi)) => 0,
    }
}

/// Each writer of maintenance frames has one turn: while there is room all of them
/// come, one after the other, and a full packet ends the round, but for the turn
/// after the receiving streams.
pub proof fn law_writers_take_turns(previous: Option<MaintenanceWriter>, full: bool)
    ensures
        streams::writer_after(previous, full) matches Some(next) ==> writers_left(Some(next)) + 1
            == writers_left(previous),
        streams::writer_after(previous, false) is None <==> writers_left(previous) == 0,
        previous is Some && previous != Some(MaintenanceWriter::RecvStreams)
            ==> streams::writer_after(previous, true) is None,
{
}

/// Clearing the streams leaves none, and keeps the limits of the peer.
pub proof fn law_cleared(state: StreamsView, id: u64)
    ensures
        !state.cleared().send.contains(id),
        !state.cleared().recv.contains(id),
        state.cleared().allowed(id) == state.allowed(id),
        state.cleared().is_sparse(id) ==> !state.cleared().opened(id),
        state.cleared().valid(),
{
    if state.cleared().is_sparse(id) {
        let none = Map::<u64, u64>::empty();
        if sparse::covers(none, id) {
            let start = sparse::floor(none, id)->Some_0;
            assert(sparse::floor_at(none, id, start));
        }
    }
}

} // verus!
