//! Which streams of a connection exist, and what is done with the frames that are
//! about them.
//!
//! The buffers and the flow control of the streams are kept elsewhere. What has to
//! be done to them comes back as values.

use std::collections::BTreeSet;
use vstd::prelude::*;
use crate::error::{Error, Res};
use crate::sparse;
use crate::sparse::SparseStreamIdRanges;
use crate::stream_id;
use crate::stream_id::{Role, StreamId, StreamType};
use crate::stream_laws;

verus! {

/// A transport parameter that streams depend on.
#[derive(Clone, Copy, Debug, PartialEq, Eq, Structural)]
pub enum TransportParameterId {
    /// How much the peer may send on a stream that the sender of the parameter opens
    /// for both directions.
    InitialMaxStreamDataBidiLocal,
    /// How much the peer may send on a stream that the peer opens for both
    /// directions.
    InitialMaxStreamDataBidiRemote,
    /// How much the peer may send on a stream that only it sends on.
    InitialMaxStreamDataUni,
}

/// Whose transport parameters are meant.
#[derive(Clone, Copy, Debug, PartialEq, Eq, Structural)]
pub enum Endpoint {
    /// Those that this end sent.
    Local,
    /// Those that the peer sent.
    Remote,
}

/// The first limit on the data of a stream.
#[derive(Clone, Copy, Debug, PartialEq, Eq, Structural)]
pub struct StreamLimit {
    /// Whose transport parameter it is.
    pub endpoint: Endpoint,
    /// The transport parameter.
    pub parameter: TransportParameterId,
}

/// A stream that has to be made.
#[derive(Clone, Copy, Debug, PartialEq, Eq, Structural)]
pub struct NewStream {
    /// The stream.
    pub stream_id: StreamId,
    /// The limit on what is received, if anything is.
    pub recv_limit: Option<StreamLimit>,
    /// The limit on what is sent, if anything is.
    pub send_limit: Option<StreamLimit>,
}

/// The streams that the peer may open, of one type.
#[derive(Clone, Copy, Debug, PartialEq, Eq, Structural)]
pub struct RemoteStreamLimit {
    /// How many streams it may open.
    pub max: u64,
    /// How many of them were opened, or passed over.
    pub next: u64,
}

/// The streams that this end may open, of one type.
#[derive(Clone, Copy, Debug, PartialEq, Eq, Structural)]
pub struct LocalStreamLimit {
    /// How many streams it may open.
    pub limit: u64,
    /// How many it has opened.
    pub used: u64,
}

/// A frame that is about streams.
#[derive(Clone, Copy, Debug, PartialEq, Eq, Structural)]
pub enum StreamFrame {
    /// `RESET_STREAM`
    ResetStream {
        /// The stream.
        stream_id: StreamId,
        /// The reason.
        application_error_code: u64,
        /// The length of the stream.
        final_size: u64,
    },
    /// `STOP_SENDING`
    StopSending {
        /// The stream.
        stream_id: StreamId,
        /// The reason.
        application_error_code: u64,
    },
    /// `STREAM`, without its data.
    Stream {
        /// The stream.
        stream_id: StreamId,
        /// Where the data starts.
        offset: u64,
        /// Whether the stream ends with the data.
        fin: bool,
    },
    /// `MAX_DATA`
    MaxData {
        /// The new limit.
        maximum_data: u64,
    },
    /// `MAX_STREAM_DATA`
    MaxStreamData {
        /// The stream.
        stream_id: StreamId,
        /// The new limit.
        maximum_stream_data: u64,
    },
    /// `MAX_STREAMS`
    MaxStreams {
        /// The type of the streams.
        stream_type: StreamType,
        /// The new limit.
        maximum_streams: u64,
    },
    /// `DATA_BLOCKED`
    DataBlocked,
    /// `STREAM_DATA_BLOCKED`
    StreamDataBlocked {
        /// The stream.
        stream_id: StreamId,
    },
    /// `STREAMS_BLOCKED`
    StreamsBlocked,
    /// A frame that is not about streams.
    Other,
}

/// What has to be done for a frame.
#[derive(Clone, Copy, Debug, PartialEq, Eq, Structural)]
pub enum StreamAction {
    /// Nothing.
    Nothing,
    /// The receiving side of a stream is reset.
    ResetReceive {
        /// The stream.
        stream_id: StreamId,
        /// The reason.
        application_error_code: u64,
        /// The length of the stream.
        final_size: u64,
    },
    /// The sending side of a stream is reset.
    ResetSend {
        /// The stream.
        stream_id: StreamId,
        /// The reason.
        application_error_code: u64,
    },
    /// The data of the frame goes to a stream.
    Deliver {
        /// The stream.
        stream_id: StreamId,
        /// Where the data starts.
        offset: u64,
        /// Whether the stream ends with the data.
        fin: bool,
    },
    /// The connection may send more.
    MaxData {
        /// The new limit.
        maximum_data: u64,
    },
    /// A stream may send more.
    MaxStreamData {
        /// The stream.
        stream_id: StreamId,
        /// The new limit.
        maximum_stream_data: u64,
    },
    /// More streams can be opened: the application is told.
    StreamCreatable {
        /// The type of the streams.
        stream_type: StreamType,
    },
    /// The peer is told how much it may send on the connection.
    SendFlowControlUpdate,
    /// The peer is told how much it may send on a stream.
    SendStreamFlowControlUpdate {
        /// The stream.
        stream_id: StreamId,
    },
}

/// Counts of the frames that came.
#[derive(Clone, Copy, Debug, PartialEq, Eq, Structural)]
pub struct FrameStats {
    /// `RESET_STREAM`
    pub reset_stream: usize,
    /// `STOP_SENDING`
    pub stop_sending: usize,
    /// `STREAM`
    pub stream: usize,
    /// `MAX_DATA`
    pub max_data: usize,
    /// `MAX_STREAM_DATA`
    pub max_stream_data: usize,
    /// `MAX_STREAMS`
    pub max_streams: usize,
    /// `DATA_BLOCKED`
    pub data_blocked: usize,
    /// `STREAM_DATA_BLOCKED`
    pub stream_data_blocked: usize,
    /// `STREAMS_BLOCKED`
    pub streams_blocked: usize,
}

/// A part of the data of a stream that was sent.
#[derive(Clone, Copy, Debug, PartialEq, Eq, Structural)]
pub struct SendStreamRecoveryToken {
    /// The stream.
    pub stream_id: StreamId,
    /// Where the data starts.
    pub offset: u64,
    /// How long the data is.
    pub length: usize,
    /// Whether the stream ends with the data.
    pub fin: bool,
}

/// What was in a packet that was lost or acknowledged.
#[derive(Clone, Copy, Debug, PartialEq, Eq, Structural)]
pub enum StreamRecoveryToken {
    /// Data of a stream.
    Stream(SendStreamRecoveryToken),
    /// `RESET_STREAM`
    ResetStream {
        /// The stream.
        stream_id: StreamId,
    },
    /// `STREAM_DATA_BLOCKED`
    StreamDataBlocked {
        /// The stream.
        stream_id: StreamId,
        /// The limit that was reached.
        limit: u64,
    },
    /// `MAX_STREAM_DATA`
    MaxStreamData {
        /// The stream.
        stream_id: StreamId,
        /// The limit that was told.
        max_data: u64,
    },
    /// `STOP_SENDING`
    StopSending {
        /// The stream.
        stream_id: StreamId,
    },
    /// `STREAMS_BLOCKED`
    StreamsBlocked {
        /// The type of the streams.
        stream_type: StreamType,
        /// The limit that was reached.
        limit: u64,
    },
    /// `MAX_STREAMS`
    MaxStreams {
        /// The type of the streams.
        stream_type: StreamType,
        /// The limit that was told.
        max_streams: u64,
    },
    /// `DATA_BLOCKED`, with the limit that was reached.
    DataBlocked(u64),
    /// `MAX_DATA`, with the limit that was told.
    MaxData(u64),
}

/// What has to be told that a part of a packet was lost.
#[derive(Clone, Copy, Debug, PartialEq, Eq, Structural)]
pub enum LossAction {
    /// Nothing.
    Nothing,
    /// The sending streams, of lost data.
    StreamLost(SendStreamRecoveryToken),
    /// A sending stream, of `RESET_STREAM`.
    ResetLost {
        /// The stream.
        stream_id: StreamId,
    },
    /// A sending stream, of `STREAM_DATA_BLOCKED`.
    BlockedLost {
        /// The stream.
        stream_id: StreamId,
        /// The limit that was reached.
        limit: u64,
    },
    /// A receiving stream, of `MAX_STREAM_DATA`.
    MaxStreamDataLost {
        /// The stream.
        stream_id: StreamId,
        /// The limit that was told.
        max_data: u64,
    },
    /// A receiving stream, of `STOP_SENDING`.
    StopSendingLost {
        /// The stream.
        stream_id: StreamId,
    },
    /// The limit on the streams of this end, of `STREAMS_BLOCKED`.
    StreamsBlockedLost {
        /// The type of the streams.
        stream_type: StreamType,
        /// The limit that was reached.
        limit: u64,
    },
    /// The limit on the streams of the peer, of `MAX_STREAMS`.
    MaxStreamsLost {
        /// The type of the streams.
        stream_type: StreamType,
        /// The limit that was told.
        max_streams: u64,
    },
    /// The limit on what this end sends, of `DATA_BLOCKED`.
    DataBlockedLost {
        /// The limit that was reached.
        limit: u64,
    },
    /// The limit on what the peer sends, of `MAX_DATA`.
    MaxDataLost {
        /// The limit that was told.
        maximum_data: u64,
    },
}

/// What has to be told that a part of a packet was acknowledged.
#[derive(Clone, Copy, Debug, PartialEq, Eq, Structural)]
pub enum AckAction {
    /// Nothing: only the loss of it would matter.
    Nothing,
    /// The sending streams, of data.
    StreamAcked(SendStreamRecoveryToken),
    /// A sending stream, of `RESET_STREAM`.
    ResetAcked {
        /// The stream.
        stream_id: StreamId,
    },
    /// A receiving stream, of `STOP_SENDING`.
    StopSendingAcked {
        /// The stream.
        stream_id: StreamId,
    },
}

/// A writer of frames that keep a connection going.
#[derive(Clone, Copy, Debug, PartialEq, Eq, Structural)]
pub enum MaintenanceWriter {
    /// `DATA_BLOCKED`
    SenderFlowControl,
    /// `MAX_DATA`
    ReceiverFlowControl,
    /// The frames of receiving streams.
    RecvStreams,
    /// `MAX_STREAMS`
    RemoteStreamLimits(StreamType),
    /// `STREAMS_BLOCKED`
    LocalStreamLimits(StreamType),
}

/// What a sending stream is told of the limit on the connection.
#[derive(Clone, Copy, Debug, PartialEq, Eq, Structural)]
pub struct WritableStream {
    /// The stream.
    pub stream_id: StreamId,
    /// How much could be sent before.
    pub previous_limit: usize,
    /// How much can be sent now.
    pub current_limit: usize,
}

/// What has to be done once the peer's first limits are known.
#[derive(Clone, Copy, Debug, PartialEq, Eq, Structural)]
pub struct InitialLimits {
    /// Whether the limits of the sending streams are raised.
    pub update_send_streams: bool,
    /// Whether the application is told that it can open streams for both directions.
    pub bidi_creatable: bool,
    /// Whether the application is told that it can open streams for one direction.
    pub uni_creatable: bool,
}

/// What a stream ID stands for that a frame names.
#[derive(Debug)]
pub struct ObtainedStream {
    /// The streams that have to be made first.
    pub created: Vec<NewStream>,
    /// Whether there is a sending side then.
    pub send: bool,
    /// Whether there is a receiving side then.
    pub recv: bool,
}

/// What has to be done for a frame, in this order: the application is told that the
/// peer does not want more of a stream, the streams in `created` are made, and the
/// action in `result` is taken.
#[derive(Debug)]
pub struct FrameOutcome {
    /// The stream that the peer does not want more of, and its reason.
    pub stop_sending: Option<(StreamId, u64)>,
    /// The streams that have to be made.
    pub created: Vec<NewStream>,
    /// The action, unless the frame is refused.
    pub result: Res<StreamAction>,
}

/// The streams of a connection.
#[derive(Debug)]
pub struct Streams {
    role: Role,
    remote_bidi: RemoteStreamLimit,
    remote_uni: RemoteStreamLimit,
    local_bidi: LocalStreamLimit,
    local_uni: LocalStreamLimit,
    send: BTreeSet<u64>,
    recv: BTreeSet<u64>,
    sparse_remote_uni_seen: Option<SparseStreamIdRanges>,
}

/// What [`Streams`] hold.
pub struct StreamsView {
    /// This end.
    pub role: Role,
    /// The streams that the peer may open for both directions.
    pub remote_bidi: RemoteStreamLimit,
    /// The streams that the peer may open for one direction.
    pub remote_uni: RemoteStreamLimit,
    /// The streams that this end may open for both directions.
    pub local_bidi: LocalStreamLimit,
    /// The streams that this end may open for one direction.
    pub local_uni: LocalStreamLimit,
    /// The streams with a sending side.
    pub send: Set<u64>,
    /// The streams with a receiving side.
    pub recv: Set<u64>,
    /// The streams of the peer for one direction that were seen, if streams that
    /// are passed over are not opened.
    pub sparse: Option<Map<u64, u64>>,
}

impl View for Streams {
    type V = StreamsView;

    closed spec fn view(&self) -> StreamsView {
        StreamsView {
            role: self.role,
            remote_bidi: self.remote_bidi,
            remote_uni: self.remote_uni,
            local_bidi: self.local_bidi,
            local_uni: self.local_uni,
            send: self.send@,
            recv: self.recv@,
            sparse: match self.sparse_remote_uni_seen {
                Some(seen) => Some(seen@),
                None => None,
            },
        }
    }
}

// ---------------------------------------------------------------------------
// Model
// ---------------------------------------------------------------------------

/// The other end.
pub open spec fn other(role: Role) -> Role {
    match role {
        Role::Client => Role::Server,
        Role::Server => Role::Client,
    }
}

/// The first limits of a stream that the peer opened. What it may send is up to
/// this end, and what this end may send is up to the peer.
pub open spec fn recv_limit_of_remote(id: u64) -> Option<StreamLimit> {
    Some(
        StreamLimit {
            endpoint: Endpoint::Local,
            parameter: match stream_id::type_of(id) {
                StreamType::BiDi => TransportParameterId::InitialMaxStreamDataBidiRemote,
                StreamType::UniDi => TransportParameterId::InitialMaxStreamDataUni,
            },
        },
    )
}

/// The first limit on what this end may send on a stream that the peer opened.
pub open spec fn send_limit_of_remote(id: u64) -> Option<StreamLimit> {
    match stream_id::type_of(id) {
        StreamType::BiDi => Some(
            StreamLimit {
                endpoint: Endpoint::Remote,
                parameter: TransportParameterId::InitialMaxStreamDataBidiLocal,
            },
        ),
        StreamType::UniDi => None,
    }
}

/// Whether `stream` is the stream `id`, as it is made when the peer opens it.
pub open spec fn is_new_remote(stream: NewStream, id: u64) -> bool {
    &&& stream.stream_id@ == id
    &&& stream.recv_limit == recv_limit_of_remote(id)
    &&& stream.send_limit == send_limit_of_remote(id)
}

/// Whether `streams` are the streams `ids`, as they are made when the peer opens
/// them.
pub open spec fn are_new_remote(streams: Seq<NewStream>, ids: Seq<u64>) -> bool {
    &&& streams.len() == ids.len()
    &&& forall|i: int| 0 <= i < ids.len() ==> is_new_remote(#[trigger] streams[i], ids[i])
}

/// Whether `stream` is the stream `id`, as it is made when this end opens it.
pub open spec fn is_new_local(stream: NewStream, id: u64) -> bool {
    &&& stream.stream_id@ == id
    &&& stream.send_limit == Some(
        StreamLimit {
            endpoint: Endpoint::Remote,
            parameter: match stream_id::type_of(id) {
                StreamType::BiDi => TransportParameterId::InitialMaxStreamDataBidiRemote,
                StreamType::UniDi => TransportParameterId::InitialMaxStreamDataUni,
            },
        },
    )
    &&& stream.recv_limit == match stream_id::type_of(id) {
        StreamType::BiDi => Some(
            StreamLimit {
                endpoint: Endpoint::Local,
                parameter: TransportParameterId::InitialMaxStreamDataBidiLocal,
            },
        ),
        StreamType::UniDi => None,
    }
}

impl LocalStreamLimit {
    /// How many streams can still be opened.
    pub open spec fn available(self) -> int {
        if self.used < self.limit {
            self.limit - self.used
        } else {
            0
        }
    }

    /// The limit after the peer told `maximum`.
    pub open spec fn raised(self, maximum: u64) -> LocalStreamLimit {
        LocalStreamLimit {
            limit: if maximum > self.limit {
                maximum
            } else {
                self.limit
            },
            ..self
        }
    }
}

impl StreamsView {
    /// What holds of the streams of every connection.
    pub open spec fn valid(self) -> bool {
        &&& self.sparse matches Some(seen) ==> sparse::ranges_valid(seen) && sparse::coalesced(
            seen,
            stream_id::first_id(StreamType::UniDi, other(self.role)),
        )
        &&& forall|id: u64| #[trigger] self.recv.contains(id) ==> self.can_receive(id)
        &&& forall|id: u64| #[trigger] self.send.contains(id) ==> self.can_send(id)
    }

    /// Whether the stream `id` was opened, and can have a receiving side: it is not
    /// one that only this end sends on.
    pub open spec fn can_receive(self, id: u64) -> bool {
        if self.is_remote(id) {
            self.opened(id)
        } else {
            stream_id::type_of(id) == StreamType::BiDi && self.created(id)
        }
    }

    /// Whether the stream `id` was opened, and can have a sending side: it is not one
    /// that only the peer sends on.
    pub open spec fn can_send(self, id: u64) -> bool {
        if self.is_remote(id) {
            stream_id::type_of(id) == StreamType::BiDi && self.opened(id)
        } else {
            self.created(id)
        }
    }

    /// Whether this end has opened its stream `id`.
    pub open spec fn created(self, id: u64) -> bool {
        id / 4 < self.local(stream_id::type_of(id)).used
    }

    /// The streams that the peer may open, of one type.
    pub open spec fn remote(self, stream_type: StreamType) -> RemoteStreamLimit {
        match stream_type {
            StreamType::BiDi => self.remote_bidi,
            StreamType::UniDi => self.remote_uni,
        }
    }

    /// The streams that this end may open, of one type.
    pub open spec fn local(self, stream_type: StreamType) -> LocalStreamLimit {
        match stream_type {
            StreamType::BiDi => self.local_bidi,
            StreamType::UniDi => self.local_uni,
        }
    }

    /// With another limit on the streams that the peer may open.
    pub open spec fn with_remote(self, stream_type: StreamType, limit: RemoteStreamLimit) -> StreamsView {
        match stream_type {
            StreamType::BiDi => StreamsView { remote_bidi: limit, ..self },
            StreamType::UniDi => StreamsView { remote_uni: limit, ..self },
        }
    }

    /// With another limit on the streams that this end may open.
    pub open spec fn with_local(self, stream_type: StreamType, limit: LocalStreamLimit) -> StreamsView {
        match stream_type {
            StreamType::BiDi => StreamsView { local_bidi: limit, ..self },
            StreamType::UniDi => StreamsView { local_uni: limit, ..self },
        }
    }

    /// Whether the peer opens the stream `id`.
    pub open spec fn is_remote(self, id: u64) -> bool {
        stream_id::initiator(id) != self.role
    }

    /// Whether streams before `id` that are passed over are not opened.
    pub open spec fn is_sparse(self, id: u64) -> bool {
        stream_id::type_of(id) == StreamType::UniDi && self.sparse is Some
    }

    /// Whether the limit allows the stream `id`.
    pub open spec fn allowed(self, id: u64) -> bool {
        id / 4 < self.remote(stream_id::type_of(id)).max
    }

    /// Whether the stream `id` of the peer was opened before.
    pub open spec fn opened(self, id: u64) -> bool {
        if self.is_sparse(id) {
            sparse::covers(self.sparse->Some_0, id)
        } else {
            id / 4 < self.remote(stream_id::type_of(id)).next
        }
    }

    /// The streams that are opened when the peer uses the stream `id`: the stream
    /// itself, and those before it, unless they are passed over.
    pub open spec fn to_open(self, id: u64) -> Result<Seq<u64>, Error> {
        let next = self.remote(stream_id::type_of(id)).next;
        if !self.is_remote(id) {
            Ok(Seq::empty())
        } else if !self.allowed(id) {
            Err(Error::StreamLimit)
        } else if self.opened(id) {
            Ok(Seq::empty())
        } else if self.is_sparse(id) {
            Ok(seq![id])
        } else {
            Ok(Seq::new((id / 4 + 1 - next) as nat, |i: int| (4 * (next + i) + id % 4) as u64))
        }
    }

    /// The streams with `ids` among them.
    pub open spec fn with_streams(self, ids: Seq<u64>) -> StreamsView {
        StreamsView {
            recv: self.recv.union(ids.to_set()),
            send: self.send.union(
                ids.to_set().filter(|id: u64| stream_id::type_of(id) == StreamType::BiDi),
            ),
            ..self
        }
    }

    /// The streams after the peer used the stream `id`.
    pub open spec fn after_use(self, id: u64) -> StreamsView {
        let t = stream_id::type_of(id);
        let limit = self.remote(t);
        match self.to_open(id) {
            Err(_) => self,
            Ok(ids) => if !self.is_remote(id) {
                self
            } else {
                StreamsView {
                    sparse: if self.is_sparse(id) {
                        Some(sparse::with_id(self.sparse->Some_0, id))
                    } else {
                        self.sparse
                    },
                    ..self.with_streams(ids).with_remote(
                        t,
                        RemoteStreamLimit {
                            next: if limit.next <= id / 4 {
                                (id / 4 + 1) as u64
                            } else {
                                limit.next
                            },
                            ..limit
                        },
                    )
                }
            },
        }
    }

    /// Whether the stream `id` of this end cannot have been opened.
    pub open spec fn never_opened(self, id: u64) -> bool {
        &&& !self.is_remote(id)
        &&& !self.send.contains(id)
        &&& !self.recv.contains(id)
        &&& self.local(stream_id::type_of(id)).used <= id / 4
    }

    /// What the stream `id` stands for in a frame: the streams that are opened
    /// first, and whether there is a sending and a receiving side then.
    pub open spec fn obtained(self, id: u64) -> Result<(Seq<u64>, bool, bool), Error> {
        match self.to_open(id) {
            Err(e) => Err(e),
            Ok(ids) => if self.never_opened(id) {
                Err(Error::StreamState)
            } else {
                Ok(
                    (
                        ids,
                        self.after_use(id).send.contains(id),
                        self.after_use(id).recv.contains(id),
                    ),
                )
            },
        }
    }

    /// The number of the next stream that this end opens.
    pub open spec fn next_local(self, stream_type: StreamType) -> u64 {
        (4 * self.local(stream_type).used + stream_id::first_id(stream_type, self.role)) as u64
    }

    /// Whether this end can open a stream.
    pub open spec fn can_open(self, stream_type: StreamType) -> bool {
        self.local(stream_type).available() > 0 && self.local(stream_type).used
            < 0x4000_0000_0000_0000
    }

    /// The streams after this end opened one.
    pub open spec fn after_create(self, stream_type: StreamType) -> StreamsView {
        let id = self.next_local(stream_type);
        let limit = self.local(stream_type);
        let state = self.with_local(
            stream_type,
            LocalStreamLimit { used: (limit.used + 1) as u64, ..limit },
        );
        StreamsView {
            send: state.send.insert(id),
            recv: match stream_type {
                StreamType::BiDi => state.recv.insert(id),
                StreamType::UniDi => state.recv,
            },
            ..state
        }
    }

    /// The streams without any.
    pub open spec fn cleared(self) -> StreamsView {
        StreamsView {
            send: Set::empty(),
            recv: Set::empty(),
            sparse: match self.sparse {
                Some(_) => Some(Map::empty()),
                None => None,
            },
            ..self
        }
    }
}

impl FrameStats {
    /// Whether one more frame of the kind of `frame` can be counted.
    pub open spec fn has_room(self, frame: StreamFrame) -> bool {
        match frame {
            StreamFrame::ResetStream { stream_id: _, application_error_code: _, final_size: _ } => {
                self.reset_stream < usize::MAX
            },
            StreamFrame::StopSending { stream_id: _, application_error_code: _ } => {
                self.stop_sending < usize::MAX
            },
            StreamFrame::Stream { stream_id: _, offset: _, fin: _ } => self.stream < usize::MAX,
            StreamFrame::MaxData { maximum_data: _ } => self.max_data < usize::MAX,
            StreamFrame::MaxStreamData { stream_id: _, maximum_stream_data: _ } => {
                self.max_stream_data < usize::MAX
            },
            StreamFrame::MaxStreams { stream_type: _, maximum_streams: _ } => {
                self.max_streams < usize::MAX
            },
            StreamFrame::DataBlocked => self.data_blocked < usize::MAX,
            StreamFrame::StreamDataBlocked { stream_id: _ } => self.stream_data_blocked < usize::MAX,
            StreamFrame::StreamsBlocked => self.streams_blocked < usize::MAX,
            StreamFrame::Other => true,
        }
    }

    /// The counts after `frame` came.
    pub open spec fn counted(self, frame: StreamFrame) -> FrameStats {
        match frame {
            StreamFrame::ResetStream { stream_id: _, application_error_code: _, final_size: _ } => {
                FrameStats { reset_stream: (self.reset_stream + 1) as usize, ..self }
            },
            StreamFrame::StopSending { stream_id: _, application_error_code: _ } => FrameStats {
                stop_sending: (self.stop_sending + 1) as usize,
                ..self
            },
            StreamFrame::Stream { stream_id: _, offset: _, fin: _ } => FrameStats {
                stream: (self.stream + 1) as usize,
                ..self
            },
            StreamFrame::MaxData { maximum_data: _ } => FrameStats {
                max_data: (self.max_data + 1) as usize,
                ..self
            },
            StreamFrame::MaxStreamData { stream_id: _, maximum_stream_data: _ } => FrameStats {
                max_stream_data: (self.max_stream_data + 1) as usize,
                ..self
            },
            StreamFrame::MaxStreams { stream_type: _, maximum_streams: _ } => FrameStats {
                max_streams: (self.max_streams + 1) as usize,
                ..self
            },
            StreamFrame::DataBlocked => FrameStats {
                data_blocked: (self.data_blocked + 1) as usize,
                ..self
            },
            StreamFrame::StreamDataBlocked { stream_id: _ } => FrameStats {
                stream_data_blocked: (self.stream_data_blocked + 1) as usize,
                ..self
            },
            StreamFrame::StreamsBlocked => FrameStats {
                streams_blocked: (self.streams_blocked + 1) as usize,
                ..self
            },
            StreamFrame::Other => self,
        }
    }

    /// Tells whether one more frame of the kind of `frame` can be counted.
    pub fn can_count(&self, frame: &StreamFrame) -> (can: bool)
        ensures
            can == self.has_room(*frame),
    {
        match *frame {
            StreamFrame::ResetStream { stream_id: _, application_error_code: _, final_size: _ } => {
                self.reset_stream < usize::MAX
            },
            StreamFrame::StopSending { stream_id: _, application_error_code: _ } => {
                self.stop_sending < usize::MAX
            },
            StreamFrame::Stream { stream_id: _, offset: _, fin: _ } => self.stream < usize::MAX,
            StreamFrame::MaxData { maximum_data: _ } => self.max_data < usize::MAX,
            StreamFrame::MaxStreamData { stream_id: _, maximum_stream_data: _ } => {
                self.max_stream_data < usize::MAX
            },
            StreamFrame::MaxStreams { stream_type: _, maximum_streams: _ } => {
                self.max_streams < usize::MAX
            },
            StreamFrame::DataBlocked => self.data_blocked < usize::MAX,
            StreamFrame::StreamDataBlocked { stream_id: _ } => self.stream_data_blocked < usize::MAX,
            StreamFrame::StreamsBlocked => self.streams_blocked < usize::MAX,
            StreamFrame::Other => true,
        }
    }
}

/// The side of a stream.
#[derive(Clone, Copy, Debug, PartialEq, Eq, Structural)]
pub enum Side {
    /// The sending side.
    Send,
    /// The receiving side.
    Recv,
}

impl StreamsView {
    /// The streams, those that are opened, and the action for a frame that is about
    /// one side of the stream `id`. Where there is no such side, nothing is done.
    pub open spec fn acted_on(self, id: u64, side: Side, action: StreamAction) -> (
        StreamsView,
        Seq<u64>,
        Result<StreamAction, Error>,
    ) {
        match self.obtained(id) {
            Err(e) => (self, Seq::empty(), Err(e)),
            Ok((ids, send, recv)) => (
                self.after_use(id),
                ids,
                Ok(
                    if (side == Side::Send && send) || (side == Side::Recv && recv) {
                        action
                    } else {
                        StreamAction::Nothing
                    },
                ),
            ),
        }
    }

    /// The streams, those that are opened, and the action for a frame.
    pub open spec fn input(self, frame: StreamFrame) -> (
        StreamsView,
        Seq<u64>,
        Result<StreamAction, Error>,
    ) {
        match frame {
            StreamFrame::ResetStream { stream_id, application_error_code, final_size } => {
                self.acted_on(
                    stream_id@,
                    Side::Recv,
                    StreamAction::ResetReceive { stream_id, application_error_code, final_size },
                )
            },
            StreamFrame::StopSending { stream_id, application_error_code } => self.acted_on(
                stream_id@,
                Side::Send,
                StreamAction::ResetSend { stream_id, application_error_code },
            ),
            StreamFrame::Stream { stream_id, offset, fin } => self.acted_on(
                stream_id@,
                Side::Recv,
                StreamAction::Deliver { stream_id, offset, fin },
            ),
            StreamFrame::MaxData { maximum_data } => (
                self,
                Seq::empty(),
                Ok(StreamAction::MaxData { maximum_data }),
            ),
            StreamFrame::MaxStreamData { stream_id, maximum_stream_data } => self.acted_on(
                stream_id@,
                Side::Send,
                StreamAction::MaxStreamData { stream_id, maximum_stream_data },
            ),
            StreamFrame::MaxStreams { stream_type, maximum_streams } => (
                self.with_local(stream_type, self.local(stream_type).raised(maximum_streams)),
                Seq::empty(),
                Ok(
                    if maximum_streams > self.local(stream_type).limit {
                        StreamAction::StreamCreatable { stream_type }
                    } else {
                        StreamAction::Nothing
                    },
                ),
            ),
            StreamFrame::DataBlocked => (
                self,
                Seq::empty(),
                Ok(StreamAction::SendFlowControlUpdate),
            ),
            StreamFrame::StreamDataBlocked { stream_id } => if stream_id::type_of(stream_id@)
                == StreamType::UniDi && !self.is_remote(stream_id@) {
                (self, Seq::empty(), Err(Error::StreamState))
            } else {
                self.acted_on(
                    stream_id@,
                    Side::Recv,
                    StreamAction::SendStreamFlowControlUpdate { stream_id },
                )
            },
            StreamFrame::StreamsBlocked => (self, Seq::empty(), Ok(StreamAction::Nothing)),
            StreamFrame::Other => (self, Seq::empty(), Err(Error::Internal)),
        }
    }

    /// The streams, those that are opened, and what is told that `token` was lost.
    pub open spec fn lost(self, token: StreamRecoveryToken) -> (StreamsView, Seq<u64>, LossAction) {
        match token {
            StreamRecoveryToken::Stream(data) => (
                self,
                Seq::empty(),
                LossAction::StreamLost(data),
            ),
            StreamRecoveryToken::ResetStream { stream_id } => (
                self,
                Seq::empty(),
                LossAction::ResetLost { stream_id },
            ),
            StreamRecoveryToken::StreamDataBlocked { stream_id, limit } => (
                self,
                Seq::empty(),
                LossAction::BlockedLost { stream_id, limit },
            ),
            StreamRecoveryToken::MaxStreamData { stream_id, max_data } => self.lost_of(
                stream_id@,
                LossAction::MaxStreamDataLost { stream_id, max_data },
            ),
            StreamRecoveryToken::StopSending { stream_id } => self.lost_of(
                stream_id@,
                LossAction::StopSendingLost { stream_id },
            ),
            StreamRecoveryToken::StreamsBlocked { stream_type, limit } => (
                self,
                Seq::empty(),
                LossAction::StreamsBlockedLost { stream_type, limit },
            ),
            StreamRecoveryToken::MaxStreams { stream_type, max_streams } => (
                self,
                Seq::empty(),
                LossAction::MaxStreamsLost { stream_type, max_streams },
            ),
            StreamRecoveryToken::DataBlocked(limit) => (
                self,
                Seq::empty(),
                LossAction::DataBlockedLost { limit },
            ),
            StreamRecoveryToken::MaxData(maximum_data) => (
                self,
                Seq::empty(),
                LossAction::MaxDataLost { maximum_data },
            ),
        }
    }

    /// What is told a receiving stream of a loss, if there is such a stream.
    pub open spec fn lost_of(self, id: u64, action: LossAction) -> (
        StreamsView,
        Seq<u64>,
        LossAction,
    ) {
        match self.obtained(id) {
            Err(_) => (self, Seq::empty(), LossAction::Nothing),
            Ok((ids, _, recv)) => (
                self.after_use(id),
                ids,
                if recv {
                    action
                } else {
                    LossAction::Nothing
                },
            ),
        }
    }
}

/// What is told that `token` was acknowledged.
pub open spec fn acked_action(token: StreamRecoveryToken) -> AckAction {
    match token {
        StreamRecoveryToken::Stream(data) => AckAction::StreamAcked(data),
        StreamRecoveryToken::ResetStream { stream_id } => AckAction::ResetAcked { stream_id },
        StreamRecoveryToken::StopSending { stream_id } => AckAction::StopSendingAcked { stream_id },
        _ => AckAction::Nothing,
    }
}

/// The writer after `previous`. Once the packet is full no more is written, but
/// that the receiving streams do not end the turn of those after them.
pub open spec fn writer_after(previous: Option<MaintenanceWriter>, full: bool) -> Option<
    MaintenanceWriter,
> {
    match previous {
        None => Some(MaintenanceWriter::SenderFlowControl),
        Some(MaintenanceWriter::SenderFlowControl) if !full => Some(
            MaintenanceWriter::ReceiverFlowControl,
        ),
        Some(MaintenanceWriter::ReceiverFlowControl) if !full => Some(
            MaintenanceWriter::RecvStreams,
        ),
        Some(MaintenanceWriter::RecvStreams) => Some(
            MaintenanceWriter::RemoteStreamLimits(StreamType::BiDi),
        ),
        Some(MaintenanceWriter::RemoteStreamLimits(StreamType::BiDi)) if !full => Some(
            MaintenanceWriter::RemoteStreamLimits(StreamType::UniDi),
        ),
        Some(MaintenanceWriter::RemoteStreamLimits(StreamType::UniDi)) if !full => Some(
            MaintenanceWriter::LocalStreamLimits(StreamType::BiDi),
        ),
        Some(MaintenanceWriter::LocalStreamLimits(StreamType::BiDi)) if !full => Some(
            MaintenanceWriter::LocalStreamLimits(StreamType::UniDi),
        ),
        _ => None,
    }
}

/// How many of the receiving streams `ids` of one type the peer had opened.
pub open spec fn retired(
    recv: Set<u64>,
    ids: Seq<StreamId>,
    role: Role,
    stream_type: StreamType,
) -> nat
    decreases ids.len(),
{
    if ids.len() == 0 {
        0
    } else {
        let id = ids.last()@;
        let before = retired(recv, ids.drop_last(), role, stream_type);
        if recv.contains(id) && !id_set(ids.drop_last()).contains(id) && stream_id::initiator(id)
            != role && stream_id::type_of(id) == stream_type {
            before + 1
        } else {
            before
        }
    }
}

/// The streams that are told of the limit on the connection.
pub open spec fn told_streams(told: Seq<WritableStream>) -> Seq<StreamId> {
    told.map_values(|stream: WritableStream| stream.stream_id)
}

/// The numbers of streams.
pub open spec fn id_set(ids: Seq<StreamId>) -> Set<u64> {
    ids.map_values(|id: StreamId| id@).to_set()
}

// ---------------------------------------------------------------------------
// Streams
// ---------------------------------------------------------------------------

impl Streams {
    /// What holds of the streams of every connection.
    pub open spec fn wf(&self) -> bool {
        self@.valid()
    }

    /// The streams of a new connection. The peer may open `limit_bidi` streams for
    /// both directions and `limit_uni` streams for one direction. Where this end
    /// told the peer that it supports multicast, as a client by `client_params` or
    /// as a server by `server_support`, streams for one direction that the peer
    /// passes over are not opened.
    pub fn new(
        role: Role,
        limit_bidi: u64,
        limit_uni: u64,
        client_params: bool,
        server_support: bool,
    ) -> (streams: Self)
        ensures
            streams.wf(),
            streams@ == (StreamsView {
                role,
                remote_bidi: RemoteStreamLimit { max: limit_bidi, next: 0 },
                remote_uni: RemoteStreamLimit { max: limit_uni, next: 0 },
                local_bidi: LocalStreamLimit { limit: 0, used: 0 },
                local_uni: LocalStreamLimit { limit: 0, used: 0 },
                send: Set::empty(),
                recv: Set::empty(),
                sparse: if client_params || server_support {
                    Some(Map::empty())
                } else {
                    None
                },
            }),
    {
        Streams {
            role,
            remote_bidi: RemoteStreamLimit { max: limit_bidi, next: 0 },
            remote_uni: RemoteStreamLimit { max: limit_uni, next: 0 },
            local_bidi: LocalStreamLimit { limit: 0, used: 0 },
            local_uni: LocalStreamLimit { limit: 0, used: 0 },
            send: BTreeSet::new(),
            recv: BTreeSet::new(),
            sparse_remote_uni_seen: if client_params || server_support {
                Some(SparseStreamIdRanges::default())
            } else {
                None
            },
        }
    }

    /// The streams that the peer may open, of one type.
    fn remote_limit(&self, stream_type: StreamType) -> (limit: RemoteStreamLimit)
        ensures
            limit == self@.remote(stream_type),
    {
        match stream_type {
            StreamType::BiDi => self.remote_bidi,
            StreamType::UniDi => self.remote_uni,
        }
    }

    fn set_remote_limit(&mut self, stream_type: StreamType, limit: RemoteStreamLimit)
        ensures
            final(self)@ == old(self)@.with_remote(stream_type, limit),
    {
        match stream_type {
            StreamType::BiDi => {
                self.remote_bidi = limit;
            },
            StreamType::UniDi => {
                self.remote_uni = limit;
            },
        }
    }

    /// The streams that this end may open, of one type.
    fn local_limit(&self, stream_type: StreamType) -> (limit: LocalStreamLimit)
        ensures
            limit == self@.local(stream_type),
    {
        match stream_type {
            StreamType::BiDi => self.local_bidi,
            StreamType::UniDi => self.local_uni,
        }
    }

    fn set_local_limit(&mut self, stream_type: StreamType, limit: LocalStreamLimit)
        ensures
            final(self)@ == old(self)@.with_local(stream_type, limit),
    {
        match stream_type {
            StreamType::BiDi => {
                self.local_bidi = limit;
            },
            StreamType::UniDi => {
                self.local_uni = limit;
            },
        }
    }

    /// Takes note that the peer was told that it may open `max` streams.
    pub fn raise_remote_limit(&mut self, stream_type: StreamType, max: u64)
        requires
            old(self).wf(),
        ensures
            final(self).wf(),
            final(self)@ == old(self)@.with_remote(
                stream_type,
                RemoteStreamLimit {
                    max: if max > old(self)@.remote(stream_type).max {
                        max
                    } else {
                        old(self)@.remote(stream_type).max
                    },
                    ..old(self)@.remote(stream_type)
                },
            ),
    {
        let mut limit = self.remote_limit(stream_type);
        if max > limit.max {
            limit.max = max;
        }
        self.set_remote_limit(stream_type, limit);
    }

    /// Whether the peer may use the stream.
    pub fn is_stream_id_allowed(&self, stream_id: StreamId) -> (allowed: bool)
        ensures
            allowed == self@.allowed(stream_id@),
    {
        stream_id.index() < self.remote_limit(stream_id.stream_type()).max
    }

    /// Forgets every stream, and every limit that the peer told.
    pub fn zero_rtt_rejected(&mut self)
        requires
            old(self).wf(),
        ensures
            final(self).wf(),
            final(self)@ == (StreamsView {
                local_bidi: LocalStreamLimit { limit: 0, used: 0 },
                local_uni: LocalStreamLimit { limit: 0, used: 0 },
                ..old(self)@.cleared()
            }),
    {
        self.clear_streams();
        self.local_bidi = LocalStreamLimit { limit: 0, used: 0 };
        self.local_uni = LocalStreamLimit { limit: 0, used: 0 };
    }

    /// Forgets every stream.
    pub fn clear_streams(&mut self)
        requires
            old(self).wf(),
        ensures
            final(self).wf(),
            final(self)@ == old(self)@.cleared(),
    {
        self.send.clear();
        self.recv.clear();
        if self.sparse_remote_uni_seen.is_some() {
            self.sparse_remote_uni_seen = Some(SparseStreamIdRanges::default());
        }
    }

    /// Notes a stream that the peer opened, and tells how it is made.
    fn create_remote_stream(&mut self, stream_id: StreamId) -> (stream: NewStream)
        ensures
            is_new_remote(stream, stream_id@),
            final(self)@ == (StreamsView {
                recv: old(self)@.recv.insert(stream_id@),
                send: if stream_id::type_of(stream_id@) == StreamType::BiDi {
                    old(self)@.send.insert(stream_id@)
                } else {
                    old(self)@.send
                },
                ..old(self)@
            }),
    {
        let parameter = match stream_id.stream_type() {
            StreamType::BiDi => TransportParameterId::InitialMaxStreamDataBidiRemote,
            StreamType::UniDi => TransportParameterId::InitialMaxStreamDataUni,
        };
        self.recv.insert(stream_id.as_u64());
        let send_limit = if stream_id.is_bidi() {
            self.send.insert(stream_id.as_u64());
            Some(
                StreamLimit {
                    endpoint: Endpoint::Remote,
                    parameter: TransportParameterId::InitialMaxStreamDataBidiLocal,
                },
            )
        } else {
            None
        };
        NewStream {
            stream_id,
            recv_limit: Some(StreamLimit { endpoint: Endpoint::Local, parameter }),
            send_limit,
        }
    }

    /// Opens the stream, and those before it, if the peer opens them and has not
    /// done so before.
    fn ensure_created_if_remote(&mut self, stream_id: StreamId) -> (out: Res<Vec<NewStream>>)
        requires
            old(self).wf(),
        ensures
            final(self).wf(),
            final(self)@ == old(self)@.after_use(stream_id@),
            match out {
                Ok(created) => old(self)@.to_open(stream_id@) matches Ok(ids) && are_new_remote(
                    created@,
                    ids,
                ),
                Err(e) => old(self)@.to_open(stream_id@) == Err::<Seq<u64>, Error>(e),
            },
    {
        let ghost before = self@;
        let ghost id = stream_id@;
        let mut created: Vec<NewStream> = Vec::new();
        if !stream_id.is_remote_initiated(self.role) {
            return Ok(created);
        }
        if !self.is_stream_id_allowed(stream_id) {
            return Err(Error::StreamLimit);
        }
        let stream_type = stream_id.stream_type();
        let index = stream_id.index();
        if stream_id.is_uni() && self.sparse_remote_uni_seen.is_some() {
            return Ok(self.open_sparse(stream_id));
        }
        let first = self.remote_limit(stream_type).next;
        let mut next: u64 = first;
        let class: u64 = stream_id.as_u64() % 4;
        let ghost ids = before.to_open(id)->Ok_0;
        proof {
            assert(self@ == before.with_streams(ids.take(0))) by {
                lemma_no_streams(before, ids.take(0));
            }
        }
        while next <= index
            invariant
                id == stream_id@,
                index == id / 4,
                class == id % 4,
                stream_type == stream_id::type_of(id),
                first == before.remote(stream_type).next,
                first <= next,
                next <= index + 1 || next == first,
                before.is_remote(id),
                before.allowed(id),
                !before.is_sparse(id),
                before.to_open(id) == Ok::<Seq<u64>, Error>(ids),
                created@.len() == next - first,
                created@.len() <= ids.len(),
                are_new_remote(created@, ids.take(created@.len() as int)),
                self@ == before.with_streams(ids.take(created@.len() as int)),
            decreases index + 1 - next,
        {
            let new_id = StreamId::new(4 * next + class);
            let ghost k = created@.len() as int;
            let ghost state = self@;
            assert(ids[k] == new_id@);
            let stream = self.create_remote_stream(new_id);
            created.push(stream);
            next = next + 1;
            proof {
                lemma_one_stream_more(before, ids, k);
                assert(stream_id::type_of(new_id@) == stream_type);
                assert forall|i: int| 0 <= i < k + 1 implies is_new_remote(
                    #[trigger] created@[i],
                    ids.take(k + 1)[i],
                ) by {
                    if i < k {
                        assert(ids.take(k)[i] == ids[i]);
                    }
                }
            }
        }
        proof {
            assert(ids.take(created@.len() as int) =~= ids);
            stream_laws::law_use_keeps_valid(before, id);
        }
        if first <= index {
            let mut limit = self.remote_limit(stream_type);
            limit.next = next;
            self.set_remote_limit(stream_type, limit);
        }
        Ok(created)
    }

    /// Opens a stream of the peer for one direction, but not those before it.
    fn open_sparse(&mut self, stream_id: StreamId) -> (created: Vec<NewStream>)
        requires
            old(self).wf(),
            old(self)@.is_remote(stream_id@),
            old(self)@.allowed(stream_id@),
            old(self)@.is_sparse(stream_id@),
        ensures
            final(self).wf(),
            final(self)@ == old(self)@.after_use(stream_id@),
            are_new_remote(created@, old(self)@.to_open(stream_id@)->Ok_0),
    {
        let ghost before = self@;
        let ghost id = stream_id@;
        let mut created: Vec<NewStream> = Vec::new();
        let index = stream_id.index();
        if self.remote_uni.next <= index {
            self.remote_uni.next = index + 1;
        }
        if let Some(seen) = self.sparse_remote_uni_seen.take() {
            let mut seen = seen;
            proof {
                stream_id::law_id_parts(id);
                sparse::law_insert_notes_stream(
                    seen@,
                    stream_id::first_id(StreamType::UniDi, other(before.role)),
                    id,
                );
            }
            if seen.contains(stream_id) {
                proof {
                    lemma_no_streams(before, Seq::empty());
                }
                self.sparse_remote_uni_seen = Some(seen);
                return created;
            }
            created.push(self.create_remote_stream(stream_id));
            seen.insert(stream_id);
            self.sparse_remote_uni_seen = Some(seen);
            proof {
                let ids = seq![id];
                lemma_no_streams(before, ids.take(0));
                lemma_one_stream_more(before, ids, 0);
                assert(ids.take(1) =~= ids);
                stream_laws::law_use_keeps_valid(before, id);
            }
        }
        created
    }

    /// What the stream stands for that a frame names. Streams of the peer are opened
    /// as the stream says. A stream of this end that was never opened is refused.
    pub fn obtain_stream(&mut self, stream_id: StreamId) -> (out: Res<ObtainedStream>)
        requires
            old(self).wf(),
        ensures
            final(self).wf(),
            match out {
                Ok(obtained) => {
                    &&& final(self)@ == old(self)@.after_use(stream_id@)
                    &&& old(self)@.obtained(stream_id@) matches Ok((ids, send, recv))
                        && are_new_remote(obtained.created@, ids) && obtained.send == send
                        && obtained.recv == recv
                },
                Err(e) => {
                    &&& final(self)@ == old(self)@
                    &&& old(self)@.obtained(stream_id@) == Err::<(Seq<u64>, bool, bool), Error>(e)
                },
            },
    {
        let created = self.ensure_created_if_remote(stream_id)?;
        let send = self.send.contains(&stream_id.as_u64());
        let recv = self.recv.contains(&stream_id.as_u64());
        if !send && !recv && !stream_id.is_remote_initiated(self.role) && self.local_limit(
            stream_id.stream_type(),
        ).used <= stream_id.index() {
            return Err(Error::StreamState);
        }
        Ok(ObtainedStream { created, send, recv })
    }
}

impl Streams {
    /// Opens a stream, if the peer's limit allows it.
    pub fn stream_create(&mut self, stream_type: StreamType) -> (out: Res<NewStream>)
        requires
            old(self).wf(),
        ensures
            final(self).wf(),
            match out {
                Ok(stream) => {
                    &&& old(self)@.can_open(stream_type)
                    &&& is_new_local(stream, old(self)@.next_local(stream_type))
                    &&& final(self)@ == old(self)@.after_create(stream_type)
                },
                Err(e) => {
                    &&& !old(self)@.can_open(stream_type)
                    &&& e == Error::StreamLimit
                    &&& final(self)@ == old(self)@
                },
            },
    {
        let mut limit = self.local_limit(stream_type);
        if limit.used >= limit.limit || limit.used >= 0x4000_0000_0000_0000 {
            return Err(Error::StreamLimit);
        }
        let class: u64 = match (stream_type, self.role) {
            (StreamType::BiDi, Role::Client) => 0,
            (StreamType::BiDi, Role::Server) => 1,
            (StreamType::UniDi, Role::Client) => 2,
            (StreamType::UniDi, Role::Server) => 3,
        };
        let stream_id = StreamId::new(4 * limit.used + class);
        limit.used = limit.used + 1;
        self.set_local_limit(stream_type, limit);
        let parameter = match stream_type {
            StreamType::UniDi => TransportParameterId::InitialMaxStreamDataUni,
            StreamType::BiDi => TransportParameterId::InitialMaxStreamDataBidiRemote,
        };
        self.send.insert(stream_id.as_u64());
        let recv_limit = match stream_type {
            StreamType::BiDi => {
                self.recv.insert(stream_id.as_u64());
                Some(
                    StreamLimit {
                        endpoint: Endpoint::Local,
                        parameter: TransportParameterId::InitialMaxStreamDataBidiLocal,
                    },
                )
            },
            StreamType::UniDi => None,
        };
        Ok(
            NewStream {
                stream_id,
                recv_limit,
                send_limit: Some(StreamLimit { endpoint: Endpoint::Remote, parameter }),
            },
        )
    }

    /// What a frame that is about one side of a stream comes to.
    fn act_on(&mut self, stream_id: StreamId, side: Side, action: StreamAction) -> (out: (
        Vec<NewStream>,
        Res<StreamAction>,
    ))
        requires
            old(self).wf(),
        ensures
            final(self).wf(),
            ({
                let (state, ids, result) = old(self)@.acted_on(stream_id@, side, action);
                &&& final(self)@ == state
                &&& are_new_remote(out.0@, ids)
                &&& out.1 == result
            }),
    {
        match self.obtain_stream(stream_id) {
            Ok(obtained) => {
                let there = match side {
                    Side::Send => obtained.send,
                    Side::Recv => obtained.recv,
                };
                let action = if there {
                    action
                } else {
                    StreamAction::Nothing
                };
                (obtained.created, Ok(action))
            },
            Err(e) => (Vec::new(), Err(e)),
        }
    }

    /// What a frame comes to. A frame that is not about streams is refused.
    pub fn input_frame(&mut self, frame: &StreamFrame, stats: &mut FrameStats) -> (outcome:
        FrameOutcome)
        requires
            old(self).wf(),
            old(stats).has_room(*frame),
        ensures
            final(self).wf(),
            *final(stats) == old(stats).counted(*frame),
            ({
                let (state, ids, result) = old(self)@.input(*frame);
                &&& final(self)@ == state
                &&& are_new_remote(outcome.created@, ids)
                &&& outcome.result == result
            }),
            outcome.stop_sending == match *frame {
                StreamFrame::StopSending { stream_id, application_error_code } => Some(
                    (stream_id, application_error_code),
                ),
                _ => None,
            },
    {
        let mut stop_sending: Option<(StreamId, u64)> = None;
        let (created, result): (Vec<NewStream>, Res<StreamAction>) = match *frame {
            StreamFrame::ResetStream { stream_id, application_error_code, final_size } => {
                stats.reset_stream = stats.reset_stream + 1;
                self.act_on(
                    stream_id,
                    Side::Recv,
                    StreamAction::ResetReceive { stream_id, application_error_code, final_size },
                )
            },
            StreamFrame::StopSending { stream_id, application_error_code } => {
                stats.stop_sending = stats.stop_sending + 1;
                stop_sending = Some((stream_id, application_error_code));
                self.act_on(
                    stream_id,
                    Side::Send,
                    StreamAction::ResetSend { stream_id, application_error_code },
                )
            },
            StreamFrame::Stream { stream_id, offset, fin } => {
                stats.stream = stats.stream + 1;
                self.act_on(stream_id, Side::Recv, StreamAction::Deliver { stream_id, offset, fin })
            },
            StreamFrame::MaxData { maximum_data } => {
                stats.max_data = stats.max_data + 1;
                (Vec::new(), Ok(StreamAction::MaxData { maximum_data }))
            },
            StreamFrame::MaxStreamData { stream_id, maximum_stream_data } => {
                stats.max_stream_data = stats.max_stream_data + 1;
                self.act_on(
                    stream_id,
                    Side::Send,
                    StreamAction::MaxStreamData { stream_id, maximum_stream_data },
                )
            },
            StreamFrame::MaxStreams { stream_type, maximum_streams } => {
                stats.max_streams = stats.max_streams + 1;
                let action = if self.handle_max_streams(stream_type, maximum_streams) {
                    StreamAction::StreamCreatable { stream_type }
                } else {
                    StreamAction::Nothing
                };
                (Vec::new(), Ok(action))
            },
            StreamFrame::DataBlocked => {
                stats.data_blocked = stats.data_blocked + 1;
                (Vec::new(), Ok(StreamAction::SendFlowControlUpdate))
            },
            StreamFrame::StreamDataBlocked { stream_id } => {
                stats.stream_data_blocked = stats.stream_data_blocked + 1;
                if stream_id.is_send_only(self.role) {
                    (Vec::new(), Err(Error::StreamState))
                } else {
                    self.act_on(
                        stream_id,
                        Side::Recv,
                        StreamAction::SendStreamFlowControlUpdate { stream_id },
                    )
                }
            },
            StreamFrame::StreamsBlocked => {
                stats.streams_blocked = stats.streams_blocked + 1;
                (Vec::new(), Ok(StreamAction::Nothing))
            },
            StreamFrame::Other => (Vec::new(), Err(Error::Internal)),
        };
        FrameOutcome { stop_sending, created, result }
    }

    /// The next writer of maintenance frames, given the one before, if any, and
    /// whether the packet is full then.
    pub fn write_maintenance_frames(previous: Option<MaintenanceWriter>, full: bool) -> (next:
        Option<MaintenanceWriter>)
        ensures
            next == writer_after(previous, full),
    {
        let previous = match previous {
            Some(previous) => previous,
            None => {
                return Some(MaintenanceWriter::SenderFlowControl);
            },
        };
        match previous {
            MaintenanceWriter::RecvStreams => {
                return Some(MaintenanceWriter::RemoteStreamLimits(StreamType::BiDi));
            },
            _ => {},
        }
        if full {
            return None;
        }
        match previous {
            MaintenanceWriter::SenderFlowControl => Some(MaintenanceWriter::ReceiverFlowControl),
            MaintenanceWriter::ReceiverFlowControl => Some(MaintenanceWriter::RecvStreams),
            MaintenanceWriter::RecvStreams => Some(
                MaintenanceWriter::RemoteStreamLimits(StreamType::BiDi),
            ),
            MaintenanceWriter::RemoteStreamLimits(StreamType::BiDi) => Some(
                MaintenanceWriter::RemoteStreamLimits(StreamType::UniDi),
            ),
            MaintenanceWriter::RemoteStreamLimits(StreamType::UniDi) => Some(
                MaintenanceWriter::LocalStreamLimits(StreamType::BiDi),
            ),
            MaintenanceWriter::LocalStreamLimits(StreamType::BiDi) => Some(
                MaintenanceWriter::LocalStreamLimits(StreamType::UniDi),
            ),
            MaintenanceWriter::LocalStreamLimits(StreamType::UniDi) => None,
        }
    }

    /// What is told a receiving stream of a loss, if there is such a stream.
    fn lost_of_stream(&mut self, stream_id: StreamId, action: LossAction) -> (out: (
        Vec<NewStream>,
        LossAction,
    ))
        requires
            old(self).wf(),
        ensures
            final(self).wf(),
            ({
                let (state, ids, result) = old(self)@.lost_of(stream_id@, action);
                &&& final(self)@ == state
                &&& are_new_remote(out.0@, ids)
                &&& out.1 == result
            }),
    {
        match self.obtain_stream(stream_id) {
            Ok(obtained) => {
                let action = if obtained.recv {
                    action
                } else {
                    LossAction::Nothing
                };
                (obtained.created, action)
            },
            Err(_) => (Vec::new(), LossAction::Nothing),
        }
    }

    /// What is told that a part of a packet was lost, and the streams that have to
    /// be made first.
    pub fn lost(&mut self, token: &StreamRecoveryToken) -> (out: (Vec<NewStream>, LossAction))
        requires
            old(self).wf(),
        ensures
            final(self).wf(),
            ({
                let (state, ids, action) = old(self)@.lost(*token);
                &&& final(self)@ == state
                &&& are_new_remote(out.0@, ids)
                &&& out.1 == action
            }),
    {
        match *token {
            StreamRecoveryToken::Stream(data) => (Vec::new(), LossAction::StreamLost(data)),
            StreamRecoveryToken::ResetStream { stream_id } => (
                Vec::new(),
                LossAction::ResetLost { stream_id },
            ),
            StreamRecoveryToken::StreamDataBlocked { stream_id, limit } => (
                Vec::new(),
                LossAction::BlockedLost { stream_id, limit },
            ),
            StreamRecoveryToken::MaxStreamData { stream_id, max_data } => self.lost_of_stream(
                stream_id,
                LossAction::MaxStreamDataLost { stream_id, max_data },
            ),
            StreamRecoveryToken::StopSending { stream_id } => self.lost_of_stream(
                stream_id,
                LossAction::StopSendingLost { stream_id },
            ),
            StreamRecoveryToken::StreamsBlocked { stream_type, limit } => (
                Vec::new(),
                LossAction::StreamsBlockedLost { stream_type, limit },
            ),
            StreamRecoveryToken::MaxStreams { stream_type, max_streams } => (
                Vec::new(),
                LossAction::MaxStreamsLost { stream_type, max_streams },
            ),
            StreamRecoveryToken::DataBlocked(limit) => (
                Vec::new(),
                LossAction::DataBlockedLost { limit },
            ),
            StreamRecoveryToken::MaxData(maximum_data) => (
                Vec::new(),
                LossAction::MaxDataLost { maximum_data },
            ),
        }
    }

    /// What is told that a part of a packet was acknowledged.
    pub fn acked(token: &StreamRecoveryToken) -> (action: AckAction)
        ensures
            action == acked_action(*token),
    {
        match *token {
            StreamRecoveryToken::Stream(data) => AckAction::StreamAcked(data),
            StreamRecoveryToken::ResetStream { stream_id } => AckAction::ResetAcked { stream_id },
            StreamRecoveryToken::StopSending { stream_id } => AckAction::StopSendingAcked {
                stream_id,
            },
            StreamRecoveryToken::DataBlocked(_) | StreamRecoveryToken::StreamDataBlocked { .. }
            | StreamRecoveryToken::MaxStreamData { .. }
            | StreamRecoveryToken::StreamsBlocked { .. } | StreamRecoveryToken::MaxStreams { .. }
            | StreamRecoveryToken::MaxData(_) => AckAction::Nothing,
        }
    }

    /// Forgets the streams that have ended, and tells how many of the receiving ones
    /// the peer had opened: for both directions, and for one.
    pub fn cleanup_closed_streams(&mut self, ended_send: &[StreamId], ended_recv: &[StreamId]) -> (removed: (
        u64,
        u64,
    ))
        requires
            old(self).wf(),
        ensures
            final(self).wf(),
            final(self)@ == (StreamsView {
                send: old(self)@.send.difference(id_set(ended_send@)),
                recv: old(self)@.recv.difference(id_set(ended_recv@)),
                ..old(self)@
            }),
            removed.0 == retired(old(self)@.recv, ended_recv@, old(self)@.role, StreamType::BiDi),
            removed.1 == retired(old(self)@.recv, ended_recv@, old(self)@.role, StreamType::UniDi),
    {
        let ghost before = self@;
        let mut i: usize = 0;
        proof {
            lemma_no_ids(ended_send@.take(0));
            lemma_no_ids(ended_recv@.take(0));
            assert(before.send.difference(Set::empty()) =~= before.send);
            assert(before.recv.difference(Set::empty()) =~= before.recv);
        }
        while i < ended_send.len()
            invariant
                i <= ended_send@.len(),
                self@ == (StreamsView {
                    send: before.send.difference(id_set(ended_send@.take(i as int))),
                    ..before
                }),
            decreases ended_send@.len() - i,
        {
            let id = ended_send[i].as_u64();
            let ghost was = self@.send;
            self.send.remove(&id);
            proof {
                lemma_one_id_more(ended_send@, i as int);
                assert(self@.send =~= before.send.difference(id_set(ended_send@.take(i + 1))));
            }
            i = i + 1;
        }
        assert(ended_send@.take(i as int) =~= ended_send@);
        let ghost cleaned = self@;
        let mut removed_bidi: u64 = 0;
        let mut removed_uni: u64 = 0;
        let mut j: usize = 0;
        while j < ended_recv.len()
            invariant
                j <= ended_recv@.len(),
                cleaned == (StreamsView {
                    send: before.send.difference(id_set(ended_send@)),
                    ..before
                }),
                self@ == (StreamsView {
                    recv: before.recv.difference(id_set(ended_recv@.take(j as int))),
                    ..cleaned
                }),
                removed_bidi <= j,
                removed_uni <= j,
                removed_bidi == retired(
                    before.recv,
                    ended_recv@.take(j as int),
                    before.role,
                    StreamType::BiDi,
                ),
                removed_uni == retired(
                    before.recv,
                    ended_recv@.take(j as int),
                    before.role,
                    StreamType::UniDi,
                ),
            decreases ended_recv@.len() - j,
        {
            let stream_id = ended_recv[j];
            let id = stream_id.as_u64();
            let ghost was = self@.recv;
            let present = self.recv.remove(&id);
            proof {
                lemma_one_id_more(ended_recv@, j as int);
                assert(ended_recv@.take(j + 1).drop_last() =~= ended_recv@.take(j as int));
                assert(ended_recv@.take(j + 1).last() == stream_id);
                assert(self@.recv =~= before.recv.difference(id_set(ended_recv@.take(j + 1))));
            }
            if present && stream_id.is_remote_initiated(self.role) {
                if stream_id.is_bidi() {
                    removed_bidi = removed_bidi + 1;
                } else {
                    removed_uni = removed_uni + 1;
                }
            }
            j = j + 1;
        }
        assert(ended_recv@.take(j as int) =~= ended_recv@);
        (removed_bidi, removed_uni)
    }

    /// What the sending streams are told of the limit on the connection. They could
    /// send `previous_limit` before, and can send `current_limit` now, if the limit
    /// was raised: then all of them are told.
    pub fn handle_max_data(&self, previous_limit: usize, current_limit: Option<usize>) -> (told: Vec<
        WritableStream,
    >)
        ensures
            id_set(told_streams(told@)) == if current_limit is Some {
                self@.send
            } else {
                Set::empty()
            },
            told@.len() == if current_limit is Some {
                self@.send.len()
            } else {
                0
            },
            forall|i: int|
                0 <= i < told@.len() ==> (#[trigger] told@[i]).previous_limit == previous_limit
                    && Some(told@[i].current_limit) == current_limit,
    {
        let mut told: Vec<WritableStream> = Vec::new();
        let current = match current_limit {
            Some(current) => current,
            None => {
                proof {
                    lemma_no_ids(told_streams(told@));
                }
                return told;
            },
        };
        let ids = self.send.iter();
        let ghost order = vstd::std_specs::iter::IteratorSpec::remaining(&ids);
        for id in it: ids
            invariant
                it.seq() == order,
                told@.len() == it.index(),
                forall|k: int|
                    0 <= k < told@.len() ==> (#[trigger] told@[k]).stream_id@ == *order[k]
                        && told@[k].previous_limit == previous_limit && told@[k].current_limit
                        == current,
        {
            told.push(
                WritableStream {
                    stream_id: StreamId::new(*id),
                    previous_limit,
                    current_limit: current,
                },
            );
        }
        proof {
            lemma_ids_of(told_streams(told@), order, self.send@);
        }
        told
    }

    /// Takes over the peer's first limits on streams, and tells what follows.
    pub fn set_initial_limits(&mut self, max_streams_bidi: u64, max_streams_uni: u64) -> (limits:
        InitialLimits)
        requires
            old(self).wf(),
        ensures
            final(self).wf(),
            final(self)@ == (StreamsView {
                local_bidi: old(self)@.local_bidi.raised(max_streams_bidi),
                local_uni: old(self)@.local_uni.raised(max_streams_uni),
                ..old(self)@
            }),
            limits == (InitialLimits {
                update_send_streams: old(self)@.role == Role::Client,
                bidi_creatable: old(self)@.local_bidi.raised(max_streams_bidi).available() > 0,
                uni_creatable: old(self)@.local_uni.raised(max_streams_uni).available() > 0,
            }),
    {
        self.handle_max_streams(StreamType::BiDi, max_streams_bidi);
        self.handle_max_streams(StreamType::UniDi, max_streams_uni);
        InitialLimits {
            update_send_streams: self.role == Role::Client,
            bidi_creatable: self.local_bidi.used < self.local_bidi.limit,
            uni_creatable: self.local_uni.used < self.local_uni.limit,
        }
    }

    /// Takes over the peer's limit on streams, if it is higher than the last one, and
    /// tells whether it is.
    pub fn handle_max_streams(&mut self, stream_type: StreamType, maximum_streams: u64) -> (
    increased: bool)
        requires
            old(self).wf(),
        ensures
            final(self).wf(),
            increased == (maximum_streams > old(self)@.local(stream_type).limit),
            final(self)@ == old(self)@.with_local(
                stream_type,
                old(self)@.local(stream_type).raised(maximum_streams),
            ),
    {
        let mut limit = self.local_limit(stream_type);
        let increased = maximum_streams > limit.limit;
        if increased {
            limit.limit = maximum_streams;
        }
        self.set_local_limit(stream_type, limit);
        increased
    }

    /// Finds a stream with a sending side. None is opened for it.
    pub fn get_send_stream(&self, stream_id: StreamId) -> (out: Res<StreamId>)
        ensures
            out == if self@.send.contains(stream_id@) {
                Ok::<StreamId, Error>(stream_id)
            } else {
                Err(Error::InvalidStreamId)
            },
    {
        if self.send.contains(&stream_id.as_u64()) {
            Ok(stream_id)
        } else {
            Err(Error::InvalidStreamId)
        }
    }

    /// Finds a stream with a receiving side. None is opened for it.
    pub fn get_recv_stream(&self, stream_id: StreamId) -> (out: Res<StreamId>)
        ensures
            out == if self@.recv.contains(stream_id@) {
                Ok::<StreamId, Error>(stream_id)
            } else {
                Err(Error::InvalidStreamId)
            },
    {
        if self.recv.contains(&stream_id.as_u64()) {
            Ok(stream_id)
        } else {
            Err(Error::InvalidStreamId)
        }
    }

    /// How many streams have a receiving side.
    pub fn recv_stream_count(&self) -> (count: usize)
        ensures
            count == self@.recv.len(),
    {
        self.recv.len()
    }
}

proof fn lemma_no_ids(ids: Seq<StreamId>)
    requires
        ids.len() == 0,
    ensures
        id_set(ids) == Set::<u64>::empty(),
{
    assert(id_set(ids) =~= Set::<u64>::empty());
}

proof fn lemma_one_id_more(ids: Seq<StreamId>, k: int)
    requires
        0 <= k < ids.len(),
    ensures
        id_set(ids.take(k + 1)) == id_set(ids.take(k)).insert(ids[k]@),
{
    let a = ids.take(k).map_values(|id: StreamId| id@);
    let b = ids.take(k + 1).map_values(|id: StreamId| id@);
    assert forall|x: u64| b.to_set().contains(x) == a.to_set().insert(ids[k]@).contains(x) by {
        if b.contains(x) {
            let i = choose|i: int| 0 <= i < b.len() && b[i] == x;
            if i < k {
                assert(a[i] == x);
            }
        }
        if a.contains(x) {
            let i = choose|i: int| 0 <= i < a.len() && a[i] == x;
            assert(b[i] == x);
        }
        assert(b[k] == ids[k]@);
    }
    assert(b.to_set() =~= a.to_set().insert(ids[k]@));
}

proof fn lemma_ids_of(told: Seq<StreamId>, order: Seq<&u64>, send: Set<u64>)
    requires
        told.len() == order.len(),
        forall|k: int| 0 <= k < told.len() ==> (#[trigger] told[k])@ == *order[k],
        order.unref().to_set() == send,
    ensures
        id_set(told) == send,
{
    assert(told.map_values(|id: StreamId| id@) =~= order.unref());
}

proof fn lemma_no_streams(state: StreamsView, ids: Seq<u64>)
    requires
        ids.len() == 0,
    ensures
        state.with_streams(ids) == state,
{
    assert(ids.to_set() =~= Set::empty());
    assert(state.with_streams(ids).recv =~= state.recv);
    assert(state.with_streams(ids).send =~= state.send);
}

proof fn lemma_one_stream_more(state: StreamsView, ids: Seq<u64>, k: int)
    requires
        0 <= k < ids.len(),
    ensures
        state.with_streams(ids.take(k + 1)).recv == state.with_streams(ids.take(k)).recv.insert(
            ids[k],
        ),
        state.with_streams(ids.take(k + 1)).send == if stream_id::type_of(ids[k])
            == StreamType::BiDi {
            state.with_streams(ids.take(k)).send.insert(ids[k])
        } else {
            state.with_streams(ids.take(k)).send
        },
{
    let (a, b) = (ids.take(k), ids.take(k + 1));
    assert(b =~= a.push(ids[k]));
    assert(b.to_set() =~= a.to_set().insert(ids[k])) by {
        assert forall|x: u64| b.to_set().contains(x) == a.to_set().insert(ids[k]).contains(x) by {
            if b.contains(x) {
                let i = choose|i: int| 0 <= i < b.len() && b[i] == x;
                if i < k {
                    assert(a[i] == x);
                }
            }
            if a.contains(x) {
                let i = choose|i: int| 0 <= i < a.len() && a[i] == x;
                assert(b[i] == x);
            }
            assert(b[k] == ids[k]);
        }
    }
    assert(state.with_streams(b).recv =~= state.with_streams(a).recv.insert(ids[k]));
    if stream_id::type_of(ids[k]) == StreamType::BiDi {
        assert(state.with_streams(b).send =~= state.with_streams(a).send.insert(ids[k]));
    } else {
        assert(state.with_streams(b).send =~= state.with_streams(a).send);
    }
}

} // verus!
