//! Stream IDs, and what they say of their stream.

use vstd::prelude::*;

verus! {

/// An end of a connection.
#[derive(Clone, Copy, Debug, PartialEq, Eq, Structural)]
pub enum Role {
    /// The end that opened the connection.
    Client,
    /// The other end.
    Server,
}

/// Whether data flows in both directions.
#[derive(Clone, Copy, Debug, PartialEq, Eq, Structural)]
pub enum StreamType {
    /// Data flows in both directions.
    BiDi,
    /// Data flows from the end that opened the stream only.
    UniDi,
}

/// The number of a stream. Its lowest bit says which end opened the stream, and
/// the next one whether data flows in both directions.
#[derive(Clone, Copy, Debug, PartialEq, Eq, Structural)]
pub struct StreamId {
    id: u64,
}

impl View for StreamId {
    type V = u64;

    closed spec fn view(&self) -> u64 {
        self.id
    }
}

/// The end that opened the stream `id`.
pub open spec fn initiator(id: u64) -> Role {
    if id % 2 == 0 {
        Role::Client
    } else {
        Role::Server
    }
}

/// The type of the stream `id`.
pub open spec fn type_of(id: u64) -> StreamType {
    if id % 4 < 2 {
        StreamType::BiDi
    } else {
        StreamType::UniDi
    }
}

/// The lowest number of a stream of a type that `role` opens.
pub open spec fn first_id(stream_type: StreamType, role: Role) -> u64 {
    match (stream_type, role) {
        (StreamType::BiDi, Role::Client) => 0,
        (StreamType::BiDi, Role::Server) => 1,
        (StreamType::UniDi, Role::Client) => 2,
        (StreamType::UniDi, Role::Server) => 3,
    }
}

/// A stream's number is given by its type, the end that opened it, and its place
/// among the streams of that type which that end opens.
pub proof fn law_id_parts(id: u64)
    ensures
        id == 4 * (id / 4) + first_id(type_of(id), initiator(id)),
{
}

impl StreamId {
    /// The stream with the number `id`.
    pub fn new(id: u64) -> (stream_id: Self)
        ensures
            stream_id@ == id,
    {
        StreamId { id }
    }

    /// The number of the stream.
    pub fn as_u64(self) -> (id: u64)
        ensures
            id == self@,
    {
        self.id
    }

    /// Whether data flows in both directions.
    pub fn is_bidi(self) -> (bidi: bool)
        ensures
            bidi == (type_of(self@) == StreamType::BiDi),
    {
        self.id % 4 < 2
    }

    /// Whether data flows from the end that opened the stream only.
    pub fn is_uni(self) -> (uni: bool)
        ensures
            uni == (type_of(self@) == StreamType::UniDi),
    {
        !self.is_bidi()
    }

    /// The type of the stream.
    pub fn stream_type(self) -> (stream_type: StreamType)
        ensures
            stream_type == type_of(self@),
    {
        if self.is_bidi() {
            StreamType::BiDi
        } else {
            StreamType::UniDi
        }
    }

    /// The end that opened the stream.
    pub fn role(self) -> (role: Role)
        ensures
            role == initiator(self@),
    {
        if self.id % 2 == 0 {
            Role::Client
        } else {
            Role::Server
        }
    }

    /// Whether the server opened the stream.
    pub fn is_server_initiated(self) -> (server: bool)
        ensures
            server == (initiator(self@) == Role::Server),
    {
        self.id % 2 == 1
    }

    /// Whether the other end than `my_role` opened the stream.
    pub fn is_remote_initiated(self, my_role: Role) -> (remote: bool)
        ensures
            remote == (initiator(self@) != my_role),
    {
        self.role() != my_role
    }

    /// Whether `my_role` can only send on the stream.
    pub fn is_send_only(self, my_role: Role) -> (send_only: bool)
        ensures
            send_only == (type_of(self@) == StreamType::UniDi && initiator(self@) == my_role),
    {
        self.is_uni() && self.role() == my_role
    }

    /// The place of the stream among those of its type which the same end opens.
    pub fn index(self) -> (index: u64)
        ensures
            index == self@ / 4,
    {
        self.id / 4
    }
}

} // verus!
