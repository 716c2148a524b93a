//! Connections to other peers, and the requests that wait for an answer.

use vstd::prelude::*;
use vstd::std_specs::convert::FromSpecImpl;
use crate::collections::{Same, VecMap};
use crate::text::{copy_text, decimal, push_decimal};

verus! {

/// A connection of a peer.
#[derive(Copy, Clone, Debug, PartialEq, Eq, PartialOrd, Ord, Hash, Structural)]
pub struct ConnectionId {
    pub owner_id: u32,
    pub id: u32,
}

/// A peer, as other peers know it.
#[derive(Copy, Clone, Debug, PartialEq, Eq, Structural)]
pub struct PeerId {
    pub owner_id: u32,
    pub id: u32,
}

/// The peer that a connection leads to.
pub open spec fn peer_of(id: ConnectionId) -> PeerId {
    PeerId { owner_id: id.owner_id, id: id.id }
}

/// The connection that leads to a peer.
pub open spec fn connection_of(peer_id: PeerId) -> ConnectionId {
    ConnectionId { owner_id: peer_id.owner_id, id: peer_id.id }
}

impl From<ConnectionId> for PeerId {
    fn from(id: ConnectionId) -> (r: PeerId) {
        PeerId { owner_id: id.owner_id, id: id.id }
    }
}

impl FromSpecImpl<ConnectionId> for PeerId {
    open spec fn obeys_from_spec() -> bool {
        true
    }

    open spec fn from_spec(id: ConnectionId) -> PeerId {
        peer_of(id)
    }
}

impl From<PeerId> for ConnectionId {
    fn from(peer_id: PeerId) -> (r: ConnectionId) {
        ConnectionId { owner_id: peer_id.owner_id, id: peer_id.id }
    }
}

impl FromSpecImpl<PeerId> for ConnectionId {
    open spec fn obeys_from_spec() -> bool {
        true
    }

    open spec fn from_spec(peer_id: PeerId) -> ConnectionId {
        connection_of(peer_id)
    }
}

impl Same for ConnectionId {
    fn same(&self, other: &ConnectionId) -> (r: bool) {
        self.owner_id == other.owner_id && self.id == other.id
    }
}

/// How a connection is written.
pub open spec fn connection_text(id: ConnectionId) -> Seq<char> {
    decimal(id.owner_id as nat) + seq!['/'] + decimal(id.id as nat)
}

impl ConnectionId {
    /// How the connection is written.
    pub fn text(&self) -> (r: String)
        ensures
            r@ == connection_text(*self),
    {
        let mut r = String::new();
        push_decimal(&mut r, self.owner_id as u64);
        r.push('/');
        push_decimal(&mut r, self.id as u64);
        assert(r@ =~= connection_text(*self));
        r
    }
}

/// What an error is about.
#[derive(Copy, Clone, Debug, PartialEq, Eq, Structural)]
pub enum ErrorCode {
    Internal,
    Other(u32),
}

/// What a message says.
#[derive(Debug)]
pub enum Payload {
    Error { code: ErrorCode, message: String },
    EndStream,
    Other(Vec<u8>),
}

/// A message with what is needed to answer it.
#[derive(Debug)]
pub struct Envelope {
    pub id: u32,
    pub responding_to: Option<u32>,
    pub original_sender_id: Option<PeerId>,
    pub payload: Payload,
}

/// A message that waits for an answer.
#[derive(Copy, Clone, Debug, PartialEq, Eq, Structural)]
pub struct Receipt {
    pub sender_id: PeerId,
    pub message_id: u32,
}

/// Why a message cannot be sent.
#[derive(Copy, Clone, Debug, PartialEq, Eq, Structural)]
pub enum PeerError {
    NoSuchConnection(ConnectionId),
    ConnectionClosed,
}

/// How an error is written.
pub open spec fn error_text(error: PeerError) -> Seq<char> {
    match error {
        PeerError::NoSuchConnection(id) => "no such connection: "@ + connection_text(id),
        PeerError::ConnectionClosed => "connection was closed"@,
    }
}

impl PeerError {
    /// How the error is written.
    pub fn text(&self) -> (r: String)
        ensures
            r@ == error_text(*self),
    {
        match self {
            PeerError::NoSuchConnection(id) => {
                let mut r = copy_text("no such connection: ");
                r.push_str(id.text().as_str());
                r
            },
            PeerError::ConnectionClosed => copy_text("connection was closed"),
        }
    }
}

/// The requests of a connection that wait for an answer, by the ids of their messages.
/// There are none once the connection was closed.
#[derive(Debug)]
pub struct ConnectionState {
    pub next_message_id: u32,
    pub response_channels: Option<VecMap<u32, u64>>,
    pub stream_response_channels: Option<VecMap<u32, u64>>,
}

/// The id after an id.
pub open spec fn next_id(id: u32) -> u32 {
    if id == u32::MAX {
        0
    } else {
        (id + 1) as u32
    }
}

fn id_after(id: u32) -> (r: u32)
    ensures
        r == next_id(id),
{
    if id == u32::MAX {
        0
    } else {
        id + 1
    }
}

/// Who gets a message.
#[derive(Copy, Clone, Debug, PartialEq, Eq, Structural)]
pub enum Dispatch {
    /// Whoever handles messages that answer nothing.
    Handler,
    /// The one who made a request.
    Requester(u64),
    /// The one who made a request that is answered more than once.
    StreamRequester(u64),
    /// Nobody: no such request waits.
    UnknownRequest,
    /// Nobody: the connection was closed.
    Closed,
}

/// The requests that wait, if the connection was not closed.
pub open spec fn waiting(channels: Option<VecMap<u32, u64>>) -> Option<Map<u32, u64>> {
    match channels {
        Some(channels) => Some(channels@),
        None => None,
    }
}

/// What waits on a connection.
#[verifier::ext_equal]
pub struct ConnectionModel {
    pub next_message_id: u32,
    pub requests: Option<Map<u32, u64>>,
    pub streams: Option<Map<u32, u64>>,
}

impl View for ConnectionState {
    type V = ConnectionModel;

    open spec fn view(&self) -> ConnectionModel {
        ConnectionModel {
            next_message_id: self.next_message_id,
            requests: waiting(self.response_channels),
            streams: waiting(self.stream_response_channels),
        }
    }
}

/// A connection after one more message.
pub open spec fn after_message(state: ConnectionModel) -> ConnectionModel {
    ConnectionModel { next_message_id: next_id(state.next_message_id), ..state }
}

/// A connection after a request.
pub open spec fn after_request(state: ConnectionModel, requester: u64) -> ConnectionModel {
    ConnectionModel {
        next_message_id: next_id(state.next_message_id),
        requests: match state.requests {
            Some(requests) => Some(requests.insert(state.next_message_id, requester)),
            None => None,
        },
        streams: state.streams,
    }
}

/// A connection after a request that is answered more than once.
pub open spec fn after_stream_request(state: ConnectionModel, requester: u64) -> ConnectionModel {
    ConnectionModel {
        next_message_id: next_id(state.next_message_id),
        requests: state.requests,
        streams: match state.streams {
            Some(streams) => Some(streams.insert(state.next_message_id, requester)),
            None => None,
        },
    }
}

/// Who gets a message.
pub open spec fn dispatched(state: ConnectionModel, responding_to: Option<u32>) -> Dispatch {
    match responding_to {
        None => Dispatch::Handler,
        Some(id) => if state.requests is None || state.streams is None {
            Dispatch::Closed
        } else if state.requests->0.contains_key(id) {
            Dispatch::Requester(state.requests->0[id])
        } else if state.streams->0.contains_key(id) {
            Dispatch::StreamRequester(state.streams->0[id])
        } else {
            Dispatch::UnknownRequest
        },
    }
}

/// A connection after a message came in.
pub open spec fn after_dispatch(state: ConnectionModel, responding_to: Option<u32>) -> ConnectionModel {
    match (responding_to, state.requests) {
        (Some(id), Some(requests)) => ConnectionModel {
            requests: Some(requests.remove(id)),
            ..state
        },
        _ => state,
    }
}

/// Whether a list names those who wait: one for each request that waits, in some order.
pub open spec fn lists_waiting(list: Seq<u64>, channels: Option<Map<u32, u64>>) -> bool {
    if channels is Some {
        exists|ids: Seq<u32>| #[trigger] lists_requests(ids, channels->0, list)
    } else {
        list.len() == 0
    }
}

/// Whether a list names those who wait for the answers to some messages: all messages to
/// which an answer is waited for, each once.
pub open spec fn lists_requests(ids: Seq<u32>, channels: Map<u32, u64>, list: Seq<u64>) -> bool {
    &&& ids.no_duplicates()
    &&& forall|id: u32| #[trigger] ids.contains(id) == channels.contains_key(id)
    &&& list == Seq::new(ids.len(), |i: int| channels[ids[i]])
}

fn list_waiting(channels: &VecMap<u32, u64>) -> (r: Vec<u64>)
    requires
        channels.wf(),
    ensures
        lists_waiting(r@, Some(channels@)),
{
    let ids = channels.keys();
    let mut r: Vec<u64> = Vec::new();
    let mut i: usize = 0;
    while i < ids.len()
        invariant
            i <= ids@.len(),
            r@.len() == i,
            forall|id: u32| #[trigger] ids@.contains(id) == channels@.contains_key(id),
            forall|j: int| 0 <= j < i ==> #[trigger] r@[j] == channels@[ids@[j]],
        decreases ids.len() - i,
    {
        assert(ids@.contains(ids@[i as int]));
        if let Some(requester) = channels.get(&ids[i]) {
            r.push(*requester);
        }
        i = i + 1;
    }
    assert(r@ =~= Seq::new(ids@.len(), |i: int| channels@[ids@[i]]));
    assert(lists_requests(ids@, Some(channels@)->0, r@));
    r
}

/// What becomes of an answer to a request that is answered more than once.
#[derive(Copy, Clone, Debug, PartialEq, Eq, Structural)]
pub enum StreamStep {
    /// The requester gets the error.
    Fail,
    /// The requester gets nothing, and there will be no more answers.
    End,
    /// The requester gets the answer.
    Yield,
}

impl ConnectionState {
    pub open spec fn wf(&self) -> bool {
        (self.response_channels matches Some(channels) ==> channels.wf()) && (
        self.stream_response_channels matches Some(channels) ==> channels.wf())
    }

    pub fn new() -> (r: ConnectionState)
        ensures
            r.wf(),
            r@ == (ConnectionModel {
                next_message_id: 0,
                requests: Some(Map::empty()),
                streams: Some(Map::empty()),
            }),
    {
        ConnectionState {
            next_message_id: 0,
            response_channels: Some(VecMap::new()),
            stream_response_channels: Some(VecMap::new()),
        }
    }

    /// The id of the next message.
    pub fn take_message_id(&mut self) -> (r: u32)
        requires
            old(self).wf(),
        ensures
            final(self).wf(),
            r == old(self)@.next_message_id,
            final(self)@ == after_message(old(self)@),
    {
        let id: u32 = self.next_message_id;
        self.next_message_id = id_after(id);
        id
    }

    /// Notes that a requester waits for the answer to the next message. Fails where the
    /// connection was closed.
    pub fn begin_request(&mut self, requester: u64) -> (r: Result<u32, PeerError>)
        requires
            old(self).wf(),
        ensures
            final(self).wf(),
            final(self)@ == after_request(old(self)@, requester),
            r == (if old(self)@.requests is Some {
                Ok::<u32, PeerError>(old(self)@.next_message_id)
            } else {
                Err(PeerError::ConnectionClosed)
            }),
    {
        let id: u32 = self.take_message_id();
        match self.response_channels.take() {
            Some(mut channels) => {
                let _ = channels.insert(id, requester);
                self.response_channels = Some(channels);
                Ok(id)
            },
            None => Err(PeerError::ConnectionClosed),
        }
    }

    /// Notes that a requester waits for answers to the next message. Fails where the
    /// connection was closed.
    pub fn begin_stream(&mut self, requester: u64) -> (r: Result<u32, PeerError>)
        requires
            old(self).wf(),
        ensures
            final(self).wf(),
            final(self)@ == after_stream_request(old(self)@, requester),
            r == (if old(self)@.streams is Some {
                Ok::<u32, PeerError>(old(self)@.next_message_id)
            } else {
                Err(PeerError::ConnectionClosed)
            }),
    {
        let id: u32 = self.take_message_id();
        match self.stream_response_channels.take() {
            Some(mut channels) => {
                let _ = channels.insert(id, requester);
                self.stream_response_channels = Some(channels);
                Ok(id)
            },
            None => Err(PeerError::ConnectionClosed),
        }
    }

    /// Finds who gets a message. A request is answered once.
    pub fn dispatch(&mut self, responding_to: Option<u32>) -> (r: Dispatch)
        requires
            old(self).wf(),
        ensures
            final(self).wf(),
            r == dispatched(old(self)@, responding_to),
            final(self)@ == after_dispatch(old(self)@, responding_to),
    {
        let id: u32 = match responding_to {
            Some(id) => id,
            None => {
                return Dispatch::Handler;
            },
        };
        let requester: Option<u64> = match self.response_channels.take() {
            Some(mut channels) => {
                let requester = channels.remove(&id);
                self.response_channels = Some(channels);
                requester
            },
            None => {
                return Dispatch::Closed;
            },
        };
        match &self.stream_response_channels {
            None => Dispatch::Closed,
            Some(streams) => match requester {
                Some(requester) => Dispatch::Requester(requester),
                None => match streams.get(&id) {
                    Some(requester) => Dispatch::StreamRequester(*requester),
                    None => Dispatch::UnknownRequest,
                },
            },
        }
    }

    /// Decides what becomes of an answer to a request that is answered more than once.
    pub fn stream_step(&mut self, message_id: u32, payload: &Payload) -> (r: StreamStep)
        requires
            old(self).wf(),
        ensures
            final(self).wf(),
            r == (match *payload {
                Payload::Error { .. } => StreamStep::Fail,
                Payload::EndStream => StreamStep::End,
                Payload::Other(_) => StreamStep::Yield,
            }),
            final(self)@ == (if payload is EndStream && old(self)@.streams is Some {
                ConnectionModel {
                    streams: Some(old(self)@.streams->0.remove(message_id)),
                    ..old(self)@
                }
            } else {
                old(self)@
            }),
    {
        match payload {
            Payload::Error { .. } => StreamStep::Fail,
            Payload::EndStream => {
                match self.stream_response_channels.take() {
                    Some(mut channels) => {
                        let _ = channels.remove(&message_id);
                        self.stream_response_channels = Some(channels);
                    },
                    None => {},
                }
                StreamStep::End
            },
            Payload::Other(_) => StreamStep::Yield,
        }
    }

    /// Closes the connection and lists those who wait: for one answer, and for more
    /// than one.
    pub fn close(&mut self) -> (r: (Vec<u64>, Vec<u64>))
        requires
            old(self).wf(),
        ensures
            final(self).wf(),
            final(self)@ == (ConnectionModel { requests: None, streams: None, ..old(self)@ }),
            lists_waiting(r.0@, old(self)@.requests),
            lists_waiting(r.1@, old(self)@.streams),
    {
        let requesters = match self.response_channels.take() {
            Some(channels) => list_waiting(&channels),
            None => Vec::new(),
        };
        let stream_requesters = match self.stream_response_channels.take() {
            Some(channels) => list_waiting(&channels),
            None => Vec::new(),
        };
        (requesters, stream_requesters)
    }
}

/// An answer, with what is needed to answer it in turn.
#[derive(Debug)]
pub struct TypedEnvelope {
    pub message_id: u32,
    pub sender_id: PeerId,
    pub original_sender_id: Option<PeerId>,
    pub payload: Vec<u8>,
}

/// Why a request was not answered as it should be.
#[derive(Debug)]
pub enum RequestError {
    /// The other peer answered with an error.
    Rpc { code: ErrorCode, message: String },
    /// The answer is not one to the request.
    WrongType,
}

/// What the one who made a request gets of its answer.
pub fn request_envelope(receiver_id: ConnectionId, response: Envelope) -> (r: Result<
    TypedEnvelope,
    RequestError,
>)
    ensures
        r == (match response.payload {
            Payload::Error { code, message } => Err::<TypedEnvelope, RequestError>(
                RequestError::Rpc { code, message },
            ),
            Payload::EndStream => Err(RequestError::WrongType),
            Payload::Other(payload) => Ok(
                TypedEnvelope {
                    message_id: response.id,
                    sender_id: peer_of(receiver_id),
                    original_sender_id: response.original_sender_id,
                    payload,
                },
            ),
        }),
{
    match response.payload {
        Payload::Error { code, message } => Err(RequestError::Rpc { code, message }),
        Payload::EndStream => Err(RequestError::WrongType),
        Payload::Other(payload) => Ok(
            TypedEnvelope {
                message_id: response.id,
                sender_id: PeerId::from(receiver_id),
                original_sender_id: response.original_sender_id,
                payload,
            },
        ),
    }
}

/// The connections of a peer.
#[derive(Debug)]
pub struct Peer {
    pub epoch: u32,
    pub connections: VecMap<ConnectionId, ConnectionState>,
    /// Connections on which nothing is sent any more, but that have not ended yet:
    /// answers still come in on them.
    pub leaving: VecMap<ConnectionId, ConnectionState>,
    pub next_connection_id: u32,
}

/// What a peer knows.
#[verifier::ext_equal]
pub struct PeerModel {
    pub epoch: u32,
    pub connections: Map<ConnectionId, ConnectionModel>,
    pub leaving: Map<ConnectionId, ConnectionModel>,
    pub next_connection_id: u32,
}

impl View for Peer {
    type V = PeerModel;

    open spec fn view(&self) -> PeerModel {
        PeerModel {
            epoch: self.epoch,
            connections: self.connections@.map_values(|state: ConnectionState| state@),
            leaving: self.leaving@.map_values(|state: ConnectionState| state@),
            next_connection_id: self.next_connection_id,
        }
    }
}

/// A peer after something happened on one of its connections.
pub open spec fn with_connection(
    peer: PeerModel,
    id: ConnectionId,
    state: ConnectionModel,
) -> PeerModel {
    PeerModel { connections: peer.connections.insert(id, state), ..peer }
}

/// A peer after something happened on a connection that is about to end.
pub open spec fn with_leaving(
    peer: PeerModel,
    id: ConnectionId,
    state: ConnectionModel,
) -> PeerModel {
    PeerModel { leaving: peer.leaving.insert(id, state), ..peer }
}

/// A connection that has ended: nobody waits on it.
pub open spec fn ended() -> ConnectionModel {
    ConnectionModel { next_message_id: 0, requests: None, streams: None }
}

/// What waits on a connection, whether messages can be sent on it or not.
pub open spec fn state_of(peer: PeerModel, id: ConnectionId) -> ConnectionModel {
    if peer.connections.contains_key(id) {
        peer.connections[id]
    } else if peer.leaving.contains_key(id) {
        peer.leaving[id]
    } else {
        ended()
    }
}

/// A peer after a message came in on a connection.
pub open spec fn after_receiving(
    peer: PeerModel,
    id: ConnectionId,
    responding_to: Option<u32>,
) -> PeerModel {
    let state = after_dispatch(state_of(peer, id), responding_to);
    if peer.connections.contains_key(id) {
        with_connection(peer, id, state)
    } else if peer.leaving.contains_key(id) {
        with_leaving(peer, id, state)
    } else {
        peer
    }
}

/// A peer that sends nothing more on a connection.
pub open spec fn disconnected(peer: PeerModel, id: ConnectionId) -> PeerModel {
    if peer.connections.contains_key(id) {
        PeerModel {
            connections: peer.connections.remove(id),
            leaving: peer.leaving.insert(id, peer.connections[id]),
            ..peer
        }
    } else {
        peer
    }
}

/// A peer one of whose connections has ended.
pub open spec fn without_connection(peer: PeerModel, id: ConnectionId) -> PeerModel {
    if peer.connections.contains_key(id) {
        PeerModel { connections: peer.connections.remove(id), ..peer }
    } else {
        PeerModel { leaving: peer.leaving.remove(id), ..peer }
    }
}

/// Whether a message goes out as it should.
pub open spec fn is_sent(
    before: PeerModel,
    after: PeerModel,
    receiver: ConnectionId,
    responding_to: Option<u32>,
    original_sender_id: Option<PeerId>,
    payload: Payload,
    r: Result<Envelope, PeerError>,
) -> bool {
    if before.connections.contains_key(receiver) {
        let state = before.connections[receiver];
        r == Ok::<Envelope, PeerError>(
            Envelope { id: state.next_message_id, responding_to, original_sender_id, payload },
        ) && after == with_connection(before, receiver, after_message(state))
    } else {
        r == Err::<Envelope, PeerError>(PeerError::NoSuchConnection(receiver)) && after == before
    }
}

/// Whether a request goes out as it should.
pub open spec fn is_requested(
    before: PeerModel,
    after: PeerModel,
    receiver: ConnectionId,
    original_sender_id: Option<PeerId>,
    payload: Payload,
    requester: u64,
    r: Result<Envelope, PeerError>,
) -> bool {
    if before.connections.contains_key(receiver) {
        let state = before.connections[receiver];
        after == with_connection(before, receiver, after_request(state, requester)) && r == (
        if state.requests is Some {
            Ok::<Envelope, PeerError>(
                Envelope {
                    id: state.next_message_id,
                    responding_to: None,
                    original_sender_id,
                    payload,
                },
            )
        } else {
            Err(PeerError::ConnectionClosed)
        })
    } else {
        r == Err::<Envelope, PeerError>(PeerError::NoSuchConnection(receiver)) && after == before
    }
}

/// What a peer is told of a message that it sent and nobody handled.
pub open spec fn unhandled_text(message_type_name: Seq<char>) -> Seq<char> {
    "message "@ + message_type_name + " was not handled"@
}

impl Peer {
    pub open spec fn wf(&self) -> bool {
        &&& self.connections.wf()
        &&& self.leaving.wf()
        &&& forall|id: ConnectionId| #[trigger]
            self.connections@.contains_key(id) ==> self.connections@[id].wf()
        &&& forall|id: ConnectionId| #[trigger]
            self.leaving@.contains_key(id) ==> self.leaving@[id].wf()
    }

    pub fn new(epoch: u32) -> (r: Peer)
        ensures
            r.wf(),
            r@ == (PeerModel {
                epoch,
                connections: Map::empty(),
                leaving: Map::empty(),
                next_connection_id: 0,
            }),
    {
        let r = Peer {
            epoch,
            connections: VecMap::new(),
            leaving: VecMap::new(),
            next_connection_id: 0,
        };
        assert(r@.connections =~= Map::empty());
        assert(r@.leaving =~= Map::empty());
        r
    }

    pub fn epoch(&self) -> (r: u32)
        ensures
            r == self@.epoch,
    {
        self.epoch
    }

    /// Adds a connection on which nothing waits.
    pub fn add_connection(&mut self) -> (r: ConnectionId)
        requires
            old(self).wf(),
        ensures
            final(self).wf(),
            r == (ConnectionId { owner_id: old(self)@.epoch, id: old(self)@.next_connection_id }),
            final(self)@ == (PeerModel {
                next_connection_id: next_id(old(self)@.next_connection_id),
                ..with_connection(
                    old(self)@,
                    r,
                    ConnectionModel {
                        next_message_id: 0,
                        requests: Some(Map::empty()),
                        streams: Some(Map::empty()),
                    },
                )
            }),
    {
        let id = ConnectionId { owner_id: self.epoch, id: self.next_connection_id };
        self.next_connection_id = id_after(self.next_connection_id);
        let _ = self.connections.insert(id, ConnectionState::new());
        assert(self@.connections =~= old(self)@.connections.insert(
            id,
            ConnectionModel {
                next_message_id: 0,
                requests: Some(Map::empty()),
                streams: Some(Map::empty()),
            },
        ));
        id
    }

    /// Sends nothing more on a connection. What waits on it waits until the connection has
    /// ended.
    pub fn disconnect(&mut self, connection_id: ConnectionId)
        requires
            old(self).wf(),
        ensures
            final(self).wf(),
            final(self)@ == disconnected(old(self)@, connection_id),
    {
        match self.connections.remove(&connection_id) {
            Some(state) => {
                let _ = self.leaving.insert(connection_id, state);
                assert(self@.connections =~= old(self)@.connections.remove(connection_id));
                assert(self@.leaving =~= old(self)@.leaving.insert(
                    connection_id,
                    old(self)@.connections[connection_id],
                ));
            },
            None => {
                assert(self@.connections =~= old(self)@.connections);
            },
        }
    }

    /// Sends nothing more on any connection. What waits on one waits until it has ended.
    pub fn teardown(&mut self)
        requires
            old(self).wf(),
        ensures
            final(self).wf(),
            final(self)@ == (PeerModel {
                connections: Map::empty(),
                leaving: old(self)@.leaving.union_prefer_right(old(self)@.connections),
                ..old(self)@
            }),
    {
        let ids = self.connections.keys();
        let ghost before = self@;
        assert(ids@.skip(0) =~= ids@);
        assert(ids@.take(0) =~= Seq::empty());
        let mut i: usize = 0;
        while i < ids.len()
            invariant
                i <= ids@.len(),
                ids@.no_duplicates(),
                forall|id: ConnectionId| #[trigger]
                    ids@.contains(id) == before.connections.contains_key(id),
                self.wf(),
                self@.epoch == before.epoch,
                self@.next_connection_id == before.next_connection_id,
                forall|id: ConnectionId| #[trigger]
                    self@.connections.contains_key(id) == ids@.skip(i as int).contains(id),
                forall|id: ConnectionId| #[trigger]
                    self@.connections.contains_key(id) ==> self@.connections[id]
                        == before.connections[id],
                forall|id: ConnectionId| #[trigger]
                    self@.leaving.contains_key(id) == (before.leaving.contains_key(id)
                        || ids@.take(i as int).contains(id)),
                forall|id: ConnectionId| #[trigger]
                    self@.leaving.contains_key(id) ==> self@.leaving[id] == (if ids@.take(
                        i as int,
                    ).contains(id) {
                        before.connections[id]
                    } else {
                        before.leaving[id]
                    }),
            decreases ids.len() - i,
        {
            let id = ids[i];
            proof {
                let rest = ids@.skip(i as int);
                let done = ids@.take(i as int);
                let left = ids@.skip(i + 1);
                let taken = ids@.take(i + 1);
                assert(rest[0] == id);
                assert(rest.contains(id));
                assert forall|other: ConnectionId| #[trigger]
                    left.contains(other) == (rest.contains(other) && other != id) by {
                    if left.contains(other) {
                        let k: int = choose|k: int|
                            0 <= k < left.len() && left[k] == other;
                        assert(rest[k + 1] == other);
                        assert(ids@[i + 1 + k] == other);
                    }
                    if rest.contains(other) && other != id {
                        let k: int = choose|k: int| 0 <= k < rest.len() && rest[k] == other;
                        assert(left[k - 1] == other);
                    }
                }
                assert forall|other: ConnectionId| #[trigger]
                    taken.contains(other) == (done.contains(other) || other == id) by {
                    if taken.contains(other) {
                        let k: int = choose|k: int|
                            0 <= k < taken.len() && taken[k] == other;
                        if k < i {
                            assert(done[k] == other);
                        }
                    }
                    if done.contains(other) {
                        let k: int = choose|k: int| 0 <= k < done.len() && done[k] == other;
                        assert(taken[k] == other);
                    }
                    assert(taken[i as int] == id);
                }
            }
            self.disconnect(id);
            i = i + 1;
        }
        proof {
            assert(ids@.take(i as int) =~= ids@);
            assert(ids@.skip(i as int) =~= Seq::empty());
            assert(self@.connections =~= Map::empty());
            assert(self@.leaving =~= before.leaving.union_prefer_right(before.connections));
        }
    }

    /// Closes a connection that has ended, forgets it and lists those who wait for
    /// answers.
    pub fn end_connection(&mut self, connection_id: ConnectionId) -> (r: (Vec<u64>, Vec<u64>))
        requires
            old(self).wf(),
        ensures
            final(self).wf(),
            final(self)@ == without_connection(old(self)@, connection_id),
            lists_waiting(r.0@, state_of(old(self)@, connection_id).requests),
            lists_waiting(r.1@, state_of(old(self)@, connection_id).streams),
    {
        match self.connections.remove(&connection_id) {
            Some(mut state) => {
                assert(self@.connections =~= old(self)@.connections.remove(connection_id));
                state.close()
            },
            None => {
                assert(self@.connections =~= old(self)@.connections);
                let left = self.leaving.remove(&connection_id);
                assert(self@.leaving =~= old(self)@.leaving.remove(connection_id));
                match left {
                    Some(mut state) => state.close(),
                    None => (Vec::new(), Vec::new()),
                }
            },
        }
    }

    /// Finds who gets a message that came in on a connection, also where nothing is sent
    /// on it any more. Once it has ended nobody waits for answers.
    pub fn receive(&mut self, connection_id: ConnectionId, responding_to: Option<u32>) -> (r:
        Dispatch)
        requires
            old(self).wf(),
        ensures
            final(self).wf(),
            r == dispatched(state_of(old(self)@, connection_id), responding_to),
            final(self)@ == after_receiving(old(self)@, connection_id, responding_to),
    {
        match self.connections.remove(&connection_id) {
            Some(mut state) => {
                let dispatch = state.dispatch(responding_to);
                let _ = self.connections.insert(connection_id, state);
                assert(self@.connections =~= old(self)@.connections.insert(
                    connection_id,
                    after_dispatch(old(self)@.connections[connection_id], responding_to),
                ));
                dispatch
            },
            None => {
                assert(self@.connections =~= old(self)@.connections);
                match self.leaving.remove(&connection_id) {
                    Some(mut state) => {
                        let dispatch = state.dispatch(responding_to);
                        let _ = self.leaving.insert(connection_id, state);
                        assert(self@.leaving =~= old(self)@.leaving.insert(
                            connection_id,
                            after_dispatch(old(self)@.leaving[connection_id], responding_to),
                        ));
                        dispatch
                    },
                    None => {
                        assert(self@.leaving =~= old(self)@.leaving);
                        match responding_to {
                            Some(_) => Dispatch::Closed,
                            None => Dispatch::Handler,
                        }
                    },
                }
            },
        }
    }

    fn send_envelope(
        &mut self,
        receiver: ConnectionId,
        responding_to: Option<u32>,
        original_sender_id: Option<PeerId>,
        payload: Payload,
    ) -> (r: Result<Envelope, PeerError>)
        requires
            old(self).wf(),
        ensures
            final(self).wf(),
            is_sent(
                old(self)@,
                final(self)@,
                receiver,
                responding_to,
                original_sender_id,
                payload,
                r,
            ),
    {
        match self.connections.remove(&receiver) {
            Some(mut state) => {
                let id: u32 = state.take_message_id();
                let _ = self.connections.insert(receiver, state);
                assert(self@.connections =~= old(self)@.connections.insert(
                    receiver,
                    after_message(old(self)@.connections[receiver]),
                ));
                Ok(Envelope { id, responding_to, original_sender_id, payload })
            },
            None => {
                assert(self@.connections =~= old(self)@.connections);
                Err(PeerError::NoSuchConnection(receiver))
            },
        }
    }

    /// The message of a request, for an answer to which a requester waits.
    pub fn request_internal(
        &mut self,
        original_sender_id: Option<ConnectionId>,
        receiver_id: ConnectionId,
        payload: Payload,
        requester: u64,
    ) -> (r: Result<Envelope, PeerError>)
        requires
            old(self).wf(),
        ensures
            final(self).wf(),
            is_requested(
                old(self)@,
                final(self)@,
                receiver_id,
                (match original_sender_id {
                    Some(id) => Some(peer_of(id)),
                    None => None,
                }),
                payload,
                requester,
                r,
            ),
    {
        let original: Option<PeerId> = match original_sender_id {
            Some(id) => Some(PeerId::from(id)),
            None => None,
        };
        match self.connections.remove(&receiver_id) {
            Some(mut state) => {
                let begun = state.begin_request(requester);
                let _ = self.connections.insert(receiver_id, state);
                assert(self@.connections =~= old(self)@.connections.insert(
                    receiver_id,
                    after_request(old(self)@.connections[receiver_id], requester),
                ));
                match begun {
                    Ok(id) => Ok(
                        Envelope { id, responding_to: None, original_sender_id: original, payload },
                    ),
                    Err(error) => Err(error),
                }
            },
            None => {
                assert(self@.connections =~= old(self)@.connections);
                Err(PeerError::NoSuchConnection(receiver_id))
            },
        }
    }

    /// The message of a request.
    pub fn request(&mut self, receiver_id: ConnectionId, payload: Payload, requester: u64) -> (r:
        Result<Envelope, PeerError>)
        requires
            old(self).wf(),
        ensures
            final(self).wf(),
            is_requested(old(self)@, final(self)@, receiver_id, None, payload, requester, r),
    {
        self.request_internal(None, receiver_id, payload, requester)
    }

    /// The message of a request that was made by another peer.
    pub fn forward_request(
        &mut self,
        sender_id: ConnectionId,
        receiver_id: ConnectionId,
        payload: Payload,
        requester: u64,
    ) -> (r: Result<Envelope, PeerError>)
        requires
            old(self).wf(),
        ensures
            final(self).wf(),
            is_requested(
                old(self)@,
                final(self)@,
                receiver_id,
                Some(peer_of(sender_id)),
                payload,
                requester,
                r,
            ),
    {
        self.request_internal(Some(sender_id), receiver_id, payload, requester)
    }

    /// The message of a request that was put in an envelope already. Only its id is
    /// set.
    pub fn request_dynamic(
        &mut self,
        receiver_id: ConnectionId,
        envelope: Envelope,
        requester: u64,
    ) -> (r: Result<Envelope, PeerError>)
        requires
            old(self).wf(),
        ensures
            final(self).wf(),
            if old(self)@.connections.contains_key(receiver_id) {
                let state = old(self)@.connections[receiver_id];
                final(self)@ == with_connection(
                    old(self)@,
                    receiver_id,
                    after_request(state, requester),
                ) && r == (if state.requests is Some {
                    Ok::<Envelope, PeerError>(
                        Envelope { id: state.next_message_id, ..envelope },
                    )
                } else {
                    Err(PeerError::ConnectionClosed)
                })
            } else {
                r == Err::<Envelope, PeerError>(PeerError::NoSuchConnection(receiver_id))
                    && final(self)@ == old(self)@
            },
    {
        let Envelope { id: _, responding_to, original_sender_id, payload } = envelope;
        match self.request(receiver_id, payload, requester) {
            Ok(sent) => Ok(
                Envelope { id: sent.id, responding_to, original_sender_id, payload: sent.payload },
            ),
            Err(error) => Err(error),
        }
    }

    /// The message of a request that is answered more than once.
    pub fn request_stream(
        &mut self,
        receiver_id: ConnectionId,
        payload: Payload,
        requester: u64,
    ) -> (r: Result<Envelope, PeerError>)
        requires
            old(self).wf(),
        ensures
            final(self).wf(),
            if old(self)@.connections.contains_key(receiver_id) {
                let state = old(self)@.connections[receiver_id];
                final(self)@ == with_connection(
                    old(self)@,
                    receiver_id,
                    after_stream_request(state, requester),
                ) && r == (if state.streams is Some {
                    Ok::<Envelope, PeerError>(
                        Envelope {
                            id: state.next_message_id,
                            responding_to: None,
                            original_sender_id: None,
                            payload,
                        },
                    )
                } else {
                    Err(PeerError::ConnectionClosed)
                })
            } else {
                r == Err::<Envelope, PeerError>(PeerError::NoSuchConnection(receiver_id))
                    && final(self)@ == old(self)@
            },
    {
        match self.connections.remove(&receiver_id) {
            Some(mut state) => {
                let begun = state.begin_stream(requester);
                let _ = self.connections.insert(receiver_id, state);
                assert(self@.connections =~= old(self)@.connections.insert(
                    receiver_id,
                    after_stream_request(old(self)@.connections[receiver_id], requester),
                ));
                match begun {
                    Ok(id) => Ok(
                        Envelope { id, responding_to: None, original_sender_id: None, payload },
                    ),
                    Err(error) => Err(error),
                }
            },
            None => {
                assert(self@.connections =~= old(self)@.connections);
                Err(PeerError::NoSuchConnection(receiver_id))
            },
        }
    }

    /// A message that is not answered.
    pub fn send(&mut self, receiver_id: ConnectionId, payload: Payload) -> (r: Result<
        Envelope,
        PeerError,
    >)
        requires
            old(self).wf(),
        ensures
            final(self).wf(),
            is_sent(old(self)@, final(self)@, receiver_id, None, None, payload, r),
    {
        self.send_envelope(receiver_id, None, None, payload)
    }

    /// A message that was put in an envelope already goes out as it is.
    pub fn send_dynamic(&self, receiver_id: ConnectionId, message: Envelope) -> (r: Result<
        Envelope,
        PeerError,
    >)
        requires
            self.wf(),
        ensures
            r == (if self@.connections.contains_key(receiver_id) {
                Ok::<Envelope, PeerError>(message)
            } else {
                Err(PeerError::NoSuchConnection(receiver_id))
            }),
    {
        if self.connections.contains_key(&receiver_id) {
            Ok(message)
        } else {
            Err(PeerError::NoSuchConnection(receiver_id))
        }
    }

    /// A message of another peer that is not answered.
    pub fn forward_send(
        &mut self,
        sender_id: ConnectionId,
        receiver_id: ConnectionId,
        payload: Payload,
    ) -> (r: Result<Envelope, PeerError>)
        requires
            old(self).wf(),
        ensures
            final(self).wf(),
            is_sent(
                old(self)@,
                final(self)@,
                receiver_id,
                None,
                Some(peer_of(sender_id)),
                payload,
                r,
            ),
    {
        self.send_envelope(receiver_id, None, Some(PeerId::from(sender_id)), payload)
    }

    /// An answer.
    pub fn respond(&mut self, receipt: Receipt, payload: Payload) -> (r: Result<Envelope, PeerError>)
        requires
            old(self).wf(),
        ensures
            final(self).wf(),
            is_sent(
                old(self)@,
                final(self)@,
                connection_of(receipt.sender_id),
                Some(receipt.message_id),
                None,
                payload,
                r,
            ),
    {
        self.send_envelope(
            ConnectionId::from(receipt.sender_id),
            Some(receipt.message_id),
            None,
            payload,
        )
    }

    /// The end of the answers to a request.
    pub fn end_stream(&mut self, receipt: Receipt) -> (r: Result<Envelope, PeerError>)
        requires
            old(self).wf(),
        ensures
            final(self).wf(),
            is_sent(
                old(self)@,
                final(self)@,
                connection_of(receipt.sender_id),
                Some(receipt.message_id),
                None,
                Payload::EndStream,
                r,
            ),
    {
        self.respond(receipt, Payload::EndStream)
    }

    /// An error for an answer.
    pub fn respond_with_error(&mut self, receipt: Receipt, code: ErrorCode, message: String) -> (r:
        Result<Envelope, PeerError>)
        requires
            old(self).wf(),
        ensures
            final(self).wf(),
            is_sent(
                old(self)@,
                final(self)@,
                connection_of(receipt.sender_id),
                Some(receipt.message_id),
                None,
                Payload::Error { code, message },
                r,
            ),
    {
        self.respond(receipt, Payload::Error { code, message })
    }

    /// The answer to a request that nobody handled.
    pub fn respond_with_unhandled_message(
        &mut self,
        sender_id: ConnectionId,
        request_message_id: u32,
        message_type_name: &str,
    ) -> (r: Result<Envelope, PeerError>)
        requires
            old(self).wf(),
        ensures
            final(self).wf(),
            exists|message: String|
                message@ == unhandled_text(message_type_name@) && #[trigger] is_sent(
                    old(self)@,
                    final(self)@,
                    sender_id,
                    Some(request_message_id),
                    None,
                    Payload::Error { code: ErrorCode::Internal, message },
                    r,
                ),
    {
        let mut message = copy_text("message ");
        message.push_str(message_type_name);
        message.push_str(" was not handled");
        let ghost text = message;
        assert(text@ == unhandled_text(message_type_name@));
        let r = self.send_envelope(
            sender_id,
            Some(request_message_id),
            None,
            Payload::Error { code: ErrorCode::Internal, message },
        );
        assert(is_sent(
            old(self)@,
            self@,
            sender_id,
            Some(request_message_id),
            None,
            Payload::Error { code: ErrorCode::Internal, message: text },
            r,
        ));
        r
    }
}

/// A connection and the peer it leads to are named alike.
pub proof fn law_peer_id_round_trip(id: ConnectionId)
    ensures
        connection_of(peer_of(id)) == id,
{
}

/// The answer to a request reaches the one who made it.
pub proof fn law_answer_reaches_the_requester(state: ConnectionModel, requester: u64)
    requires
        state.requests is Some,
        state.streams is Some,
    ensures
        dispatched(after_request(state, requester), Some(state.next_message_id))
            == Dispatch::Requester(requester),
{
}

/// Every answer to a request that is answered more than once reaches the one who made
/// it, as long as no plain request waits under the id of its message.
pub proof fn law_answers_reach_the_stream(state: ConnectionModel, requester: u64)
    requires
        state.requests is Some,
        state.streams is Some,
        !state.requests->0.contains_key(state.next_message_id),
    ensures
        dispatched(after_stream_request(state, requester), Some(state.next_message_id))
            == Dispatch::StreamRequester(requester),
        dispatched(
            after_dispatch(after_stream_request(state, requester), Some(state.next_message_id)),
            Some(state.next_message_id),
        ) == Dispatch::StreamRequester(requester),
{
}

/// A request is answered at most once.
pub proof fn law_second_answer_is_not_delivered(state: ConnectionModel, id: u32)
    ensures
        !(dispatched(after_dispatch(state, Some(id)), Some(id)) is Requester),
{
}

/// An answer leaves the requests alone that it does not answer.
pub proof fn law_other_requests_keep_waiting(state: ConnectionModel, answered: u32, other: u32)
    requires
        answered != other,
    ensures
        dispatched(after_dispatch(state, Some(answered)), Some(other)) == dispatched(
            state,
            Some(other),
        ),
{
    if let Some(requests) = state.requests {
        assert(requests.remove(answered).contains_key(other) == requests.contains_key(other));
    }
}

/// Those who wait on a connection keep waiting where nothing is sent on it any more:
/// answers that still come in reach them.
pub proof fn law_answers_outlive_sending(peer: PeerModel, id: ConnectionId, responding_to: Option<u32>)
    ensures
        dispatched(state_of(disconnected(peer, id), id), responding_to) == dispatched(
            state_of(peer, id),
            responding_to,
        ),
{
}

/// A message that answers nothing is handed on, whatever became of its connection.
pub proof fn law_messages_are_handed_on(peer: PeerModel, id: ConnectionId)
    ensures
        dispatched(state_of(peer, id), None) == Dispatch::Handler,
{
}

/// The id of the message after some messages.
pub open spec fn id_after_messages(id: u32, count: nat) -> u32
    decreases count,
{
    if count == 0 {
        id
    } else {
        next_id(id_after_messages(id, (count - 1) as nat))
    }
}

proof fn lemma_id_after_messages(id: u32, count: nat)
    ensures
        id_after_messages(id, count) as int == (id + count) % 0x1_0000_0000,
    decreases count,
{
    if count > 0 {
        lemma_id_after_messages(id, (count - 1) as nat);
    }
}

/// Fewer than two to the power of 32 messages of a connection have different ids.
pub proof fn law_message_ids_differ(id: u32, first: nat, second: nat)
    requires
        first < second < first + 0x1_0000_0000,
    ensures
        id_after_messages(id, first) != id_after_messages(id, second),
{
    lemma_id_after_messages(id, first);
    lemma_id_after_messages(id, second);
}

/// What a peer sends: the message with the next number of its connection, in answer to what it
/// answers and in the name of whom it speaks for. Nothing is sent without the connection, and
/// the others stay as they are.
pub proof fn law_messages_are_sent_as_given(
    a: &mut Peer,
    b: &mut Peer,
    c: &mut Peer,
    d: &mut Peer,
    receiver: ConnectionId,
    sender: ConnectionId,
    receipt: Receipt,
    payload: Payload,
    code: ErrorCode,
    message: String,
    sent: Result<Envelope, PeerError>,
    forwarded: Result<Envelope, PeerError>,
    answer: Result<Envelope, PeerError>,
    failed: Result<Envelope, PeerError>,
)
    requires
        call_ensures(Peer::send, (a, receiver, payload), sent),
        call_ensures(Peer::forward_send, (b, sender, receiver, payload), forwarded),
        call_ensures(Peer::respond, (c, receipt, payload), answer),
        call_ensures(Peer::respond_with_error, (d, receipt, code, message), failed),
    ensures
        sent is Ok == old(a)@.connections.contains_key(receiver),
        sent matches Ok(envelope) ==> envelope.id
            == old(a)@.connections[receiver].next_message_id && envelope.responding_to is None
            && envelope.original_sender_id is None && envelope.payload == payload,
        sent matches Err(error) ==> error == PeerError::NoSuchConnection(receiver) && final(a)@
            == old(a)@,
        sent is Ok && old(a)@.connections[receiver].next_message_id < u32::MAX ==> final(
            a
        )@.connections[receiver].next_message_id
            == old(a)@.connections[receiver].next_message_id + 1,
        sent is Ok ==> final(a)@.connections[receiver].requests
            == old(a)@.connections[receiver].requests && final(a)@.connections[receiver].streams
            == old(a)@.connections[receiver].streams,
        final(a)@.connections.dom() == old(a)@.connections.dom(),
        forall|other: ConnectionId|
            other != receiver && #[trigger] old(a)@.connections.contains_key(other) ==> final(
                a
            )@.connections[other] == old(a)@.connections[other],
        forwarded matches Ok(envelope) ==> envelope.original_sender_id == Some(
            PeerId { owner_id: sender.owner_id, id: sender.id },
        ) && envelope.responding_to is None && envelope.payload == payload && envelope.id
            == old(b)@.connections[receiver].next_message_id,
        ({
            let asked = ConnectionId {
                owner_id: receipt.sender_id.owner_id,
                id: receipt.sender_id.id,
            };
            &&& answer is Ok == old(c)@.connections.contains_key(asked)
            &&& failed is Ok == old(d)@.connections.contains_key(asked)
            &&& answer matches Ok(envelope) ==> envelope.responding_to == Some(receipt.message_id)
                && envelope.payload == payload && envelope.original_sender_id is None
            &&& failed matches Ok(envelope) ==> envelope.responding_to == Some(receipt.message_id)
                && envelope.payload == (Payload::Error { code, message })
            &&& answer matches Err(error) ==> error == PeerError::NoSuchConnection(asked)
        }),
{
    assert(final(a)@.connections.dom() =~= old(a)@.connections.dom());
}

/// What a peer asks for: the request with the next number of its connection, after which the
/// one who asks waits under that number. A connection that was closed takes none.
pub proof fn law_requests_wait_for_their_answer(
    a: &mut Peer,
    b: &mut Peer,
    c: &mut Peer,
    d: &mut Peer,
    receiver: ConnectionId,
    sender: ConnectionId,
    payload: Payload,
    requester: u64,
    envelope: Envelope,
    asked: Result<Envelope, PeerError>,
    forwarded: Result<Envelope, PeerError>,
    passed: Result<Envelope, PeerError>,
    stream: Result<Envelope, PeerError>,
)
    requires
        call_ensures(Peer::request, (a, receiver, payload, requester), asked),
        call_ensures(Peer::forward_request, (b, sender, receiver, payload, requester), forwarded),
        call_ensures(Peer::request_dynamic, (c, receiver, envelope, requester), passed),
        call_ensures(Peer::request_stream, (d, receiver, payload, requester), stream),
        old(b)@ == old(a)@ && old(c)@ == old(a)@ && old(d)@ == old(a)@,
    ensures
        !old(a)@.connections.contains_key(receiver) ==> asked == Err::<Envelope, PeerError>(
            PeerError::NoSuchConnection(receiver),
        ) && forwarded == asked && passed == asked && stream == asked && final(a)@ == old(a)@
            && final(d)@ == old(a)@,
        old(a)@.connections.contains_key(receiver) ==> {
            let before = old(a)@.connections[receiver];
            let number = before.next_message_id;
            let after = final(a)@.connections[receiver];
            let after_stream = final(d)@.connections[receiver];
            &&& before.requests is None ==> asked == Err::<Envelope, PeerError>(
                PeerError::ConnectionClosed,
            )
            &&& before.requests is Some ==> {
                &&& asked is Ok && asked->Ok_0.id == number && asked->Ok_0.responding_to is None
                    && asked->Ok_0.original_sender_id is None && asked->Ok_0.payload == payload
                &&& forwarded is Ok && forwarded->Ok_0.id == number
                    && forwarded->Ok_0.original_sender_id == Some(
                    PeerId { owner_id: sender.owner_id, id: sender.id },
                ) && forwarded->Ok_0.payload == payload
                &&& passed is Ok && passed->Ok_0.id == number && passed->Ok_0.payload
                    == envelope.payload && passed->Ok_0.responding_to == envelope.responding_to
                    && passed->Ok_0.original_sender_id == envelope.original_sender_id
                &&& after.requests is Some && after.requests->0 == before.requests->0.insert(
                    number,
                    requester,
                )
                &&& after.streams == before.streams
                &&& final(b)@ == final(a)@ && final(c)@ == final(a)@
            }
            &&& before.streams is Some ==> {
                &&& stream is Ok && stream->Ok_0.id == number && stream->Ok_0.payload == payload
                &&& after_stream.streams is Some && after_stream.streams->0
                    == before.streams->0.insert(number, requester)
                &&& after_stream.requests == before.requests
            }
            &&& before.streams is None ==> stream == Err::<Envelope, PeerError>(
                PeerError::ConnectionClosed,
            )
            &&& after.next_message_id != number && after_stream.next_message_id != number
        },
{
}

/// A message that comes in goes to the handler, unless it answers a request: then it goes to
/// the one who waits for it, and a request is answered once while a stream goes on. What
/// nobody waits for is unknown.
pub proof fn law_answers_go_to_who_waits(
    peer: &mut Peer,
    at: ConnectionId,
    responding_to: Option<u32>,
    r: Dispatch,
)
    requires
        call_ensures(Peer::receive, (peer, at, responding_to), r),
        old(peer)@.connections.contains_key(at),
        old(peer)@.connections[at].requests is Some,
        old(peer)@.connections[at].streams is Some,
    ensures
        ({
            let requests = old(peer)@.connections[at].requests->0;
            let streams = old(peer)@.connections[at].streams->0;
            let after = final(peer)@.connections[at];
            &&& responding_to is None ==> r == Dispatch::Handler && after
                == old(peer)@.connections[at]
            &&& responding_to matches Some(id) ==> {
                &&& requests.contains_key(id) ==> r == Dispatch::Requester(requests[id])
                    && after.requests is Some && after.requests->0 == requests.remove(id)
                &&& !requests.contains_key(id) && streams.contains_key(id) ==> r
                    == Dispatch::StreamRequester(streams[id])
                &&& !requests.contains_key(id) && !streams.contains_key(id) ==> r
                    == Dispatch::UnknownRequest
                &&& after.streams == Some(streams)
                &&& after.next_message_id == old(peer)@.connections[at].next_message_id
            }
        }),
{
    if let Some(id) = responding_to {
        let requests = old(peer)@.connections[at].requests->0;
        if !requests.contains_key(id) {
            assert(requests.remove(id) =~= requests);
        }
    }
}

/// Connections come and go one by one: a new one has a number of its own and nobody waiting,
/// one that is disconnected takes no more messages but still answers, and one that ends is
/// gone with all who waited.
pub proof fn law_connections_come_and_go(
    a: &mut Peer,
    b: &mut Peer,
    c: &mut Peer,
    d: &mut Peer,
    id: ConnectionId,
    other: ConnectionId,
    added: ConnectionId,
    waiting: (Vec<u64>, Vec<u64>),
)
    requires
        other != id && other != added,
        call_ensures(Peer::add_connection, (a,), added),
        call_ensures(Peer::disconnect, (b, id), ()),
        call_ensures(Peer::end_connection, (c, id), waiting),
        call_ensures(Peer::teardown, (d,), ()),
    ensures
        added.owner_id == old(a)@.epoch && added.id == old(a)@.next_connection_id,
        final(a)@.connections.contains_key(added) && final(a)@.connections[added].next_message_id
            == 0 && final(a)@.connections[added].requests == Some(Map::<u32, u64>::empty())
            && final(a)@.connections[added].streams == Some(Map::<u32, u64>::empty()),
        old(a)@.next_connection_id < u32::MAX ==> final(a)@.next_connection_id
            == old(a)@.next_connection_id + 1,
        final(a)@.connections.contains_key(other) == old(a)@.connections.contains_key(other),
        !final(b)@.connections.contains_key(id),
        old(b)@.connections.contains_key(id) ==> final(b)@.leaving.contains_key(id) && final(
            b
        )@.leaving[id] == old(b)@.connections[id],
        final(b)@.connections.contains_key(other) == old(b)@.connections.contains_key(other),
        old(c)@.connections.contains_key(id) ==> !final(c)@.connections.contains_key(id) && final(
            c
        )@.leaving == old(c)@.leaving,
        !old(c)@.connections.contains_key(id) ==> !final(c)@.leaving.contains_key(id) && final(
            c
        )@.connections == old(c)@.connections,
        final(c)@.connections.contains_key(other) == old(c)@.connections.contains_key(other),
        !final(d)@.connections.contains_key(id),
        old(d)@.connections.contains_key(id) ==> final(d)@.leaving.contains_key(id) && final(
            d
        )@.leaving[id] == old(d)@.connections[id],
        final(d)@.epoch == old(d)@.epoch && final(d)@.next_connection_id
            == old(d)@.next_connection_id,
{
}

/// The texts of connections and of what went wrong, and what an answer to a request stands
/// for.
pub proof fn law_texts_and_answers(
    id: ConnectionId,
    shown: String,
    missing: String,
    closed: String,
    response: Envelope,
    r: Result<TypedEnvelope, RequestError>,
)
    requires
        call_ensures(ConnectionId::text, (&id,), shown),
        call_ensures(PeerError::text, (&PeerError::NoSuchConnection(id),), missing),
        call_ensures(PeerError::text, (&PeerError::ConnectionClosed,), closed),
        call_ensures(request_envelope, (id, response), r),
    ensures
        shown@ == decimal(id.owner_id as nat) + seq!['/'] + decimal(id.id as nat),
        missing@ == "no such connection: "@ + shown@,
        closed@ == "connection was closed"@,
        response.payload matches Payload::Error { code, message } ==> r == Err::<
            TypedEnvelope,
            RequestError,
        >(RequestError::Rpc { code, message }),
        response.payload is EndStream ==> r == Err::<TypedEnvelope, RequestError>(
            RequestError::WrongType,
        ),
        response.payload matches Payload::Other(bytes) ==> (r matches Ok(message)
            && message.message_id == response.id && message.sender_id.owner_id == id.owner_id
            && message.sender_id.id == id.id && message.original_sender_id
            == response.original_sender_id && message.payload == bytes),
{
}

/// The sender of a message that nobody handles is told so in answer to it.
pub proof fn law_unhandled_messages_are_answered(
    peer: &mut Peer,
    sender: ConnectionId,
    id: u32,
    name: &str,
    r: Result<Envelope, PeerError>,
)
    requires
        call_ensures(Peer::respond_with_unhandled_message, (peer, sender, id, name), r),
    ensures
        r is Ok <==> old(peer)@.connections.contains_key(sender),
        r matches Ok(sent) ==> sent.responding_to == Some(id) && (sent.payload
            matches Payload::Error { code, message } && code == ErrorCode::Internal && message@
            == "message "@ + name@ + " was not handled"@),
{
}

/// A connection is written as its owner and its number, and an error names the connection that
/// it is about.
pub proof fn law_peer_errors_in_words(id: ConnectionId, written: String, missing: String, closed: String)
    requires
        call_ensures(ConnectionId::text, (&id,), written),
        call_ensures(PeerError::text, (&PeerError::NoSuchConnection(id),), missing),
        call_ensures(PeerError::text, (&PeerError::ConnectionClosed,), closed),
    ensures
        written@ == decimal(id.owner_id as nat) + seq!['/'] + decimal(id.id as nat),
        missing@ == "no such connection: "@ + written@,
        closed@ == "connection was closed"@,
{
}

} // verus!
