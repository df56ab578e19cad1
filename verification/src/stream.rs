//! One multiplexed stream: its state machine, buffers and windows.
//!
//! A stream is the control object of one logical channel to a peer. It
//! carries bytes and record boundaries in both directions, closes each
//! direction on its own, and can be reset at any time. Streams live in the
//! arena of their peer session; a stream names its parent by slot and holds
//! no other stream.
//!
//! The logical state is what the application sees. What is still owed to the
//! peer (queued data, an end-of-stream marker) is kept beside it, so that a
//! stream that was closed or disconnected goes on draining in the
//! background.

use vstd::prelude::*;
use crate::queue::{
    byte_count, lemma_taken_accounts, taken_data, taken_ends_record, taken_rest, units_of, Chunk,
    RecordQueue, Unit,
};

verus! {

/// The logical state of a stream.
#[derive(Clone, Copy, Debug, PartialEq, Eq, Structural)]
pub enum StreamState {
    /// Bound to no peer.
    Unconnected,
    /// Opened towards a peer that has not yet agreed to carry it.
    Connecting,
    /// Open in both directions.
    Connected,
    /// The read direction is closed, the write direction open.
    ReadClosed,
    /// The write direction is closed, the read direction open.
    WriteClosed,
    /// Both directions are closed gracefully.
    Closed,
    /// Abandoned. Terminal.
    Reset,
}

/// What to shut down.
#[derive(Clone, Copy, Debug, PartialEq, Eq, Structural)]
pub enum ShutdownMode {
    /// Discard what was received and what will be.
    Read,
    /// Send an end-of-stream marker behind the data already written.
    Write,
    /// Both `Read` and `Write`.
    Close,
    /// Give the stream up at once, losing what is still buffered.
    Reset,
}

/// How a stream treats substreams that the peer offers.
#[derive(Clone, Copy, Debug, PartialEq, Eq, Structural)]
pub enum ListenMode {
    /// Offers are refused.
    Reject,
    /// Offers are queued while fewer than this many wait to be accepted.
    BufferLimit(usize),
    /// Offers are always queued.
    Unlimited,
}

/// Why an operation on a stream did nothing.
#[derive(Clone, Copy, Debug, PartialEq, Eq, Structural)]
pub enum StreamError {
    /// The stream is bound to no peer.
    NotConnected,
    /// The direction that the operation needs is closed.
    DirectionClosed,
    /// The data does not fit the receive window; it was dropped.
    WindowExceeded,
    /// The transmit queue cannot grow any further.
    QueueFull,
    /// The stream was reset.
    StreamReset,
    /// The stream does not take substreams.
    OfferRejected,
    /// Another stream of the session has the identifier.
    UsidInUse,
    /// The session holds no such stream.
    UnknownStream,
}

/// What a read found.
#[derive(Debug, PartialEq, Eq)]
pub enum Received {
    /// Bytes, the end of a record, or both.
    Data(Chunk),
    /// Nothing yet; more may come.
    NoData,
    /// Nothing, and the read direction is closed: no more will come.
    EndOfStream,
}

/// Receive window of a new stream, in bytes.
pub const DEFAULT_RECEIVE_WINDOW: usize = 65536;

/// Transmit window of a new stream, in bytes.
pub const DEFAULT_TRANSMIT_WINDOW: usize = 65536;

impl StreamState {
    /// Whether the application may write in this state.
    pub open spec fn spec_write_open(self) -> bool {
        self == StreamState::Connecting || self == StreamState::Connected || self
            == StreamState::ReadClosed
    }

    /// Whether data from the peer is taken in this state.
    pub open spec fn spec_read_open(self) -> bool {
        self == StreamState::Connecting || self == StreamState::Connected || self
            == StreamState::WriteClosed
    }

    /// The state after the read direction closes.
    pub open spec fn spec_close_read(self) -> StreamState {
        match self {
            StreamState::Connecting => StreamState::ReadClosed,
            StreamState::Connected => StreamState::ReadClosed,
            StreamState::WriteClosed => StreamState::Closed,
            other => other,
        }
    }

    /// The state after the write direction closes.
    pub open spec fn spec_close_write(self) -> StreamState {
        match self {
            StreamState::Connecting => StreamState::WriteClosed,
            StreamState::Connected => StreamState::WriteClosed,
            StreamState::ReadClosed => StreamState::Closed,
            other => other,
        }
    }

    /// Whether the application may write in this state.
    #[verifier::when_used_as_spec(spec_write_open)]
    pub fn write_open(self) -> (open: bool)
        ensures
            open == self.spec_write_open(),
    {
        match self {
            StreamState::Connecting => true,
            StreamState::Connected => true,
            StreamState::ReadClosed => true,
            _ => false,
        }
    }

    /// Whether data from the peer is taken in this state.
    #[verifier::when_used_as_spec(spec_read_open)]
    pub fn read_open(self) -> (open: bool)
        ensures
            open == self.spec_read_open(),
    {
        match self {
            StreamState::Connecting => true,
            StreamState::Connected => true,
            StreamState::WriteClosed => true,
            _ => false,
        }
    }

    /// The state after the read direction closes.
    #[verifier::when_used_as_spec(spec_close_read)]
    pub fn close_read(self) -> (next: StreamState)
        ensures
            next == self.spec_close_read(),
    {
        match self {
            StreamState::Connecting => StreamState::ReadClosed,
            StreamState::Connected => StreamState::ReadClosed,
            StreamState::WriteClosed => StreamState::Closed,
            other => other,
        }
    }

    /// The state after the write direction closes.
    #[verifier::when_used_as_spec(spec_close_write)]
    pub fn close_write(self) -> (next: StreamState)
        ensures
            next == self.spec_close_write(),
    {
        match self {
            StreamState::Connecting => StreamState::WriteClosed,
            StreamState::Connected => StreamState::WriteClosed,
            StreamState::ReadClosed => StreamState::Closed,
            other => other,
        }
    }
}

/// `Closed` is entered only by closing the second direction after the first,
/// and closing a direction twice changes nothing.
pub proof fn lemma_closed_needs_both_directions(state: StreamState)
    ensures
        state.close_read() == StreamState::Closed ==> state == StreamState::WriteClosed || state
            == StreamState::Closed,
        state.close_write() == StreamState::Closed ==> state == StreamState::ReadClosed || state
            == StreamState::Closed,
        state.write_open() ==> state.close_read().close_write() == StreamState::Closed,
        state.read_open() ==> state.close_write().close_read() == StreamState::Closed,
        state.close_read().close_read() == state.close_read(),
        state.close_write().close_write() == state.close_write(),
        !state.close_read().read_open(),
        !state.close_write().write_open(),
{
}

/// The value of a stream: everything its behaviour depends on.
pub struct StreamView {
    /// The logical state.
    pub state: StreamState,
    /// Whether the peer has agreed to carry the stream.
    pub peer_bound: bool,
    /// Whether an end-of-stream marker is owed to the peer.
    pub close_pending: bool,
    /// The unique stream identifier, once one is assigned.
    pub usid: Option<u64>,
    /// The slot of the parent stream; `None` for a top-level stream.
    pub parent: Option<usize>,
    /// Whether the peer offered the stream and the application has not yet
    /// accepted it.
    pub awaiting_accept: bool,
    /// Scheduling priority; higher goes first.
    pub priority: i32,
    /// How offered substreams are treated.
    pub listen_mode: ListenMode,
    /// Whether substreams start out with this stream's listen mode.
    pub inherit: bool,
    /// Whether the peer has signaled that it takes substreams of this stream.
    pub peer_listening: bool,
    /// Written by the application, not yet handed to the transport.
    pub outgoing: Seq<Unit>,
    /// Received from the peer, not yet read by the application.
    pub incoming: Seq<Unit>,
    /// Most bytes of unread data that are taken from the peer.
    pub receive_window: usize,
    /// Whether the receive window is full or has turned data away.
    pub receive_blocked: bool,
    /// Most bytes that may be in flight to the peer.
    pub transmit_window: usize,
    /// Bytes handed to the transport and not yet acknowledged.
    pub in_flight: usize,
    /// Whether the application has let go of the stream.
    pub lingering: bool,
    /// The service that a top-level stream is connected to; empty otherwise.
    pub service: Seq<char>,
    /// The protocol that a top-level stream speaks; empty otherwise.
    pub protocol: Seq<char>,
    /// The error message that the application has set, if any.
    pub error: Option<Seq<char>>,
}

impl StreamView {
    /// Whether the stream has something for the transport that its transmit
    /// window lets through: queued data, or an end-of-stream marker with no
    /// data before it.
    pub open spec fn ready(self) -> bool {
        self.peer_bound && if self.outgoing.len() > 0 {
            self.in_flight < self.transmit_window
        } else {
            self.close_pending
        }
    }

    /// Whether nothing more will happen on the stream: it is shut down for
    /// good and owes the peer nothing.
    pub open spec fn finished(self) -> bool {
        &&& self.state == StreamState::Closed || self.state == StreamState::Reset || self.state
            == StreamState::Unconnected
        &&& self.outgoing.len() == 0
        &&& !self.close_pending
    }

    /// Most bytes that one segment of at most `max` bytes may carry now.
    pub open spec fn segment_limit(self, max: usize) -> nat {
        let room = if self.in_flight < self.transmit_window {
            (self.transmit_window - self.in_flight) as nat
        } else {
            0nat
        };
        if max <= room {
            max as nat
        } else {
            room
        }
    }

    /// Whether the segment taken now for at most `max` bytes is the last of
    /// the stream.
    pub open spec fn segment_ends_stream(self, max: usize) -> bool {
        self.close_pending && taken_rest(self.outgoing, self.segment_limit(max)).len() == 0
    }

    /// The stream after a segment of at most `max` bytes was taken.
    pub open spec fn after_segment(self, max: usize) -> StreamView {
        let limit = self.segment_limit(max);
        StreamView {
            outgoing: taken_rest(self.outgoing, limit),
            in_flight: (self.in_flight + taken_data(self.outgoing, limit).len()) as usize,
            close_pending: self.close_pending && !self.segment_ends_stream(max),
            ..self
        }
    }

    /// The stream after a shutdown in the given mode. An unconnected or
    /// reset stream stays as it is.
    pub open spec fn after_shutdown(self, mode: ShutdownMode) -> StreamView {
        if self.state == StreamState::Unconnected || self.state == StreamState::Reset {
            self
        } else {
            match mode {
                ShutdownMode::Read => StreamView {
                    state: self.state.close_read(),
                    incoming: Seq::empty(),
                    receive_blocked: false,
                    ..self
                },
                ShutdownMode::Write => StreamView {
                    state: self.state.close_write(),
                    close_pending: self.close_pending || self.state.write_open(),
                    ..self
                },
                ShutdownMode::Close => StreamView {
                    state: StreamState::Closed,
                    close_pending: self.close_pending || self.state.write_open(),
                    incoming: Seq::empty(),
                    receive_blocked: false,
                    ..self
                },
                ShutdownMode::Reset => StreamView {
                    state: StreamState::Reset,
                    close_pending: false,
                    outgoing: Seq::empty(),
                    incoming: Seq::empty(),
                    receive_blocked: false,
                    in_flight: 0,
                    ..self
                },
            }
        }
    }

    /// The stream after the application disconnected it: closed gracefully
    /// unless it was shut down already, then unconnected.
    pub open spec fn after_disconnect(self) -> StreamView {
        StreamView { state: StreamState::Unconnected, ..self.after_shutdown(ShutdownMode::Close) }
    }

    /// What writing `data` answers.
    pub open spec fn write_outcome(self, data: Seq<u8>) -> Result<(), StreamError> {
        if self.state == StreamState::Reset {
            Err(StreamError::StreamReset)
        } else if self.state == StreamState::Unconnected {
            Err(StreamError::NotConnected)
        } else if !self.state.write_open() {
            Err(StreamError::DirectionClosed)
        } else if byte_count(self.outgoing) + data.len() > usize::MAX {
            Err(StreamError::QueueFull)
        } else {
            Ok(())
        }
    }

    /// The stream after writing `data`.
    pub open spec fn after_write(self, data: Seq<u8>) -> StreamView {
        if self.write_outcome(data) is Ok {
            StreamView { outgoing: self.outgoing + units_of(data), ..self }
        } else {
            self
        }
    }

    /// The stream after ending a record.
    pub open spec fn after_end_record(self) -> StreamView {
        if self.write_outcome(Seq::empty()) is Ok {
            StreamView { outgoing: self.outgoing.push(Unit::RecordEnd), ..self }
        } else {
            self
        }
    }

    /// What the arrival of `data` from the peer answers.
    pub open spec fn deliver_outcome(self, data: Seq<u8>) -> Result<(), StreamError> {
        if self.state == StreamState::Reset {
            Err(StreamError::StreamReset)
        } else if self.state == StreamState::Unconnected {
            Err(StreamError::NotConnected)
        } else if self.state.read_open() && byte_count(self.incoming) + data.len()
            > self.receive_window {
            Err(StreamError::WindowExceeded)
        } else {
            Ok(())
        }
    }

    /// The stream after `data` arrived from the peer, with a record boundary
    /// behind it if `end_of_record`.
    ///
    /// Data for a closed read direction is dropped in silence. Data is taken
    /// whole or not at all: what does not fit the window is dropped and
    /// blocks the stream, however much room the window still has. So a
    /// sender of large segments may find the stream blocked with the window
    /// half empty.
    pub open spec fn after_deliver(self, data: Seq<u8>, end_of_record: bool) -> StreamView {
        if !self.state.read_open() {
            self
        } else if byte_count(self.incoming) + data.len() > self.receive_window {
            StreamView { receive_blocked: true, ..self }
        } else {
            StreamView {
                incoming: if end_of_record {
                    (self.incoming + units_of(data)).push(Unit::RecordEnd)
                } else {
                    self.incoming + units_of(data)
                },
                receive_blocked: byte_count(self.incoming) + data.len() == self.receive_window,
                ..self
            }
        }
    }

    /// Whether the arrival of `data` blocks a stream that was not blocked:
    /// the data fills the receive window or is turned away by it.
    pub open spec fn deliver_blocks(self, data: Seq<u8>, end_of_record: bool) -> bool {
        !self.receive_blocked && self.after_deliver(data, end_of_record).receive_blocked
    }

    /// Whether a read is answered at all: on a stream that is neither
    /// unconnected nor reset.
    pub open spec fn readable(self) -> bool {
        self.state != StreamState::Unconnected && self.state != StreamState::Reset
    }

    /// Whether a read of at most `max` bytes finds bytes or a record
    /// boundary.
    pub open spec fn read_finds_data(self, max: usize) -> bool {
        taken_data(self.incoming, max as nat).len() > 0 || taken_ends_record(
            self.incoming,
            max as nat,
        )
    }

    /// Whether `result` is the answer to a read of at most `max` bytes.
    ///
    /// An unconnected stream answers `NotConnected` and a reset one
    /// `StreamReset`. Any other answers `Data` with what stood at the front
    /// if that is bytes or a record boundary, and if not `NoData` while the
    /// read direction is open and `EndOfStream` once it is closed.
    pub open spec fn read_answers(self, max: usize, result: Result<Received, StreamError>) -> bool {
        match result {
            Ok(Received::Data(chunk)) => {
                &&& self.readable()
                &&& self.read_finds_data(max)
                &&& chunk.data@ == taken_data(self.incoming, max as nat)
                &&& chunk.end_of_record == taken_ends_record(self.incoming, max as nat)
            },
            Ok(Received::NoData) => {
                &&& self.readable()
                &&& !self.read_finds_data(max)
                &&& self.state.read_open()
            },
            Ok(Received::EndOfStream) => {
                &&& self.readable()
                &&& !self.read_finds_data(max)
                &&& !self.state.read_open()
            },
            Err(error) => {
                &&& !self.readable()
                &&& error == if self.state == StreamState::Reset {
                    StreamError::StreamReset
                } else {
                    StreamError::NotConnected
                }
            },
        }
    }

    /// The stream after a read of at most `max` bytes. Taking bytes out
    /// unblocks the receive window.
    pub open spec fn after_read(self, max: usize) -> StreamView {
        if self.readable() {
            StreamView {
                incoming: taken_rest(self.incoming, max as nat),
                receive_blocked: self.receive_blocked && taken_data(
                    self.incoming,
                    max as nat,
                ).len() == 0,
                ..self
            }
        } else {
            self
        }
    }

    /// Whether the stream can be connected: it is unconnected and owes the
    /// peer nothing from an earlier connection.
    pub open spec fn connectable(self) -> bool {
        self.state == StreamState::Unconnected && self.finished()
    }

    /// The stream after it was asked to connect to the service and protocol
    /// named: connected if it could be, and unchanged if not.
    pub open spec fn after_connect(self, service: Seq<char>, protocol: Seq<char>) -> StreamView {
        if self.connectable() {
            StreamView {
                state: StreamState::Connected,
                peer_bound: true,
                service,
                protocol,
                ..self
            }
        } else {
            self
        }
    }

    /// The stream after the peer agreed to carry it: bound to the peer, and
    /// connected if it was connecting.
    pub open spec fn after_peer_accepts(self) -> StreamView {
        StreamView {
            state: if self.state == StreamState::Connecting {
                StreamState::Connected
            } else {
                self.state
            },
            peer_bound: true,
            ..self
        }
    }

    /// Whether the stream can get a substream, and if not, why.
    pub open spec fn substream_outcome(self) -> Result<(), StreamError> {
        if self.state == StreamState::Reset {
            Err(StreamError::StreamReset)
        } else if self.state == StreamState::Unconnected {
            Err(StreamError::NotConnected)
        } else if self.state == StreamState::Closed {
            Err(StreamError::DirectionClosed)
        } else {
            Ok(())
        }
    }

    /// The stream after the peer acknowledged `bytes` bytes.
    pub open spec fn after_acknowledge(self, bytes: usize) -> StreamView {
        StreamView {
            in_flight: if bytes < self.in_flight {
                (self.in_flight - bytes) as usize
            } else {
                0
            },
            ..self
        }
    }
}

/// A top-level stream before it is connected.
pub open spec fn fresh_stream() -> StreamView {
    StreamView {
        state: StreamState::Unconnected,
        peer_bound: false,
        close_pending: false,
        usid: None,
        parent: None,
        awaiting_accept: false,
        priority: 0,
        listen_mode: ListenMode::Reject,
        inherit: false,
        peer_listening: false,
        outgoing: Seq::empty(),
        incoming: Seq::empty(),
        receive_window: DEFAULT_RECEIVE_WINDOW,
        receive_blocked: false,
        transmit_window: DEFAULT_TRANSMIT_WINDOW,
        in_flight: 0,
        lingering: false,
        service: Seq::empty(),
        protocol: Seq::empty(),
        error: None,
    }
}

/// A top-level stream as it stands right after it was connected to the
/// service and protocol named: by the application, or by the peer when
/// `offered`, in which case it waits to be accepted.
pub open spec fn fresh_connection(service: Seq<char>, protocol: Seq<char>, offered: bool) -> StreamView {
    StreamView {
        state: StreamState::Connected,
        peer_bound: true,
        awaiting_accept: offered,
        service,
        protocol,
        ..fresh_stream()
    }
}

/// A substream as it stands right after it came to be under `parent`,
/// which sits in slot `slot`: opened by the application, or offered by the
/// peer when `offered`.
///
/// An opened substream is usable at once, and bound to the peer as soon as
/// the peer takes substreams of the parent. An offered one is connected and
/// waits to be accepted. Either starts with the parent's listen mode if the
/// parent hands it down, and refuses substreams of its own otherwise.
pub open spec fn fresh_substream(parent: StreamView, slot: usize, offered: bool) -> StreamView {
    StreamView {
        state: if offered || parent.peer_listening {
            StreamState::Connected
        } else {
            StreamState::Connecting
        },
        peer_bound: offered || parent.peer_listening,
        parent: Some(slot),
        awaiting_accept: offered,
        listen_mode: if parent.inherit {
            parent.listen_mode
        } else {
            ListenMode::Reject
        },
        inherit: parent.inherit,
        ..fresh_stream()
    }
}

/// One multiplexed logical channel.
pub struct Stream {
    state: StreamState,
    peer_bound: bool,
    close_pending: bool,
    usid: Option<u64>,
    parent: Option<usize>,
    awaiting_accept: bool,
    priority: i32,
    listen_mode: ListenMode,
    inherit: bool,
    peer_listening: bool,
    outgoing: RecordQueue,
    incoming: RecordQueue,
    receive_window: usize,
    receive_blocked: bool,
    transmit_window: usize,
    in_flight: usize,
    lingering: bool,
    service: String,
    protocol: String,
    error: Option<String>,
}

impl View for Stream {
    type V = StreamView;

    closed spec fn view(&self) -> StreamView {
        StreamView {
            state: self.state,
            peer_bound: self.peer_bound,
            close_pending: self.close_pending,
            usid: self.usid,
            parent: self.parent,
            awaiting_accept: self.awaiting_accept,
            priority: self.priority,
            listen_mode: self.listen_mode,
            inherit: self.inherit,
            peer_listening: self.peer_listening,
            outgoing: self.outgoing@,
            incoming: self.incoming@,
            receive_window: self.receive_window,
            receive_blocked: self.receive_blocked,
            transmit_window: self.transmit_window,
            in_flight: self.in_flight,
            lingering: self.lingering,
            service: self.service@,
            protocol: self.protocol@,
            error: match self.error {
                Some(message) => Some(message@),
                None => None,
            },
        }
    }
}

impl Stream {
    /// The buffers' own counters agree with their content.
    pub closed spec fn wf(&self) -> bool {
        self.outgoing.wf() && self.incoming.wf()
    }

    /// A top-level stream, unconnected.
    pub fn new() -> (stream: Stream)
        ensures
            stream.wf(),
            stream@ == fresh_stream(),
    {
        Stream {
            state: StreamState::Unconnected,
            peer_bound: false,
            close_pending: false,
            usid: None,
            parent: None,
            awaiting_accept: false,
            priority: 0,
            listen_mode: ListenMode::Reject,
            inherit: false,
            peer_listening: false,
            outgoing: RecordQueue::new(),
            incoming: RecordQueue::new(),
            receive_window: DEFAULT_RECEIVE_WINDOW,
            receive_blocked: false,
            transmit_window: DEFAULT_TRANSMIT_WINDOW,
            in_flight: 0,
            lingering: false,
            service: String::new(),
            protocol: String::new(),
            error: None,
        }
    }

    /// A top-level stream connected to the service and protocol named: by
    /// the application, or by the peer when `offered`.
    pub fn connection(service: String, protocol: String, offered: bool) -> (stream: Stream)
        ensures
            stream.wf(),
            stream@ == fresh_connection(service@, protocol@, offered),
    {
        let mut stream = Stream::new();
        stream.state = StreamState::Connected;
        stream.peer_bound = true;
        stream.awaiting_accept = offered;
        stream.service = service;
        stream.protocol = protocol;
        stream
    }

    /// A substream of `self`, which sits in slot `slot`: opened by the
    /// application, or offered by the peer when `offered`.
    pub fn substream(&self, slot: usize, offered: bool) -> (child: Stream)
        ensures
            child.wf(),
            child@ == fresh_substream(self@, slot, offered),
    {
        let bound = offered || self.peer_listening;
        let mut child = Stream::new();
        child.state = if bound {
            StreamState::Connected
        } else {
            StreamState::Connecting
        };
        child.peer_bound = bound;
        child.parent = Some(slot);
        child.awaiting_accept = offered;
        if self.inherit {
            child.listen_mode = self.listen_mode;
        }
        child.inherit = self.inherit;
        child
    }

    /// The logical state.
    pub fn state(&self) -> (state: StreamState)
        ensures
            state == self@.state,
    {
        self.state
    }

    /// The slot of the parent stream; `None` for a top-level stream.
    pub fn parent(&self) -> (parent: Option<usize>)
        ensures
            parent == self@.parent,
    {
        self.parent
    }

    /// The unique stream identifier, once one is assigned.
    pub fn usid(&self) -> (usid: Option<u64>)
        ensures
            usid == self@.usid,
    {
        self.usid
    }

    /// Scheduling priority; higher goes first. Zero unless set.
    pub fn priority(&self) -> (priority: i32)
        ensures
            priority == self@.priority,
    {
        self.priority
    }

    /// How offered substreams are treated.
    pub fn listen_mode(&self) -> (mode: ListenMode)
        ensures
            mode == self@.listen_mode,
    {
        self.listen_mode
    }

    /// Whether substreams start out with this stream's listen mode.
    pub fn hands_down_listen_mode(&self) -> (inherit: bool)
        ensures
            inherit == self@.inherit,
    {
        self.inherit
    }

    /// Whether the peer has agreed to carry the stream.
    pub fn is_peer_bound(&self) -> (bound: bool)
        ensures
            bound == self@.peer_bound,
    {
        self.peer_bound
    }

    /// Whether the peer offered the stream and the application has not yet
    /// accepted it.
    pub fn is_awaiting_accept(&self) -> (waiting: bool)
        ensures
            waiting == self@.awaiting_accept,
    {
        self.awaiting_accept
    }

    /// Whether the application has let go of the stream.
    pub fn is_lingering(&self) -> (lingering: bool)
        ensures
            lingering == self@.lingering,
    {
        self.lingering
    }

    /// Whether the receive window is full or has turned data away since the
    /// application last took bytes out.
    pub fn is_receive_blocked(&self) -> (blocked: bool)
        ensures
            blocked == self@.receive_blocked,
    {
        self.receive_blocked
    }

    /// Most bytes of unread data that are taken from the peer.
    pub fn receive_window(&self) -> (window: usize)
        ensures
            window == self@.receive_window,
    {
        self.receive_window
    }

    /// Most bytes that may be in flight to the peer.
    pub fn transmit_window(&self) -> (window: usize)
        ensures
            window == self@.transmit_window,
    {
        self.transmit_window
    }

    /// Bytes handed to the transport and not yet acknowledged.
    pub fn in_flight(&self) -> (bytes: usize)
        ensures
            bytes == self@.in_flight,
    {
        self.in_flight
    }

    /// Bytes received and not yet read.
    pub fn unread(&self) -> (bytes: usize)
        requires
            self.wf(),
        ensures
            bytes == byte_count(self@.incoming),
    {
        self.incoming.byte_len()
    }

    /// Bytes written and not yet handed to the transport.
    pub fn unsent(&self) -> (bytes: usize)
        requires
            self.wf(),
        ensures
            bytes == byte_count(self@.outgoing),
    {
        self.outgoing.byte_len()
    }

    /// Whether the stream can get a substream, and if not, why: a reset
    /// stream cannot, nor an unconnected or a closed one.
    pub fn can_have_substream(&self) -> (result: Result<(), StreamError>)
        ensures
            result == self@.substream_outcome(),
    {
        match self.state {
            StreamState::Reset => Err(StreamError::StreamReset),
            StreamState::Unconnected => Err(StreamError::NotConnected),
            StreamState::Closed => Err(StreamError::DirectionClosed),
            _ => Ok(()),
        }
    }

    /// Whether the stream has something for the transport that its transmit
    /// window lets through.
    pub fn is_ready(&self) -> (ready: bool)
        ensures
            ready == self@.ready(),
    {
        self.peer_bound && if !self.outgoing.is_empty() {
            self.in_flight < self.transmit_window
        } else {
            self.close_pending
        }
    }

    /// Whether the stream is shut down for good and owes the peer nothing.
    pub fn is_finished(&self) -> (finished: bool)
        ensures
            finished == self@.finished(),
    {
        let over = match self.state {
            StreamState::Closed => true,
            StreamState::Reset => true,
            StreamState::Unconnected => true,
            _ => false,
        };
        over && self.outgoing.is_empty() && !self.close_pending
    }

    /// Sets the scheduling priority. It counts from the next scheduling
    /// decision on.
    pub fn set_priority(&mut self, priority: i32)
        ensures
            final(self).wf() == old(self).wf(),
            final(self)@ == (StreamView { priority, ..old(self)@ }),
    {
        self.priority = priority;
    }

    /// Assigns or clears the unique stream identifier.
    pub fn set_usid(&mut self, usid: Option<u64>)
        ensures
            final(self).wf() == old(self).wf(),
            final(self)@ == (StreamView { usid, ..old(self)@ }),
    {
        self.usid = usid;
    }

    /// Sets how offered substreams are treated, and whether substreams start
    /// out with the same mode.
    pub fn listen(&mut self, mode: ListenMode, inherit: bool)
        ensures
            final(self).wf() == old(self).wf(),
            final(self)@ == (StreamView { listen_mode: mode, inherit, ..old(self)@ }),
    {
        self.listen_mode = mode;
        self.inherit = inherit;
    }

    /// Sets the receive window. Data already buffered stays.
    pub fn set_receive_window(&mut self, window: usize)
        ensures
            final(self).wf() == old(self).wf(),
            final(self)@ == (StreamView { receive_window: window, ..old(self)@ }),
    {
        self.receive_window = window;
    }

    /// Sets the transmit window, as the peer or the congestion controller
    /// grants it.
    pub fn set_transmit_window(&mut self, window: usize)
        ensures
            final(self).wf() == old(self).wf(),
            final(self)@ == (StreamView { transmit_window: window, ..old(self)@ }),
    {
        self.transmit_window = window;
    }

    /// Records that the application accepted the offered stream.
    pub fn accept(&mut self)
        ensures
            final(self).wf() == old(self).wf(),
            final(self)@ == (StreamView { awaiting_accept: false, ..old(self)@ }),
    {
        self.awaiting_accept = false;
    }

    /// Sets the error message of the stream. The message is there for the
    /// application to read; the stream goes on as before.
    pub fn set_error(&mut self, message: String)
        ensures
            final(self).wf() == old(self).wf(),
            final(self)@ == (StreamView { error: Some(message@), ..old(self)@ }),
    {
        self.error = Some(message);
    }

    /// The error message that the application has set, if any.
    pub fn error(&self) -> (error: Option<&String>)
        ensures
            match error {
                Some(message) => self@.error == Some(message@),
                None => self@.error is None,
            },
    {
        self.error.as_ref()
    }

    /// Records that the application has let go of the stream.
    pub fn release(&mut self)
        ensures
            final(self).wf() == old(self).wf(),
            final(self)@ == (StreamView { lingering: true, ..old(self)@ }),
    {
        self.lingering = true;
    }

    /// Records that the peer takes substreams of this stream.
    pub fn peer_listens(&mut self)
        ensures
            final(self).wf() == old(self).wf(),
            final(self)@ == (StreamView { peer_listening: true, ..old(self)@ }),
    {
        self.peer_listening = true;
    }

    /// Connects an unconnected stream to the service and protocol named: it
    /// is connected at once, whether or not a path to the peer is known to
    /// work. A stream that is not unconnected, or that still owes the peer
    /// something from an earlier connection, is left as it is.
    pub fn connect(&mut self, service: String, protocol: String) -> (connected: bool)
        ensures
            final(self).wf() == old(self).wf(),
            connected == old(self)@.connectable(),
            final(self)@ == old(self)@.after_connect(service@, protocol@),
    {
        let unconnected = match self.state {
            StreamState::Unconnected => true,
            _ => false,
        };
        if unconnected && self.is_finished() {
            self.state = StreamState::Connected;
            self.peer_bound = true;
            self.service = service;
            self.protocol = protocol;
            true
        } else {
            false
        }
    }

    /// The service that a top-level stream is connected to.
    pub fn service(&self) -> (service: &String)
        ensures
            service@ == self@.service,
    {
        &self.service
    }

    /// The protocol that a top-level stream speaks.
    pub fn protocol(&self) -> (protocol: &String)
        ensures
            protocol@ == self@.protocol,
    {
        &self.protocol
    }

    /// Records that the peer agreed to carry the stream: a connecting stream
    /// becomes connected, and what was queued may go out.
    pub fn peer_accepts(&mut self)
        ensures
            final(self).wf() == old(self).wf(),
            final(self)@ == old(self)@.after_peer_accepts(),
    {
        match self.state {
            StreamState::Connecting => {
                self.state = StreamState::Connected;
            },
            _ => {},
        }
        self.peer_bound = true;
    }

    /// Queues `data` behind what was written before.
    pub fn write(&mut self, data: &[u8]) -> (result: Result<(), StreamError>)
        requires
            old(self).wf(),
        ensures
            final(self).wf(),
            result == old(self)@.write_outcome(data@),
            final(self)@ == old(self)@.after_write(data@),
    {
        match self.state {
            StreamState::Reset => {
                return Err(StreamError::StreamReset);
            },
            StreamState::Unconnected => {
                return Err(StreamError::NotConnected);
            },
            _ => {},
        }
        if !self.state.write_open() {
            return Err(StreamError::DirectionClosed);
        }
        if self.outgoing.write(data) {
            Ok(())
        } else {
            Err(StreamError::QueueFull)
        }
    }

    /// Ends the current record: queues a boundary behind what was written
    /// before. Fails as a write of no bytes would.
    pub fn end_record(&mut self) -> (result: Result<(), StreamError>)
        requires
            old(self).wf(),
        ensures
            final(self).wf(),
            result == old(self)@.write_outcome(Seq::empty()),
            final(self)@ == old(self)@.after_end_record(),
    {
        match self.state {
            StreamState::Reset => {
                return Err(StreamError::StreamReset);
            },
            StreamState::Unconnected => {
                return Err(StreamError::NotConnected);
            },
            _ => {},
        }
        if !self.state.write_open() {
            return Err(StreamError::DirectionClosed);
        }
        proof {
            self.outgoing.lemma_byte_count_fits();
        }
        self.outgoing.mark_record();
        Ok(())
    }

    /// Takes in `data` that arrived from the peer, with a record boundary
    /// behind it if `end_of_record`.
    pub fn deliver(&mut self, data: &[u8], end_of_record: bool) -> (result: Result<
        (),
        StreamError,
    >)
        requires
            old(self).wf(),
        ensures
            final(self).wf(),
            result == old(self)@.deliver_outcome(data@),
            final(self)@ == old(self)@.after_deliver(data@, end_of_record),
    {
        match self.state {
            StreamState::Reset => {
                return Err(StreamError::StreamReset);
            },
            StreamState::Unconnected => {
                return Err(StreamError::NotConnected);
            },
            _ => {},
        }
        if !self.state.read_open() {
            return Ok(());
        }
        let buffered = self.incoming.byte_len();
        if buffered > self.receive_window || data.len() > self.receive_window - buffered {
            self.receive_blocked = true;
            return Err(StreamError::WindowExceeded);
        }
        let _ = self.incoming.write(data);
        if end_of_record {
            self.incoming.mark_record();
        }
        self.receive_blocked = data.len() == self.receive_window - buffered;
        Ok(())
    }

    /// Records that the stream left the channel that carried it: until the
    /// peer takes it up again, nothing of it goes out.
    pub fn detach(&mut self)
        ensures
            final(self).wf() == old(self).wf(),
            final(self)@ == (StreamView { peer_bound: false, ..old(self)@ }),
    {
        self.peer_bound = false;
    }

    /// Records that the peer's end-of-stream marker arrived: the read
    /// direction closes. What is buffered stays readable.
    pub fn peer_closed(&mut self)
        ensures
            final(self).wf() == old(self).wf(),
            final(self)@ == (StreamView { state: old(self)@.state.close_read(), ..old(self)@ }),
    {
        self.state = self.state.close_read();
    }

    /// Reads up to `max` bytes, never past a record boundary, and never
    /// waits.
    ///
    /// Fails with `NotConnected` on an unconnected stream and with
    /// `StreamReset` on a reset one. Otherwise answers `Data` if bytes or a
    /// record boundary stood at the front, and if not `NoData` while the read
    /// direction is open and `EndOfStream` once it is closed.
    pub fn read(&mut self, max: usize) -> (result: Result<Received, StreamError>)
        requires
            old(self).wf(),
        ensures
            final(self).wf(),
            final(self)@ == old(self)@.after_read(max),
            old(self)@.read_answers(max, result),
    {
        match self.state {
            StreamState::Reset => {
                return Err(StreamError::StreamReset);
            },
            StreamState::Unconnected => {
                return Err(StreamError::NotConnected);
            },
            _ => {},
        }
        let chunk = self.incoming.read(max);
        if chunk.data.len() > 0 {
            self.receive_blocked = false;
        }
        if chunk.data.len() > 0 || chunk.end_of_record {
            Ok(Received::Data(chunk))
        } else if self.state.read_open() {
            Ok(Received::NoData)
        } else {
            Ok(Received::EndOfStream)
        }
    }

    /// Shuts the stream down in the given mode. An unconnected or reset
    /// stream is left as it is.
    pub fn shutdown(&mut self, mode: ShutdownMode)
        requires
            old(self).wf(),
        ensures
            final(self).wf(),
            final(self)@ == old(self)@.after_shutdown(mode),
    {
        match self.state {
            StreamState::Unconnected => {
                return ;
            },
            StreamState::Reset => {
                return ;
            },
            _ => {},
        }
        let write_open = self.state.write_open();
        match mode {
            ShutdownMode::Read => {
                self.state = self.state.close_read();
                self.incoming.clear();
                self.receive_blocked = false;
            },
            ShutdownMode::Write => {
                self.state = self.state.close_write();
                self.close_pending = self.close_pending || write_open;
            },
            ShutdownMode::Close => {
                self.state = StreamState::Closed;
                self.close_pending = self.close_pending || write_open;
                self.incoming.clear();
                self.receive_blocked = false;
            },
            ShutdownMode::Reset => {
                self.state = StreamState::Reset;
                self.close_pending = false;
                self.outgoing.clear();
                self.incoming.clear();
                self.receive_blocked = false;
                self.in_flight = 0;
            },
        }
    }

    /// Forces the stream back to unconnected. Unless it was shut down
    /// already, it is first closed as by `shutdown(Close)`; what it still
    /// owes the peer goes out in the background.
    pub fn disconnect(&mut self)
        requires
            old(self).wf(),
        ensures
            final(self).wf(),
            final(self)@ == old(self)@.after_disconnect(),
    {
        self.shutdown(ShutdownMode::Close);
        self.state = StreamState::Unconnected;
    }

    /// Takes the next segment for the transport: at most `max` bytes, no more
    /// than the transmit window has room for, and never past a record
    /// boundary. The bytes taken are in flight from now on.
    ///
    /// Returns the segment's data and whether the segment is the last of the
    /// stream, in which case the end-of-stream marker is owed no longer.
    pub fn take_segment(&mut self, max: usize) -> (segment: (Chunk, bool))
        requires
            old(self).wf(),
        ensures
            final(self).wf(),
            final(self)@ == old(self)@.after_segment(max),
            segment.0.data@ == taken_data(old(self)@.outgoing, old(self)@.segment_limit(max)),
            segment.0.end_of_record == taken_ends_record(
                old(self)@.outgoing,
                old(self)@.segment_limit(max),
            ),
            segment.1 == old(self)@.segment_ends_stream(max),
    {
        let room = if self.in_flight < self.transmit_window {
            self.transmit_window - self.in_flight
        } else {
            0
        };
        let limit = if max <= room {
            max
        } else {
            room
        };
        proof {
            lemma_taken_accounts(self.outgoing@, limit as nat);
        }
        let chunk = self.outgoing.read(limit);
        self.in_flight = self.in_flight + chunk.data.len();
        let end_of_stream = self.close_pending && self.outgoing.is_empty();
        if end_of_stream {
            self.close_pending = false;
        }
        (chunk, end_of_stream)
    }

    /// Records that the peer acknowledged `bytes` bytes: they are in flight
    /// no longer.
    pub fn acknowledge(&mut self, bytes: usize)
        ensures
            final(self).wf() == old(self).wf(),
            final(self)@ == old(self)@.after_acknowledge(bytes),
    {
        self.in_flight = if bytes < self.in_flight {
            self.in_flight - bytes
        } else {
            0
        };
    }
}

} // verus!
