//! The streams of one peer.
//!
//! A peer session owns every stream that runs to one remote identity. The
//! streams sit in an arena of slots. A slot number names a stream for as
//! long as the session lives: slots are handed out in rising order and never
//! used twice, so a substream always has a higher slot than its parent, and
//! offers queue up in slot order. Parent and child are tied by the child's
//! parent slot alone; the children of a stream are found, not stored.
//!
//! Beside the arena the session keeps an index from unique stream
//! identifiers to slots, the position of the round-robin scheduler, the
//! address lookups and key exchanges that are under way for the peer, and
//! the state of the path to the peer as the transport reports it.
//!
//! What the application should hear of (a substream offered, a window that
//! turned data away, a reset by the peer) is queued as an event. Nothing is
//! called back: whoever drives the session polls the queue.

use vstd::prelude::*;
use std::collections::HashMap;
use std::collections::HashSet;
use std::collections::VecDeque;
use crate::arena::{
    after_peer_listens, assign_outcome, blocks_at, closed_in_background, forest, has_usid,
    in_subtree, index_matches, is_child, is_waiting, known, lemma_update_in_place,
    lemma_without_subtree_forest, live, offer_outcome, offers_waiting, open_outcome, reaped,
    slot_of, usid_taken, usids_unique, with_stream, without_subtree,
};
use crate::framing::frame::{Frame, FrameBody};
use crate::framing::frame_codec::{
    encode_stream_frame, encoded_frame, plain_frame, stream_frame, FrameError, MAX_FRAME_DATA,
};
use crate::framing::frame_type::FrameKind;
use crate::framing::sequence::SequenceNumber;
use crate::framing::wire::lemma_be_bytes_len;
use crate::queue::{taken_data, taken_ends_record, Chunk};
use crate::schedule::{is_next, is_ready, is_top};
use crate::stream::{
    fresh_connection, fresh_stream, fresh_substream, ListenMode, Received, ShutdownMode, Stream,
    StreamError, StreamView,
};

verus! {

/// The state of the path to a peer, as the transport reports it. It is a
/// hint for the application: no stream changes its state on its account.
#[derive(Clone, Copy, Debug, PartialEq, Eq, Structural)]
pub enum LinkStatus {
    /// Datagrams get through.
    Up,
    /// Nothing gets through, or no path is confirmed yet.
    Down,
    /// Datagrams got through until a while ago.
    Stalled,
}

/// Something that the application should hear of.
#[derive(Clone, Copy, Debug, PartialEq, Eq, Structural)]
pub enum Event {
    /// The path to the peer changed to the given state.
    Link(LinkStatus),
    /// The peer asked for a top-level stream, which waits in slot `stream`.
    NewConnection {
        /// The slot of the new stream.
        stream: usize,
    },
    /// The peer offered a substream of the stream in slot `parent`, which
    /// waits in slot `stream`.
    NewSubstream {
        /// The slot of the parent.
        parent: usize,
        /// The slot of the new stream.
        stream: usize,
    },
    /// The receive window of the stream in slot `stream` filled up or
    /// turned data away: the stream is blocked.
    ReceiveBlocked {
        /// The slot of the stream.
        stream: usize,
    },
    /// The peer reset the stream in slot `stream`.
    StreamReset {
        /// The slot of the stream.
        stream: usize,
    },
    /// An error message was set on the stream in slot `stream`.
    Error {
        /// The slot of the stream.
        stream: usize,
    },
}

/// One piece of a stream's data, ready for the transport to frame.
#[derive(Debug, PartialEq, Eq)]
pub struct Segment {
    /// The slot of the stream that the segment belongs to.
    pub stream: usize,
    /// The stream's unique identifier, if it has one.
    pub usid: Option<u64>,
    /// The bytes to send.
    pub data: Vec<u8>,
    /// Whether a record ends behind the bytes.
    pub end_of_record: bool,
    /// Whether the stream's data ends behind the bytes.
    pub end_of_stream: bool,
}

impl Segment {
    /// The bytes of the segment on the wire: a `STREAM` frame with the data,
    /// and behind it a `CLOSE` frame if the stream's data ends here.
    pub open spec fn encoded(self) -> Seq<u8> {
        let usid = self.usid->Some_0;
        encoded_frame(stream_frame(usid, self.data@, self.end_of_record)) + if self.end_of_stream {
            encoded_frame(plain_frame(FrameKind::Close, usid))
        } else {
            Seq::empty()
        }
    }

    /// Whether the segment has a form on the wire: its stream has an
    /// identifier, and its data is no longer than one frame carries.
    pub open spec fn encodable(self) -> bool {
        self.usid is Some && self.data@.len() <= MAX_FRAME_DATA
    }

    /// Writes the segment at the front of `buffer`, as the frames that carry
    /// it, and returns how many bytes they took.
    ///
    /// Fails with `NotEncodable` exactly when the segment has no form on the
    /// wire, and otherwise with `BufferTooSmall` exactly when the buffer is
    /// shorter than the frames. On failure the buffer is untouched.
    pub fn encode(&self, buffer: &mut [u8]) -> (result: Result<usize, FrameError>)
        ensures
            match result {
                Ok(len) => {
                    &&& self.encodable()
                    &&& len == self.encoded().len()
                    &&& len <= old(buffer)@.len()
                    &&& final(buffer)@ == self.encoded() + old(buffer)@.subrange(
                        len as int,
                        old(buffer)@.len() as int,
                    )
                },
                Err(error) => {
                    &&& final(buffer)@ == old(buffer)@
                    &&& error == if self.encodable() {
                        FrameError::BufferTooSmall
                    } else {
                        FrameError::NotEncodable
                    }
                    &&& self.encodable() ==> old(buffer)@.len() < self.encoded().len()
                },
            },
    {
        let usid = match self.usid {
            Some(usid) => usid,
            None => {
                return Err(FrameError::NotEncodable);
            },
        };
        if self.data.len() > MAX_FRAME_DATA {
            return Err(FrameError::NotEncodable);
        }
        let total = buffer.len();
        let data_len = 12 + self.data.len();
        let len = if self.end_of_stream {
            data_len + 9
        } else {
            data_len
        };
        proof {
            lemma_be_bytes_len(usid as nat, 8);
            lemma_be_bytes_len(self.data@.len(), 2);
            assert(self.encoded().len() == len);
        }
        if total < len {
            return Err(FrameError::BufferTooSmall);
        }
        let written = encode_stream_frame(buffer, usid, self.data.as_slice(), self.end_of_record);
        assert(written is Ok);
        if self.end_of_stream {
            let close = Frame {
                frame_type: FrameKind::Close.frame_type(),
                usid,
                body: FrameBody::Nothing,
            };
            assert(close@ == plain_frame(FrameKind::Close, usid));
            let (front, rest) = buffer.split_at_mut(data_len);
            let closed = close.encode(rest);
            assert(closed is Ok);
        }
        assert(buffer@ =~= self.encoded() + old(buffer)@.subrange(len as int, total as int));
        Ok(len)
    }
}

/// All the streams that run to one remote identity.
pub struct PeerSession {
    identity: Vec<u8>,
    slots: Vec<Option<Stream>>,
    index: HashMap<u64, usize>,
    cursor: usize,
    lookups: HashSet<u64>,
    key_exchanges: HashSet<u64>,
    link: LinkStatus,
    events: VecDeque<Event>,
    sequence: Option<u64>,
}

impl PeerSession {
    /// The arena: for each slot the stream in it, if one is.
    pub closed spec fn streams(&self) -> Seq<Option<StreamView>> {
        Seq::new(
            self.slots@.len(),
            |i: int|
                match self.slots@[i] {
                    Some(stream) => Some(stream@),
                    None => None,
                },
        )
    }

    /// The identity of the peer.
    pub closed spec fn identity_bytes(&self) -> Seq<u8> {
        self.identity@
    }

    /// The slot that the scheduler served last.
    pub closed spec fn cursor(&self) -> usize {
        self.cursor
    }

    /// The address lookups under way for the peer.
    pub closed spec fn lookups(&self) -> Set<u64> {
        self.lookups@
    }

    /// The key exchanges under way with the peer.
    pub closed spec fn key_exchanges(&self) -> Set<u64> {
        self.key_exchanges@
    }

    /// The sequence number of the next datagram to the peer; `None` once
    /// every number has been used.
    pub closed spec fn sequence(&self) -> Option<u64> {
        self.sequence
    }

    /// The state of the path to the peer.
    pub closed spec fn link(&self) -> LinkStatus {
        self.link
    }

    /// The events that wait to be polled, oldest first.
    pub closed spec fn events(&self) -> Seq<Event> {
        self.events@
    }

    /// Whether two states of a session agree in the peer's identity, the
    /// scheduler's position, the routing work under way, the state of the
    /// path and the sequence counter.
    pub open spec fn same_coordination(&self, other: &PeerSession) -> bool {
        &&& self.sequence() == other.sequence()
        &&& self.identity_bytes() == other.identity_bytes()
        &&& self.cursor() == other.cursor()
        &&& self.lookups() == other.lookups()
        &&& self.key_exchanges() == other.key_exchanges()
        &&& self.link() == other.link()
    }

    /// Whether two states of a session agree in all but the arena.
    pub open spec fn same_routing(&self, other: &PeerSession) -> bool {
        &&& self.same_coordination(other)
        &&& self.events() == other.events()
    }

    /// The session's invariant: the streams are well formed and form a
    /// forest, and the identifier index holds exactly the streams that have
    /// an identifier.
    pub closed spec fn wf(&self) -> bool {
        &&& forall|i: int|
            0 <= i < self.slots@.len() && (#[trigger] self.slots@[i]) is Some
                ==> self.slots@[i]->Some_0.wf()
        &&& forest(self.streams())
        &&& index_matches(self.index@, self.streams())
        &&& self.lookups@.finite()
        &&& self.key_exchanges@.finite()
    }

    /// What the invariant says of the arena: every stream's parent is a
    /// stream of the session in a lower slot, and no two streams share an
    /// identifier.
    pub proof fn lemma_well_formed(&self)
        requires
            self.wf(),
        ensures
            forest(self.streams()),
            usids_unique(self.streams()),
    {
        let streams = self.streams();
        assert forall|i: int, j: int|
            #![trigger live(streams, i), live(streams, j)]
            live(streams, i) && live(streams, j) && streams[i]->Some_0.usid is Some
                && streams[i]->Some_0.usid == streams[j]->Some_0.usid implies i == j by {
            let u = streams[i]->Some_0.usid->Some_0;
            assert(self.index@[u] == i);
            assert(self.index@[u] == j);
        }
    }

    /// A session for the peer `identity`, without streams.
    pub fn new(identity: Vec<u8>) -> (session: PeerSession)
        ensures
            session.wf(),
            session.streams() == Seq::<Option<StreamView>>::empty(),
            session.identity_bytes() == identity@,
            session.cursor() == 0,
            session.lookups() == Set::<u64>::empty(),
            session.key_exchanges() == Set::<u64>::empty(),
            session.link() == LinkStatus::Down,
            session.events() == Seq::<Event>::empty(),
            session.sequence() == Some(0u64),
    {
        let session = PeerSession {
            identity,
            slots: Vec::new(),
            index: HashMap::new(),
            cursor: 0,
            lookups: HashSet::new(),
            key_exchanges: HashSet::new(),
            link: LinkStatus::Down,
            events: VecDeque::new(),
            sequence: Some(0),
        };
        assert(session.streams() =~= Seq::<Option<StreamView>>::empty());
        session
    }

    /// The identity of the peer.
    pub fn identity(&self) -> (identity: &Vec<u8>)
        ensures
            identity@ == self.identity_bytes(),
    {
        &self.identity
    }

    /// Number of slots handed out so far; the next stream gets this slot.
    pub fn slot_count(&self) -> (count: usize)
        ensures
            count == self.streams().len(),
    {
        self.slots.len()
    }

    /// The stream in slot `id`, if one is.
    pub fn get(&self, id: usize) -> (stream: Option<&Stream>)
        requires
            self.wf(),
        ensures
            match stream {
                Some(stream) => live(self.streams(), id as int) && stream.wf() && stream@
                    == self.streams()[id as int]->Some_0,
                None => !live(self.streams(), id as int),
            },
    {
        if id < self.slots.len() {
            self.slots[id].as_ref()
        } else {
            None
        }
    }

    /// Whether slot `id` holds a stream.
    pub fn is_live(&self, id: usize) -> (is_live: bool)
        ensures
            is_live == live(self.streams(), id as int),
    {
        id < self.slots.len() && self.slots[id].is_some()
    }

    /// Puts `stream` in the next slot.
    fn install(&mut self, stream: Stream) -> (slot: usize)
        requires
            old(self).wf(),
            stream.wf(),
            stream@.usid is None,
            match stream@.parent {
                Some(p) => live(old(self).streams(), p as int),
                None => true,
            },
        ensures
            final(self).wf(),
            final(self).same_routing(old(self)),
            slot == old(self).streams().len(),
            final(self).streams() == old(self).streams().push(Some(stream@)),
    {
        let slot = self.slots.len();
        let ghost view = stream@;
        self.slots.push(Some(stream));
        proof {
            let before = old(self).streams();
            let after = self.streams();
            assert(after =~= before.push(Some(view)));
            assert forall|i: int| #[trigger] live(after, i) implies match after[i]->Some_0.parent {
                Some(p) => p < i && live(after, p as int),
                None => true,
            } by {
                if i < before.len() {
                    assert(live(before, i));
                }
            }
            assert forall|i: int| #[trigger] live(after, i) implies match after[i]->Some_0.usid {
                Some(u) => self.index@.contains_key(u) && self.index@[u] == i,
                None => true,
            } by {
                if i < before.len() {
                    assert(live(before, i));
                }
            }
            assert forall|u: u64| #[trigger] self.index@.contains_key(u) implies has_usid(
                after,
                self.index@[u] as int,
                u,
            ) by {
                assert(has_usid(before, self.index@[u] as int, u));
            }
        }
        slot
    }

    /// Makes a new top-level stream, unconnected, and returns its slot.
    pub fn create_stream(&mut self) -> (slot: usize)
        requires
            old(self).wf(),
        ensures
            final(self).wf(),
            final(self).same_routing(old(self)),
            slot == old(self).streams().len(),
            final(self).streams() == old(self).streams().push(Some(fresh_stream())),
    {
        self.install(Stream::new())
    }

    /// Connects the unconnected stream in slot `id` to the service and
    /// protocol named.
    ///
    /// Fails with `UnknownStream` if the slot holds no stream, and with
    /// `DirectionClosed` if the stream is not unconnected or still owes the
    /// peer something from an earlier connection: such a stream is connected
    /// anew by closing it in the background and opening another.
    pub fn connect(&mut self, id: usize, service: String, protocol: String) -> (result: Result<
        (),
        StreamError,
    >)
        requires
            old(self).wf(),
        ensures
            final(self).wf(),
            final(self).same_routing(old(self)),
            result == if !live(old(self).streams(), id as int) {
                Err::<(), StreamError>(StreamError::UnknownStream)
            } else if !old(self).streams()[id as int]->Some_0.connectable() {
                Err::<(), StreamError>(StreamError::DirectionClosed)
            } else {
                Ok::<(), StreamError>(())
            },
            final(self).streams() == with_stream(
                old(self).streams(),
                id as int,
                old(self).streams()[id as int]->Some_0.after_connect(service@, protocol@),
            ),
    {
        if !self.is_live(id) {
            return Err(StreamError::UnknownStream);
        }
        let connected = match &mut self.slots[id] {
            Some(stream) => stream.connect(service, protocol),
            None => false,
        };
        proof {
            self.lemma_changed_in_place(old(self), id);
        }
        if connected {
            Ok(())
        } else {
            Err(StreamError::DirectionClosed)
        }
    }

    /// Makes a new top-level stream connected to the service and protocol
    /// named, and returns its slot.
    pub fn open_stream(&mut self, service: String, protocol: String) -> (slot: usize)
        requires
            old(self).wf(),
        ensures
            final(self).wf(),
            final(self).same_routing(old(self)),
            slot == old(self).streams().len(),
            final(self).streams() == old(self).streams().push(
                Some(fresh_connection(service@, protocol@, false)),
            ),
    {
        self.install(Stream::connection(service, protocol, false))
    }

    /// Takes in the peer's request for a top-level stream to the service and
    /// protocol named, with the identifier `usid` if the request names one,
    /// and returns the slot of the stream. The stream is connected and waits
    /// to be accepted.
    ///
    /// Fails with `UsidInUse`, and changes nothing, if a stream of the
    /// session has the identifier.
    pub fn offer_stream(&mut self, usid: Option<u64>, service: String, protocol: String) -> (result:
        Result<usize, StreamError>)
        requires
            old(self).wf(),
        ensures
            final(self).wf(),
            final(self).same_coordination(old(self)),
            match result {
                Ok(slot) => {
                    &&& !usid_taken(old(self).streams(), usid)
                    &&& slot == old(self).streams().len()
                    &&& final(self).streams() == old(self).streams().push(
                        Some(StreamView { usid, ..fresh_connection(service@, protocol@, true) }),
                    )
                    &&& final(self).events() == old(self).events().push(
                        Event::NewConnection { stream: slot },
                    )
                },
                Err(error) => {
                    &&& usid_taken(old(self).streams(), usid)
                    &&& error == StreamError::UsidInUse
                    &&& final(self).streams() == old(self).streams()
                    &&& final(self).events() == old(self).events()
                },
            },
    {
        if let Some(u) = usid {
            let owner = self.lookup(u);
            if owner.is_some() {
                assert(has_usid(self.streams(), owner->Some_0 as int, u));
                return Err(StreamError::UsidInUse);
            }
        }
        let ghost view = StreamView { usid, ..fresh_connection(service@, protocol@, true) };
        let slot = self.install(Stream::connection(service, protocol, true));
        if let Some(u) = usid {
            let ghost installed = self.streams();
            proof {
                assert forall|other: int| !has_usid(installed, other, u) by {
                    if has_usid(installed, other, u) {
                        assert(has_usid(old(self).streams(), other, u));
                    }
                }
            }
            let assigned = self.assign_usid(slot, u);
            proof {
                assert(assigned is Ok);
                assert(self.streams() =~= old(self).streams().push(Some(view)));
            }
        }
        self.events.push_back(Event::NewConnection { stream: slot });
        Ok(slot)
    }

    /// Queues `data` on the stream in slot `id`.
    pub fn write(&mut self, id: usize, data: &[u8]) -> (result: Result<(), StreamError>)
        requires
            old(self).wf(),
        ensures
            final(self).wf(),
            final(self).same_routing(old(self)),
            result == if live(old(self).streams(), id as int) {
                old(self).streams()[id as int]->Some_0.write_outcome(data@)
            } else {
                Err(StreamError::UnknownStream)
            },
            final(self).streams() == with_stream(
                old(self).streams(),
                id as int,
                old(self).streams()[id as int]->Some_0.after_write(data@),
            ),
    {
        if !self.is_live(id) {
            return Err(StreamError::UnknownStream);
        }
        let result = match &mut self.slots[id] {
            Some(stream) => stream.write(data),
            None => Err(StreamError::UnknownStream),
        };
        proof {
            self.lemma_changed_in_place(old(self), id);
        }
        result
    }

    /// Ends the current record on the stream in slot `id`.
    pub fn end_record(&mut self, id: usize) -> (result: Result<(), StreamError>)
        requires
            old(self).wf(),
        ensures
            final(self).wf(),
            final(self).same_routing(old(self)),
            result == if live(old(self).streams(), id as int) {
                old(self).streams()[id as int]->Some_0.write_outcome(Seq::empty())
            } else {
                Err(StreamError::UnknownStream)
            },
            final(self).streams() == with_stream(
                old(self).streams(),
                id as int,
                old(self).streams()[id as int]->Some_0.after_end_record(),
            ),
    {
        if !self.is_live(id) {
            return Err(StreamError::UnknownStream);
        }
        let result = match &mut self.slots[id] {
            Some(stream) => stream.end_record(),
            None => Err(StreamError::UnknownStream),
        };
        proof {
            self.lemma_changed_in_place(old(self), id);
        }
        result
    }

    /// Reads up to `max` bytes from the stream in slot `id`, never past a
    /// record boundary, and never waits.
    pub fn read(&mut self, id: usize, max: usize) -> (result: Result<Received, StreamError>)
        requires
            old(self).wf(),
        ensures
            final(self).wf(),
            final(self).same_routing(old(self)),
            if live(old(self).streams(), id as int) {
                old(self).streams()[id as int]->Some_0.read_answers(max, result)
            } else {
                result == Err::<Received, StreamError>(StreamError::UnknownStream)
            },
            final(self).streams() == with_stream(
                old(self).streams(),
                id as int,
                old(self).streams()[id as int]->Some_0.after_read(max),
            ),
    {
        if !self.is_live(id) {
            return Err(StreamError::UnknownStream);
        }
        let result = match &mut self.slots[id] {
            Some(stream) => stream.read(max),
            None => Err(StreamError::UnknownStream),
        };
        proof {
            self.lemma_changed_in_place(old(self), id);
        }
        result
    }

    /// Takes in `data` that arrived from the peer for the stream in slot
    /// `id`, with a record boundary behind it if `end_of_record`.
    ///
    /// Data that the receive window turns away is dropped. When the data
    /// blocks the stream, by filling the window or by being turned away,
    /// the application is told with a `ReceiveBlocked` event.
    pub fn deliver(&mut self, id: usize, data: &[u8], end_of_record: bool) -> (result: Result<
        (),
        StreamError,
    >)
        requires
            old(self).wf(),
        ensures
            final(self).wf(),
            final(self).same_coordination(old(self)),
            result == if live(old(self).streams(), id as int) {
                old(self).streams()[id as int]->Some_0.deliver_outcome(data@)
            } else {
                Err(StreamError::UnknownStream)
            },
            final(self).streams() == with_stream(
                old(self).streams(),
                id as int,
                old(self).streams()[id as int]->Some_0.after_deliver(data@, end_of_record),
            ),
            final(self).events() == if blocks_at(
                old(self).streams(),
                id as int,
                data@,
                end_of_record,
            ) {
                old(self).events().push(Event::ReceiveBlocked { stream: id })
            } else {
                old(self).events()
            },
    {
        if !self.is_live(id) {
            return Err(StreamError::UnknownStream);
        }
        let mut blocks = false;
        let result = match &mut self.slots[id] {
            Some(stream) => {
                let blocked = stream.is_receive_blocked();
                let result = stream.deliver(data, end_of_record);
                blocks = !blocked && stream.is_receive_blocked();
                result
            },
            None => Err(StreamError::UnknownStream),
        };
        proof {
            self.lemma_changed_in_place(old(self), id);
        }
        if blocks {
            self.events.push_back(Event::ReceiveBlocked { stream: id });
        }
        result
    }

    /// Records that the peer acknowledged `bytes` bytes of the stream in
    /// slot `id`.
    pub fn acknowledge(&mut self, id: usize, bytes: usize) -> (result: Result<(), StreamError>)
        requires
            old(self).wf(),
        ensures
            final(self).wf(),
            final(self).same_routing(old(self)),
            result == known(old(self).streams(), id as int),
            final(self).streams() == with_stream(
                old(self).streams(),
                id as int,
                old(self).streams()[id as int]->Some_0.after_acknowledge(bytes),
            ),
    {
        if !self.is_live(id) {
            return Err(StreamError::UnknownStream);
        }
        match &mut self.slots[id] {
            Some(stream) => stream.acknowledge(bytes),
            None => {},
        }
        proof {
            self.lemma_changed_in_place(old(self), id);
        }
        Ok(())
    }

    /// Sets the priority of the stream in slot `id`. It counts from the next
    /// scheduling decision on.
    pub fn set_priority(&mut self, id: usize, priority: i32) -> (result: Result<(), StreamError>)
        requires
            old(self).wf(),
        ensures
            final(self).wf(),
            final(self).same_routing(old(self)),
            result == known(old(self).streams(), id as int),
            final(self).streams() == with_stream(
                old(self).streams(),
                id as int,
                StreamView { priority, ..old(self).streams()[id as int]->Some_0 },
            ),
    {
        if !self.is_live(id) {
            return Err(StreamError::UnknownStream);
        }
        match &mut self.slots[id] {
            Some(stream) => stream.set_priority(priority),
            None => {},
        }
        proof {
            self.lemma_changed_in_place(old(self), id);
        }
        Ok(())
    }

    /// Sets how the stream in slot `id` treats substreams that the peer
    /// offers, and whether its substreams start out with the same mode.
    pub fn listen(&mut self, id: usize, mode: ListenMode, inherit: bool) -> (result: Result<
        (),
        StreamError,
    >)
        requires
            old(self).wf(),
        ensures
            final(self).wf(),
            final(self).same_routing(old(self)),
            result == known(old(self).streams(), id as int),
            final(self).streams() == with_stream(
                old(self).streams(),
                id as int,
                StreamView { listen_mode: mode, inherit, ..old(self).streams()[id as int]->Some_0 },
            ),
    {
        if !self.is_live(id) {
            return Err(StreamError::UnknownStream);
        }
        match &mut self.slots[id] {
            Some(stream) => stream.listen(mode, inherit),
            None => {},
        }
        proof {
            self.lemma_changed_in_place(old(self), id);
        }
        Ok(())
    }

    /// Sets the receive window of the stream in slot `id`.
    pub fn set_receive_window(&mut self, id: usize, window: usize) -> (result: Result<
        (),
        StreamError,
    >)
        requires
            old(self).wf(),
        ensures
            final(self).wf(),
            final(self).same_routing(old(self)),
            result == known(old(self).streams(), id as int),
            final(self).streams() == with_stream(
                old(self).streams(),
                id as int,
                StreamView { receive_window: window, ..old(self).streams()[id as int]->Some_0 },
            ),
    {
        if !self.is_live(id) {
            return Err(StreamError::UnknownStream);
        }
        match &mut self.slots[id] {
            Some(stream) => stream.set_receive_window(window),
            None => {},
        }
        proof {
            self.lemma_changed_in_place(old(self), id);
        }
        Ok(())
    }

    /// Sets the transmit window of the stream in slot `id`.
    pub fn set_transmit_window(&mut self, id: usize, window: usize) -> (result: Result<
        (),
        StreamError,
    >)
        requires
            old(self).wf(),
        ensures
            final(self).wf(),
            final(self).same_routing(old(self)),
            result == known(old(self).streams(), id as int),
            final(self).streams() == with_stream(
                old(self).streams(),
                id as int,
                StreamView { transmit_window: window, ..old(self).streams()[id as int]->Some_0 },
            ),
    {
        if !self.is_live(id) {
            return Err(StreamError::UnknownStream);
        }
        match &mut self.slots[id] {
            Some(stream) => stream.set_transmit_window(window),
            None => {},
        }
        proof {
            self.lemma_changed_in_place(old(self), id);
        }
        Ok(())
    }

    /// Empties slot `id` and takes its identifier, if it has one, out of the
    /// index. The forest may be left with orphans.
    fn drop_slot(&mut self, id: usize)
        requires
            live(old(self).streams(), id as int),
            index_matches(old(self).index@, old(self).streams()),
        ensures
            final(self).streams() == old(self).streams().update(id as int, None),
            index_matches(final(self).index@, final(self).streams()),
            final(self).slots@ == old(self).slots@.update(id as int, None),
            final(self).same_routing(old(self)),
            final(self).lookups@ == old(self).lookups@,
            final(self).key_exchanges@ == old(self).key_exchanges@,
    {
        let usid = match &self.slots[id] {
            Some(stream) => stream.usid(),
            None => None,
        };
        self.slots[id] = None;
        if let Some(u) = usid {
            self.index.remove(&u);
        }
        proof {
            let before = old(self).streams();
            let after = self.streams();
            assert(after =~= before.update(id as int, None));
            assert forall|i: int| #[trigger] live(after, i) implies match after[i]->Some_0.usid {
                Some(u) => self.index@.contains_key(u) && self.index@[u] == i,
                None => true,
            } by {
                assert(live(before, i));
                assert(live(before, id as int));
            }
            assert forall|u: u64| #[trigger] self.index@.contains_key(u) implies has_usid(
                after,
                self.index@[u] as int,
                u,
            ) by {
                assert(old(self).index@.contains_key(u));
                assert(has_usid(before, old(self).index@[u] as int, u));
            }
        }
    }

    /// Removes the stream in slot `id` from the session, and with it all
    /// the streams that descend from it. The other streams stay as they
    /// are, each in its slot.
    pub fn remove_stream(&mut self, id: usize) -> (result: Result<(), StreamError>)
        requires
            old(self).wf(),
        ensures
            final(self).wf(),
            final(self).same_routing(old(self)),
            result == known(old(self).streams(), id as int),
            final(self).streams() == without_subtree(old(self).streams(), id as int),
    {
        if !self.is_live(id) {
            assert(without_subtree(old(self).streams(), id as int) =~= old(self).streams());
            return Err(StreamError::UnknownStream);
        }
        let ghost before = old(self).streams();
        let ghost target = without_subtree(before, id as int);
        let count = self.slots.len();
        self.drop_slot(id);
        let mut i: usize = id + 1;
        while i < count
            invariant
                id < i <= count,
                count == self.slots@.len(),
                count == before.len(),
                before == old(self).streams(),
                target == without_subtree(before, id as int),
                forest(before),
                live(before, id as int),
                self.same_routing(old(self)),
                self.lookups@ == old(self).lookups@,
                self.key_exchanges@ == old(self).key_exchanges@,
                index_matches(self.index@, self.streams()),
                forall|j: int|
                    0 <= j < count && (#[trigger] self.slots@[j]) is Some ==> self.slots@[j]
                        == old(self).slots@[j],
                forall|j: int| 0 <= j < i ==> #[trigger] self.streams()[j] == target[j],
                forall|j: int| i <= j < count ==> #[trigger] self.streams()[j] == before[j],
            decreases count - i,
        {
            let ghost current = self.streams();
            let orphan = match &self.slots[i] {
                Some(stream) => {
                    proof {
                        assert(live(before, i as int));
                    }
                    match stream.parent() {
                        Some(p) => self.slots[p].is_none(),
                        None => false,
                    }
                },
                None => false,
            };
            proof {
                assert(current[i as int] == before[i as int]);
                if live(before, i as int) {
                    if let Some(p) = before[i as int]->Some_0.parent {
                        assert(live(before, p as int));
                        assert(current[p as int] == target[p as int]);
                    }
                }
                assert(orphan == in_subtree(before, i as int, id as int));
            }
            if orphan {
                self.drop_slot(i);
            }
            i = i + 1;
        }
        proof {
            assert(self.streams() =~= target) by {
                assert forall|j: int| 0 <= j < count implies self.streams()[j] == target[j] by {}
            }
            lemma_without_subtree_forest(before, id as int);
            assert forall|j: int|
                0 <= j < self.slots@.len() && (#[trigger] self.slots@[j]) is Some
                    implies self.slots@[j]->Some_0.wf() by {
                assert(self.slots@[j] == old(self).slots@[j]);
            }
        }
        Ok(())
    }

    /// Tears the stream in slot `id` down if its time has come.
    fn reap(&mut self, id: usize)
        requires
            old(self).wf(),
        ensures
            final(self).wf(),
            final(self).same_routing(old(self)),
            final(self).streams() == reaped(old(self).streams(), id as int),
    {
        let due = match self.get(id) {
            Some(stream) => stream.is_lingering() && stream.is_finished(),
            None => false,
        };
        if due {
            let _ = self.remove_stream(id);
        }
    }

    /// Shuts the stream in slot `id` down in the given mode.
    ///
    /// A stream that the application has let go of is torn down, with its
    /// substreams, as soon as the shutdown leaves it finished.
    pub fn shutdown(&mut self, id: usize, mode: ShutdownMode) -> (result: Result<(), StreamError>)
        requires
            old(self).wf(),
        ensures
            final(self).wf(),
            final(self).same_routing(old(self)),
            result == known(old(self).streams(), id as int),
            final(self).streams() == reaped(
                with_stream(
                    old(self).streams(),
                    id as int,
                    old(self).streams()[id as int]->Some_0.after_shutdown(mode),
                ),
                id as int,
            ),
    {
        if !self.is_live(id) {
            return Err(StreamError::UnknownStream);
        }
        match &mut self.slots[id] {
            Some(stream) => stream.shutdown(mode),
            None => {},
        }
        proof {
            self.lemma_changed_in_place(old(self), id);
        }
        self.reap(id);
        Ok(())
    }

    /// Forces the stream in slot `id` back to unconnected, closing it first
    /// unless it was shut down already.
    pub fn disconnect(&mut self, id: usize) -> (result: Result<(), StreamError>)
        requires
            old(self).wf(),
        ensures
            final(self).wf(),
            final(self).same_routing(old(self)),
            result == known(old(self).streams(), id as int),
            final(self).streams() == reaped(
                with_stream(
                    old(self).streams(),
                    id as int,
                    old(self).streams()[id as int]->Some_0.after_disconnect(),
                ),
                id as int,
            ),
    {
        if !self.is_live(id) {
            return Err(StreamError::UnknownStream);
        }
        match &mut self.slots[id] {
            Some(stream) => stream.disconnect(),
            None => {},
        }
        proof {
            self.lemma_changed_in_place(old(self), id);
        }
        self.reap(id);
        Ok(())
    }

    /// Records that the application has let go of the stream in slot `id`.
    /// The stream lingers until it is finished, and is torn down at once if
    /// it is finished already.
    pub fn release(&mut self, id: usize) -> (result: Result<(), StreamError>)
        requires
            old(self).wf(),
        ensures
            final(self).wf(),
            final(self).same_routing(old(self)),
            result == known(old(self).streams(), id as int),
            final(self).streams() == reaped(
                with_stream(
                    old(self).streams(),
                    id as int,
                    StreamView { lingering: true, ..old(self).streams()[id as int]->Some_0 },
                ),
                id as int,
            ),
    {
        if !self.is_live(id) {
            return Err(StreamError::UnknownStream);
        }
        match &mut self.slots[id] {
            Some(stream) => stream.release(),
            None => {},
        }
        proof {
            self.lemma_changed_in_place(old(self), id);
        }
        self.reap(id);
        Ok(())
    }

    /// Records that the peer's end-of-stream marker arrived for the stream
    /// in slot `id`: its read direction closes.
    pub fn peer_closed(&mut self, id: usize) -> (result: Result<(), StreamError>)
        requires
            old(self).wf(),
        ensures
            final(self).wf(),
            final(self).same_routing(old(self)),
            result == known(old(self).streams(), id as int),
            final(self).streams() == reaped(
                with_stream(
                    old(self).streams(),
                    id as int,
                    StreamView {
                        state: old(self).streams()[id as int]->Some_0.state.close_read(),
                        ..old(self).streams()[id as int]->Some_0
                    },
                ),
                id as int,
            ),
    {
        if !self.is_live(id) {
            return Err(StreamError::UnknownStream);
        }
        match &mut self.slots[id] {
            Some(stream) => stream.peer_closed(),
            None => {},
        }
        proof {
            self.lemma_changed_in_place(old(self), id);
        }
        self.reap(id);
        Ok(())
    }

    /// Records that the application accepted the stream in slot `id`, which
    /// the peer had offered.
    pub fn accept(&mut self, id: usize) -> (result: Result<(), StreamError>)
        requires
            old(self).wf(),
        ensures
            final(self).wf(),
            final(self).same_routing(old(self)),
            result == known(old(self).streams(), id as int),
            final(self).streams() == with_stream(
                old(self).streams(),
                id as int,
                StreamView { awaiting_accept: false, ..old(self).streams()[id as int]->Some_0 },
            ),
    {
        if !self.is_live(id) {
            return Err(StreamError::UnknownStream);
        }
        match &mut self.slots[id] {
            Some(stream) => stream.accept(),
            None => {},
        }
        proof {
            self.lemma_changed_in_place(old(self), id);
        }
        Ok(())
    }

    /// Records that the stream in slot `id` left the channel that carried
    /// it.
    pub fn detach(&mut self, id: usize) -> (result: Result<(), StreamError>)
        requires
            old(self).wf(),
        ensures
            final(self).wf(),
            final(self).same_routing(old(self)),
            result == known(old(self).streams(), id as int),
            final(self).streams() == with_stream(
                old(self).streams(),
                id as int,
                StreamView { peer_bound: false, ..old(self).streams()[id as int]->Some_0 },
            ),
    {
        if !self.is_live(id) {
            return Err(StreamError::UnknownStream);
        }
        match &mut self.slots[id] {
            Some(stream) => stream.detach(),
            None => {},
        }
        proof {
            self.lemma_changed_in_place(old(self), id);
        }
        Ok(())
    }

    /// Records that the peer carries the stream in slot `id`: a connecting
    /// stream becomes connected, a detached one is bound again.
    pub fn attach(&mut self, id: usize) -> (result: Result<(), StreamError>)
        requires
            old(self).wf(),
        ensures
            final(self).wf(),
            final(self).same_routing(old(self)),
            result == known(old(self).streams(), id as int),
            final(self).streams() == with_stream(
                old(self).streams(),
                id as int,
                old(self).streams()[id as int]->Some_0.after_peer_accepts(),
            ),
    {
        if !self.is_live(id) {
            return Err(StreamError::UnknownStream);
        }
        match &mut self.slots[id] {
            Some(stream) => stream.peer_accepts(),
            None => {},
        }
        proof {
            self.lemma_changed_in_place(old(self), id);
        }
        Ok(())
    }

    /// Closes the stream in slot `id` and lets go of it in one step. The
    /// stream sends what it still owes in the background and is torn down
    /// when it is finished.
    pub fn close_in_background(&mut self, id: usize) -> (result: Result<(), StreamError>)
        requires
            old(self).wf(),
        ensures
            final(self).wf(),
            final(self).same_routing(old(self)),
            result == known(old(self).streams(), id as int),
            final(self).streams() == closed_in_background(old(self).streams(), id as int),
    {
        if !self.is_live(id) {
            return Err(StreamError::UnknownStream);
        }
        let _ = self.shutdown(id, ShutdownMode::Close);
        let _ = self.release(id);
        Ok(())
    }

    /// The slot of the stream with the identifier `usid`, if the session has
    /// one.
    pub fn lookup(&self, usid: u64) -> (slot: Option<usize>)
        requires
            self.wf(),
        ensures
            match slot {
                Some(slot) => has_usid(self.streams(), slot as int, usid),
                None => forall|i: int| !has_usid(self.streams(), i, usid),
            },
            slot_of(self.streams(), usid) == match slot {
                Some(slot) => Some(slot as int),
                None => None,
            },
    {
        match self.index.get(&usid) {
            Some(slot) => {
                proof {
                    let streams = self.streams();
                    assert(has_usid(streams, *slot as int, usid));
                    let chosen = choose|i: int| has_usid(streams, i, usid);
                    self.lemma_well_formed();
                    assert(live(streams, chosen) && live(streams, *slot as int));
                }
                Some(*slot)
            },
            None => {
                proof {
                    assert forall|i: int| !has_usid(self.streams(), i, usid) by {
                        if has_usid(self.streams(), i, usid) {
                            assert(live(self.streams(), i));
                        }
                    }
                }
                None
            },
        }
    }

    /// Gives the stream in slot `id` the identifier `usid`.
    ///
    /// An identifier stays with its stream for life and names one stream
    /// only. So this fails with `UsidInUse` if another stream has the
    /// identifier or the stream has another identifier; to give a stream the
    /// identifier it has changes nothing.
    pub fn assign_usid(&mut self, id: usize, usid: u64) -> (result: Result<(), StreamError>)
        requires
            old(self).wf(),
        ensures
            final(self).wf(),
            final(self).same_routing(old(self)),
            result == assign_outcome(old(self).streams(), id as int, usid),
            final(self).streams() == if result is Ok {
                old(self).streams().update(
                    id as int,
                    Some(StreamView { usid: Some(usid), ..old(self).streams()[id as int]->Some_0 }),
                )
            } else {
                old(self).streams()
            },
    {
        let held = match self.get(id) {
            Some(stream) => stream.usid(),
            None => {
                return Err(StreamError::UnknownStream);
            },
        };
        let owner = self.lookup(usid);
        proof {
            let streams = self.streams();
            if let Some(o) = owner {
                assert(has_usid(streams, o as int, usid));
            }
            if held == Some(usid) {
                assert(has_usid(streams, id as int, usid));
                assert(streams =~= streams.update(id as int, streams[id as int]));
            }
        }
        if let Some(h) = held {
            return if h == usid {
                Ok(())
            } else {
                Err(StreamError::UsidInUse)
            };
        }
        if owner.is_some() {
            return Err(StreamError::UsidInUse);
        }
        match &mut self.slots[id] {
            Some(stream) => stream.set_usid(Some(usid)),
            None => {},
        }
        self.index.insert(usid, id);
        proof {
            let before = old(self).streams();
            let after = self.streams();
            assert(after =~= before.update(
                id as int,
                Some(StreamView { usid: Some(usid), ..before[id as int]->Some_0 }),
            ));
            assert forall|i: int| #[trigger] live(after, i) implies match after[i]->Some_0.parent {
                Some(p) => p < i && live(after, p as int),
                None => true,
            } by {
                assert(live(before, i));
            }
            assert forall|i: int| #[trigger] live(after, i) implies match after[i]->Some_0.usid {
                Some(u) => self.index@.contains_key(u) && self.index@[u] == i,
                None => true,
            } by {
                assert(live(before, i));
                if i != id {
                    assert(!has_usid(before, i, usid));
                }
            }
            assert forall|u: u64| #[trigger] self.index@.contains_key(u) implies has_usid(
                after,
                self.index@[u] as int,
                u,
            ) by {
                if u != usid {
                    assert(has_usid(before, old(self).index@[u] as int, u));
                }
            }
        }
        Ok(())
    }

    /// Whether the session has any stream.
    pub fn has_streams(&self) -> (any: bool)
        ensures
            any == exists|i: int| live(self.streams(), i),
    {
        let mut i: usize = 0;
        while i < self.slots.len()
            invariant
                i <= self.slots@.len(),
                forall|j: int| 0 <= j < i ==> !live(self.streams(), j),
            decreases self.slots@.len() - i,
        {
            if self.slots[i].is_some() {
                assert(live(self.streams(), i as int));
                return true;
            }
            i = i + 1;
        }
        false
    }

    /// The slots of the substreams of the stream in slot `id`, in rising
    /// order: exactly the streams whose parent is that stream.
    pub fn children(&self, id: usize) -> (children: Vec<usize>)
        ensures
            forall|k: int| 0 <= k < children@.len() ==> is_child(
                self.streams(),
                #[trigger] children@[k] as int,
                id as int,
            ),
            forall|k: int, l: int| 0 <= k < l < children@.len() ==> children@[k] < children@[l],
            forall|c: int|
                is_child(self.streams(), c, id as int) ==> #[trigger] children@.contains(
                    c as usize,
                ),
    {
        let mut children: Vec<usize> = Vec::new();
        let mut i: usize = 0;
        while i < self.slots.len()
            invariant
                i <= self.slots@.len(),
                forall|k: int| 0 <= k < children@.len() ==> is_child(
                    self.streams(),
                    #[trigger] children@[k] as int,
                    id as int,
                ) && children@[k] < i,
                forall|k: int, l: int| 0 <= k < l < children@.len() ==> children@[k] < children@[l],
                forall|c: int|
                    0 <= c < i && is_child(self.streams(), c, id as int)
                        ==> #[trigger] children@.contains(c as usize),
            decreases self.slots@.len() - i,
        {
            let is_child_of_id = match &self.slots[i] {
                Some(stream) => match stream.parent() {
                    Some(p) => p == id,
                    None => false,
                },
                None => false,
            };
            if is_child_of_id {
                let ghost before = children@;
                children.push(i);
                proof {
                    assert(children@[before.len() as int] == i);
                    assert forall|c: int|
                        0 <= c < i + 1 && is_child(self.streams(), c, id as int)
                            implies #[trigger] children@.contains(c as usize) by {
                        if c < i {
                            assert(before.contains(c as usize));
                            let k = choose|k: int| 0 <= k < before.len() && before[k] == c as usize;
                            assert(children@[k] == c as usize);
                        }
                    }
                }
            }
            i = i + 1;
        }
        children
    }

    /// Number of substreams of the stream in slot `parent` that the peer
    /// offered and the application has not yet accepted.
    pub fn waiting_offers(&self, parent: usize) -> (count: usize)
        ensures
            count == offers_waiting(self.streams(), parent as int, self.streams().len() as int),
    {
        let mut count: usize = 0;
        let mut i: usize = 0;
        while i < self.slots.len()
            invariant
                i <= self.slots@.len(),
                count <= i,
                count == offers_waiting(self.streams(), parent as int, i as int),
            decreases self.slots@.len() - i,
        {
            let waiting = match &self.slots[i] {
                Some(stream) => stream.is_awaiting_accept() && match stream.parent() {
                    Some(p) => p == parent,
                    None => false,
                },
                None => false,
            };
            assert(waiting == is_waiting(self.streams(), i as int, parent as int));
            if waiting {
                count = count + 1;
            }
            i = i + 1;
        }
        count
    }

    /// Opens a substream of the stream in slot `parent` and returns its
    /// slot.
    ///
    /// The substream can be written to at once. What is written goes out
    /// once the peer has signaled that it takes substreams of the parent.
    pub fn open_substream(&mut self, parent: usize) -> (result: Result<usize, StreamError>)
        requires
            old(self).wf(),
        ensures
            final(self).wf(),
            final(self).same_routing(old(self)),
            match result {
                Ok(slot) => {
                    &&& open_outcome(old(self).streams(), parent as int) is Ok
                    &&& slot == old(self).streams().len()
                    &&& final(self).streams() == old(self).streams().push(
                        Some(
                            fresh_substream(
                                old(self).streams()[parent as int]->Some_0,
                                parent,
                                false,
                            ),
                        ),
                    )
                },
                Err(error) => {
                    &&& open_outcome(old(self).streams(), parent as int) == Err::<
                        (),
                        StreamError,
                    >(error)
                    &&& final(self).streams() == old(self).streams()
                },
            },
    {
        let child = match self.get(parent) {
            Some(stream) => {
                if let Err(error) = stream.can_have_substream() {
                    return Err(error);
                }
                stream.substream(parent, false)
            },
            None => {
                return Err(StreamError::UnknownStream);
            },
        };
        Ok(self.install(child))
    }

    /// Takes in the peer's offer of a substream of the stream in slot
    /// `parent`, with the identifier `usid` if the offer names one, and
    /// returns the slot of the substream.
    ///
    /// The offer is queued for `accept_substream` if the parent's listen
    /// mode allows. It is refused with `OfferRejected` if the parent
    /// rejects substreams or has its limit of offers waiting, and with
    /// `UsidInUse` if a stream of the session has the identifier.
    pub fn offer_substream(&mut self, parent: usize, usid: Option<u64>) -> (result: Result<
        usize,
        StreamError,
    >)
        requires
            old(self).wf(),
        ensures
            final(self).wf(),
            final(self).same_coordination(old(self)),
            match result {
                Ok(slot) => {
                    &&& offer_outcome(old(self).streams(), parent as int, usid) is Ok
                    &&& slot == old(self).streams().len()
                    &&& final(self).streams() == old(self).streams().push(
                        Some(
                            StreamView {
                                usid,
                                ..fresh_substream(
                                    old(self).streams()[parent as int]->Some_0,
                                    parent,
                                    true,
                                )
                            },
                        ),
                    )
                    &&& final(self).events() == old(self).events().push(
                        Event::NewSubstream { parent, stream: slot },
                    )
                },
                Err(error) => {
                    &&& offer_outcome(old(self).streams(), parent as int, usid) == Err::<
                        (),
                        StreamError,
                    >(error)
                    &&& final(self).streams() == old(self).streams()
                    &&& final(self).events() == old(self).events()
                },
            },
    {
        let waiting = self.waiting_offers(parent);
        let child = match self.get(parent) {
            Some(stream) => {
                if let Err(error) = stream.can_have_substream() {
                    return Err(error);
                }
                let takes = match stream.listen_mode() {
                    ListenMode::Reject => false,
                    ListenMode::BufferLimit(limit) => waiting < limit,
                    ListenMode::Unlimited => true,
                };
                if !takes {
                    return Err(StreamError::OfferRejected);
                }
                stream.substream(parent, true)
            },
            None => {
                return Err(StreamError::UnknownStream);
            },
        };
        if let Some(u) = usid {
            let owner = self.lookup(u);
            if owner.is_some() {
                assert(has_usid(self.streams(), owner->Some_0 as int, u));
                return Err(StreamError::UsidInUse);
            }
        }
        let slot = self.install(child);
        if let Some(u) = usid {
            let ghost installed = self.streams();
            proof {
                assert forall|other: int| !has_usid(installed, other, u) by {
                    if has_usid(installed, other, u) {
                        assert(has_usid(old(self).streams(), other, u));
                    }
                }
            }
            let assigned = self.assign_usid(slot, u);
            proof {
                assert(assigned is Ok);
                assert(self.streams() =~= old(self).streams().push(
                    Some(
                        StreamView {
                            usid,
                            ..fresh_substream(
                                old(self).streams()[parent as int]->Some_0,
                                parent,
                                true,
                            )
                        },
                    ),
                ));
            }
        }
        self.events.push_back(Event::NewSubstream { parent, stream: slot });
        Ok(slot)
    }

    /// Hands the application the substream of the stream in slot `parent`
    /// that has waited longest to be accepted, or `None` if none waits.
    pub fn accept_substream(&mut self, parent: usize) -> (accepted: Option<usize>)
        requires
            old(self).wf(),
        ensures
            final(self).wf(),
            final(self).same_routing(old(self)),
            match accepted {
                Some(slot) => {
                    &&& is_waiting(old(self).streams(), slot as int, parent as int)
                    &&& forall|j: int|
                        0 <= j < slot ==> !is_waiting(old(self).streams(), j, parent as int)
                    &&& final(self).streams() == old(self).streams().update(
                        slot as int,
                        Some(
                            StreamView {
                                awaiting_accept: false,
                                ..old(self).streams()[slot as int]->Some_0
                            },
                        ),
                    )
                },
                None => {
                    &&& forall|j: int| !is_waiting(old(self).streams(), j, parent as int)
                    &&& final(self).streams() == old(self).streams()
                },
            },
    {
        let mut i: usize = 0;
        while i < self.slots.len()
            invariant
                i <= self.slots@.len(),
                *self == *old(self),
                old(self).wf(),
                forall|j: int| 0 <= j < i ==> !is_waiting(self.streams(), j, parent as int),
            decreases self.slots@.len() - i,
        {
            let waiting = match &self.slots[i] {
                Some(stream) => stream.is_awaiting_accept() && match stream.parent() {
                    Some(p) => p == parent,
                    None => false,
                },
                None => false,
            };
            assert(waiting == is_waiting(self.streams(), i as int, parent as int));
            if waiting {
                match &mut self.slots[i] {
                    Some(stream) => stream.accept(),
                    None => {},
                }
                proof {
                    self.lemma_changed_in_place(old(self), i);
                }
                return Some(i);
            }
            i = i + 1;
        }
        None
    }

    /// Records that the peer takes substreams of the stream in slot `id`.
    /// Substreams that were opened before and waited for this are bound to
    /// the peer, and what was written to them may go out.
    pub fn peer_listens(&mut self, id: usize) -> (result: Result<(), StreamError>)
        requires
            old(self).wf(),
        ensures
            final(self).wf(),
            final(self).same_routing(old(self)),
            result == known(old(self).streams(), id as int),
            final(self).streams() == after_peer_listens(old(self).streams(), id as int),
    {
        if !self.is_live(id) {
            assert(old(self).streams() =~= after_peer_listens(old(self).streams(), id as int));
            return Err(StreamError::UnknownStream);
        }
        let ghost before = old(self).streams();
        let ghost target = after_peer_listens(before, id as int);
        let count = self.slots.len();
        let mut i: usize = 0;
        while i < count
            invariant
                i <= count,
                count == self.slots@.len(),
                count == before.len(),
                before == old(self).streams(),
                target == after_peer_listens(before, id as int),
                live(before, id as int),
                self.wf(),
                self.same_routing(old(self)),
                forall|j: int| 0 <= j < i ==> #[trigger] self.streams()[j] == target[j],
                forall|j: int| i <= j < count ==> #[trigger] self.streams()[j] == before[j],
            decreases count - i,
        {
            let ghost prev = *self;
            assert(self.streams()[i as int] == before[i as int]);
            if i == id {
                match &mut self.slots[i] {
                    Some(stream) => stream.peer_listens(),
                    None => {},
                }
                proof {
                    self.lemma_changed_in_place(&prev, i);
                }
            } else {
                let unbound_child = match &self.slots[i] {
                    Some(stream) => !stream.is_peer_bound() && match stream.parent() {
                        Some(p) => p == id,
                        None => false,
                    },
                    None => false,
                };
                if unbound_child {
                    match &mut self.slots[i] {
                        Some(stream) => stream.peer_accepts(),
                        None => {},
                    }
                    proof {
                        self.lemma_changed_in_place(&prev, i);
                    }
                }
            }
            proof {
                assert(self.streams()[i as int] == target[i as int]);
                assert forall|j: int| 0 <= j < i + 1 implies #[trigger] self.streams()[j]
                    == target[j] by {
                    if j < i {
                        assert(prev.streams()[j] == target[j]);
                    }
                }
                assert forall|j: int| i + 1 <= j < count implies #[trigger] self.streams()[j]
                    == before[j] by {
                    assert(prev.streams()[j] == before[j]);
                }
            }
            i = i + 1;
        }
        proof {
            assert(self.streams() =~= target);
        }
        Ok(())
    }

    /// The slot of the stream to serve next, or `None` if no stream has
    /// anything for the transport.
    pub fn next_stream(&self) -> (next: Option<usize>)
        ensures
            match next {
                Some(next) => is_next(self.streams(), self.cursor() as int, next as int),
                None => forall|j: int| !is_ready(self.streams(), j),
            },
    {
        let ghost streams = self.streams();
        let mut first: Option<usize> = None;
        let mut behind: Option<usize> = None;
        let mut best: i32 = 0;
        let mut i: usize = 0;
        while i < self.slots.len()
            invariant
                i <= self.slots@.len(),
                streams == self.streams(),
                first is None ==> behind is None && forall|j: int|
                    0 <= j < i ==> !is_ready(streams, j),
                first matches Some(f) ==> {
                    &&& f < i
                    &&& is_ready(streams, f as int)
                    &&& streams[f as int]->Some_0.priority == best
                    &&& forall|j: int|
                        0 <= j < i && #[trigger] is_ready(streams, j) ==> streams[j]->Some_0.priority
                            <= best
                    &&& forall|j: int|
                        0 <= j < i && #[trigger] is_ready(streams, j) && streams[j]->Some_0.priority
                            == best ==> f <= j
                },
                behind matches Some(b) ==> {
                    &&& b < i
                    &&& b > self.cursor
                    &&& is_ready(streams, b as int)
                    &&& streams[b as int]->Some_0.priority == best
                    &&& forall|j: int|
                        0 <= j < i && #[trigger] is_ready(streams, j) && streams[j]->Some_0.priority
                            == best && j > self.cursor ==> b <= j
                },
                behind is None ==> forall|j: int|
                    0 <= j < i && #[trigger] is_ready(streams, j) && streams[j]->Some_0.priority
                        == best ==> j <= self.cursor,
            decreases self.slots@.len() - i,
        {
            let candidate = match &self.slots[i] {
                Some(stream) => if stream.is_ready() {
                    Some(stream.priority())
                } else {
                    None
                },
                None => None,
            };
            assert(candidate is Some == is_ready(streams, i as int));
            if let Some(priority) = candidate {
                if first.is_none() || priority > best {
                    best = priority;
                    first = Some(i);
                    behind = if i > self.cursor {
                        Some(i)
                    } else {
                        None
                    };
                } else if priority == best && behind.is_none() && i > self.cursor {
                    behind = Some(i);
                }
            }
            i = i + 1;
        }
        let next = if behind.is_some() {
            behind
        } else {
            first
        };
        proof {
            if let Some(n) = next {
                assert forall|j: int| #[trigger] is_ready(streams, j) implies streams[j]->Some_0.priority
                    <= streams[n as int]->Some_0.priority by {}
                assert(is_top(streams, n as int));
                assert forall|j: int| #[trigger] is_top(streams, j) implies if n > self.cursor {
                    j <= self.cursor || n <= j
                } else {
                    j <= self.cursor && n <= j
                } by {
                    assert(is_ready(streams, j));
                    assert(is_ready(streams, n as int));
                    assert(streams[j]->Some_0.priority == best);
                }
            } else {
                assert forall|j: int| !is_ready(streams, j) by {
                    if is_ready(streams, j) {
                        assert(0 <= j < i);
                    }
                }
            }
        }
        next
    }

    /// Takes the next segment for the transport, of at most `max` bytes.
    ///
    /// The stream served is the one `next_stream` names; it becomes the
    /// stream served last. The bytes taken are in flight from then on. A
    /// stream that the application has let go of is torn down, with its
    /// substreams, as soon as the segment leaves it finished.
    pub fn next_segment(&mut self, max: usize) -> (segment: Option<Segment>)
        requires
            old(self).wf(),
        ensures
            final(self).wf(),
            final(self).identity_bytes() == old(self).identity_bytes(),
            final(self).lookups() == old(self).lookups(),
            final(self).key_exchanges() == old(self).key_exchanges(),
            final(self).link() == old(self).link(),
            final(self).events() == old(self).events(),
            final(self).sequence() == old(self).sequence(),
            match segment {
                Some(segment) => {
                    let stream = old(self).streams()[segment.stream as int]->Some_0;
                    let limit = stream.segment_limit(max);
                    &&& is_next(
                        old(self).streams(),
                        old(self).cursor() as int,
                        segment.stream as int,
                    )
                    &&& segment.usid == stream.usid
                    &&& segment.data@ == taken_data(stream.outgoing, limit)
                    &&& segment.end_of_record == taken_ends_record(stream.outgoing, limit)
                    &&& segment.end_of_stream == stream.segment_ends_stream(max)
                    &&& final(self).cursor() == segment.stream
                    &&& final(self).streams() == reaped(
                        old(self).streams().update(
                            segment.stream as int,
                            Some(stream.after_segment(max)),
                        ),
                        segment.stream as int,
                    )
                },
                None => {
                    &&& forall|j: int| !is_ready(old(self).streams(), j)
                    &&& final(self).cursor() == old(self).cursor()
                    &&& final(self).streams() == old(self).streams()
                },
            },
    {
        let slot = match self.next_stream() {
            Some(slot) => slot,
            None => {
                return None;
            },
        };
        assert(is_top(self.streams(), slot as int));
        let mut usid: Option<u64> = None;
        let mut taken: Option<(Chunk, bool)> = None;
        match &mut self.slots[slot] {
            Some(stream) => {
                usid = stream.usid();
                taken = Some(stream.take_segment(max));
            },
            None => {},
        }
        self.cursor = slot;
        proof {
            let moved = PeerSession { cursor: old(self).cursor, ..*self };
            moved.lemma_changed_in_place(old(self), slot);
            assert(self.streams() == moved.streams());
        }
        self.reap(slot);
        match taken {
            Some((chunk, end_of_stream)) => Some(
                Segment {
                    stream: slot,
                    usid,
                    data: chunk.data,
                    end_of_record: chunk.end_of_record,
                    end_of_stream,
                },
            ),
            None => None,
        }
    }

    /// Resets the stream in slot `id` because the peer said so, and tells
    /// the application with a `StreamReset` event. The reset ends that
    /// stream only.
    pub fn peer_reset(&mut self, id: usize) -> (result: Result<(), StreamError>)
        requires
            old(self).wf(),
        ensures
            final(self).wf(),
            final(self).same_coordination(old(self)),
            result == known(old(self).streams(), id as int),
            final(self).streams() == reaped(
                with_stream(
                    old(self).streams(),
                    id as int,
                    old(self).streams()[id as int]->Some_0.after_shutdown(ShutdownMode::Reset),
                ),
                id as int,
            ),
            final(self).events() == if result is Ok {
                old(self).events().push(Event::StreamReset { stream: id })
            } else {
                old(self).events()
            },
    {
        if !self.is_live(id) {
            return Err(StreamError::UnknownStream);
        }
        let _ = self.shutdown(id, ShutdownMode::Reset);
        self.events.push_back(Event::StreamReset { stream: id });
        Ok(())
    }

    /// Sets the error message of the stream in slot `id` and tells the
    /// application with an `Error` event. The stream goes on as before.
    pub fn set_error(&mut self, id: usize, message: String) -> (result: Result<(), StreamError>)
        requires
            old(self).wf(),
        ensures
            final(self).wf(),
            final(self).same_coordination(old(self)),
            result == known(old(self).streams(), id as int),
            final(self).streams() == with_stream(
                old(self).streams(),
                id as int,
                StreamView { error: Some(message@), ..old(self).streams()[id as int]->Some_0 },
            ),
            final(self).events() == if result is Ok {
                old(self).events().push(Event::Error { stream: id })
            } else {
                old(self).events()
            },
    {
        if !self.is_live(id) {
            return Err(StreamError::UnknownStream);
        }
        match &mut self.slots[id] {
            Some(stream) => stream.set_error(message),
            None => {},
        }
        proof {
            self.lemma_changed_in_place(old(self), id);
        }
        self.events.push_back(Event::Error { stream: id });
        Ok(())
    }

    /// Takes the sequence number for the next datagram to the peer.
    ///
    /// The numbers start at zero and rise by one with every call, each in
    /// its narrowest width. After the last number that eight bytes hold the
    /// answer is `None`.
    pub fn next_sequence(&mut self) -> (number: Option<SequenceNumber>)
        requires
            old(self).wf(),
        ensures
            final(self).wf(),
            final(self).streams() == old(self).streams(),
            final(self).identity_bytes() == old(self).identity_bytes(),
            final(self).cursor() == old(self).cursor(),
            final(self).lookups() == old(self).lookups(),
            final(self).key_exchanges() == old(self).key_exchanges(),
            final(self).link() == old(self).link(),
            final(self).events() == old(self).events(),
            number == match old(self).sequence() {
                Some(next) => Some(SequenceNumber::of(next)),
                None => None,
            },
            final(self).sequence() == match old(self).sequence() {
                Some(next) => if next < u64::MAX {
                    Some((next + 1) as u64)
                } else {
                    None
                },
                None => None,
            },
    {
        match self.sequence {
            Some(next) => {
                self.sequence = if next < u64::MAX {
                    Some(next + 1)
                } else {
                    None
                };
                Some(SequenceNumber::from(next))
            },
            None => None,
        }
    }

    /// The state of the path to the peer, as the transport last reported
    /// it. A new session starts with the path down.
    pub fn link_status(&self) -> (status: LinkStatus)
        ensures
            status == self.link(),
    {
        self.link
    }

    /// Records the state of the path to the peer. A change is told to the
    /// application with a `Link` event. No stream is touched: streams stay
    /// as they are while the path is down, and go on when it is up again.
    pub fn set_link_status(&mut self, status: LinkStatus)
        requires
            old(self).wf(),
        ensures
            final(self).wf(),
            final(self).streams() == old(self).streams(),
            final(self).identity_bytes() == old(self).identity_bytes(),
            final(self).cursor() == old(self).cursor(),
            final(self).lookups() == old(self).lookups(),
            final(self).key_exchanges() == old(self).key_exchanges(),
            final(self).sequence() == old(self).sequence(),
            final(self).link() == status,
            final(self).events() == if status == old(self).link() {
                old(self).events()
            } else {
                old(self).events().push(Event::Link(status))
            },
    {
        if status != self.link {
            self.link = status;
            self.events.push_back(Event::Link(status));
        }
    }

    /// Takes the oldest event out of the queue, if there is one.
    pub fn poll_event(&mut self) -> (event: Option<Event>)
        requires
            old(self).wf(),
        ensures
            final(self).wf(),
            final(self).streams() == old(self).streams(),
            final(self).same_coordination(old(self)),
            event == if old(self).events().len() > 0 {
                Some(old(self).events()[0])
            } else {
                None
            },
            final(self).events() == if old(self).events().len() > 0 {
                old(self).events().subrange(1, old(self).events().len() as int)
            } else {
                old(self).events()
            },
    {
        self.events.pop_front()
    }

    /// Whether an event waits to be polled.
    pub fn has_events(&self) -> (any: bool)
        ensures
            any == (self.events().len() > 0),
    {
        self.events.len() > 0
    }

    /// Records that an address lookup for the peer is under way.
    pub fn begin_lookup(&mut self, token: u64)
        requires
            old(self).wf(),
        ensures
            final(self).wf(),
            final(self).streams() == old(self).streams(),
            final(self).identity_bytes() == old(self).identity_bytes(),
            final(self).cursor() == old(self).cursor(),
            final(self).lookups() == old(self).lookups().insert(token),
            final(self).key_exchanges() == old(self).key_exchanges(),
            final(self).link() == old(self).link(),
            final(self).events() == old(self).events(),
            final(self).sequence() == old(self).sequence(),
    {
        self.lookups.insert(token);
    }

    /// Records that the address lookup `token` has ended.
    pub fn finish_lookup(&mut self, token: u64)
        requires
            old(self).wf(),
        ensures
            final(self).wf(),
            final(self).streams() == old(self).streams(),
            final(self).identity_bytes() == old(self).identity_bytes(),
            final(self).cursor() == old(self).cursor(),
            final(self).lookups() == old(self).lookups().remove(token),
            final(self).key_exchanges() == old(self).key_exchanges(),
            final(self).link() == old(self).link(),
            final(self).events() == old(self).events(),
            final(self).sequence() == old(self).sequence(),
    {
        self.lookups.remove(&token);
    }

    /// Records that a key exchange with the peer is under way.
    pub fn begin_key_exchange(&mut self, token: u64)
        requires
            old(self).wf(),
        ensures
            final(self).wf(),
            final(self).streams() == old(self).streams(),
            final(self).identity_bytes() == old(self).identity_bytes(),
            final(self).cursor() == old(self).cursor(),
            final(self).lookups() == old(self).lookups(),
            final(self).key_exchanges() == old(self).key_exchanges().insert(token),
            final(self).link() == old(self).link(),
            final(self).events() == old(self).events(),
            final(self).sequence() == old(self).sequence(),
    {
        self.key_exchanges.insert(token);
    }

    /// Records that the key exchange `token` has ended.
    pub fn finish_key_exchange(&mut self, token: u64)
        requires
            old(self).wf(),
        ensures
            final(self).wf(),
            final(self).streams() == old(self).streams(),
            final(self).identity_bytes() == old(self).identity_bytes(),
            final(self).cursor() == old(self).cursor(),
            final(self).lookups() == old(self).lookups(),
            final(self).key_exchanges() == old(self).key_exchanges().remove(token),
            final(self).link() == old(self).link(),
            final(self).events() == old(self).events(),
            final(self).sequence() == old(self).sequence(),
    {
        self.key_exchanges.remove(&token);
    }

    /// Whether no further routing work for the peer is outstanding: no
    /// address lookup and no key exchange is under way.
    pub fn no_lookups_possible(&self) -> (none: bool)
        requires
            self.wf(),
        ensures
            none == (self.lookups() == Set::<u64>::empty() && self.key_exchanges() == Set::<
                u64,
            >::empty()),
    {
        let none = self.lookups.is_empty() && self.key_exchanges.is_empty();
        proof {
            if self.lookups@.len() == 0 {
                self.lookups@.lemma_len0_is_empty();
            }
            if self.key_exchanges@.len() == 0 {
                self.key_exchanges@.lemma_len0_is_empty();
            }
        }
        none
    }

    /// Whether the session can be dropped: it has no stream left and no
    /// routing work outstanding.
    pub fn is_idle(&self) -> (idle: bool)
        requires
            self.wf(),
        ensures
            idle == ((forall|i: int| !live(self.streams(), i)) && self.lookups() == Set::<
                u64,
            >::empty() && self.key_exchanges() == Set::<u64>::empty()),
    {
        !self.has_streams() && self.no_lookups_possible()
    }

    /// A session in which one stream changed in place, keeping its parent
    /// and its identifier, is well formed as it was before.
    proof fn lemma_changed_in_place(&self, before: &PeerSession, id: usize)
        requires
            before.wf(),
            live(before.streams(), id as int),
            self.slots@.len() == before.slots@.len(),
            self.slots@[id as int] is Some,
            self.slots@[id as int]->Some_0.wf(),
            self.slots@[id as int]->Some_0@.parent == before.streams()[id as int]->Some_0.parent,
            self.slots@[id as int]->Some_0@.usid == before.streams()[id as int]->Some_0.usid,
            forall|i: int|
                0 <= i < self.slots@.len() && i != id ==> self.slots@[i] == before.slots@[i],
            self.index@ == before.index@,
            self.lookups@ == before.lookups@,
            self.key_exchanges@ == before.key_exchanges@,
        ensures
            self.wf(),
            self.streams() == before.streams().update(
                id as int,
                Some(self.slots@[id as int]->Some_0@),
            ),
    {
        let old_streams = before.streams();
        assert(self.streams() =~= old_streams.update(
            id as int,
            Some(self.slots@[id as int]->Some_0@),
        ));
        lemma_update_in_place(old_streams, self.index@, id as int, self.slots@[id as int]->Some_0@);
    }
}

} // verus!
