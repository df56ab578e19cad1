//! The state of one host.
//!
//! A host owns the sessions of all its peers and the servers that the
//! application has registered. Nothing here is global: every instance stands
//! alone, and several can run side by side in one process.
//!
//! Datagrams come in through `receive`, which checks and reads them and
//! routes their frames to the streams they name. What the application
//! should hear of is queued as events in the sessions.
//! The host hands them out one by one, each with the slot of its session, to
//! whoever drives it.
//!
//! Peer sessions sit in slots, as streams do in a session: a slot names a
//! session for as long as it lives, and is not used again after the session
//! was dropped. A peer is found by its identity, a server by its pair of
//! names; in both cases the first that matches counts, and a second for the
//! same identity or pair is never made while the first is there.

use vstd::prelude::*;
use crate::framing::frame::{fits, BodyView, Frame, FrameBody, FrameView};
use crate::framing::frame_codec::{decode_frames, decoded_frames, frame_views, FrameError};
use crate::framing::frame_type::FrameKind;
use crate::framing::header::{decode, HeaderError, HeaderFields, PacketHeader};
use crate::arena::{
    after_peer_listens, closed_in_background, live, reaped, slot_of, usid_taken, with_stream,
};
use crate::peer::{Event, LinkStatus, PeerSession};
use crate::server::{Server, ServerView, StreamRef};
use crate::stream::{fresh_connection, ShutdownMode, StreamError, StreamView};

verus! {

/// Shortest datagram that is taken from the transport, in bytes.
pub const MIN_DATAGRAM: usize = 64;

/// Longest datagram that is taken from the transport, in bytes.
pub const MAX_DATAGRAM: usize = 1280;

/// Why the host turned something away.
#[derive(Clone, Copy, Debug, PartialEq, Eq, Structural)]
pub enum HostError {
    /// The datagram is shorter than the minimum.
    DatagramTooShort,
    /// The datagram is longer than the maximum.
    DatagramTooLong,
    /// The datagram's header could not be read.
    Header(HeaderError),
    /// No server is registered for the service and protocol.
    NoListener,
    /// No session runs to the peer.
    UnknownPeer,
    /// The frame's type code is none of the ten.
    UnknownFrameTag,
    /// The frame's body is not one that its type takes.
    MalformedFrame,
    /// The stream that the operation was routed to refused it.
    Stream(StreamError),
}

/// Whether slot `p` holds a session.
pub open spec fn peer_live(sessions: Seq<Option<PeerSession>>, p: int) -> bool {
    0 <= p < sessions.len() && sessions[p] is Some
}

/// Whether slot `p` holds the session of the peer `identity`.
pub open spec fn is_peer(sessions: Seq<Option<PeerSession>>, p: int, identity: Seq<u8>) -> bool {
    peer_live(sessions, p) && sessions[p]->Some_0.identity_bytes() == identity
}

/// The first slot from `from` on that holds the session of the peer
/// `identity`; the number of slots if none does.
pub open spec fn peer_from(sessions: Seq<Option<PeerSession>>, identity: Seq<u8>, from: int) -> int
    decreases sessions.len() - from,
{
    if from < 0 || from >= sessions.len() {
        sessions.len() as int
    } else if is_peer(sessions, from, identity) {
        from
    } else {
        peer_from(sessions, identity, from + 1)
    }
}

/// The slot of the session of the peer `identity`, if the host has one.
pub open spec fn peer_of(sessions: Seq<Option<PeerSession>>, identity: Seq<u8>) -> Option<int> {
    if peer_from(sessions, identity, 0) < sessions.len() {
        Some(peer_from(sessions, identity, 0))
    } else {
        None
    }
}

/// Whether `server` is registered for the pair named.
pub open spec fn serves(server: ServerView, service: Seq<char>, protocol: Seq<char>) -> bool {
    server.service == service && server.protocol == protocol
}

/// The place from `from` on of the first server for the pair named; the
/// number of servers if there is none.
pub open spec fn server_from(
    servers: Seq<ServerView>,
    service: Seq<char>,
    protocol: Seq<char>,
    from: int,
) -> int
    decreases servers.len() - from,
{
    if from < 0 || from >= servers.len() {
        servers.len() as int
    } else if serves(servers[from], service, protocol) {
        from
    } else {
        server_from(servers, service, protocol, from + 1)
    }
}

/// The place of the server for the pair named, if one is registered.
pub open spec fn server_of(servers: Seq<ServerView>, service: Seq<char>, protocol: Seq<char>) -> Option<
    int,
> {
    if server_from(servers, service, protocol, 0) < servers.len() {
        Some(server_from(servers, service, protocol, 0))
    } else {
        None
    }
}

/// Whether `session` is as a session is made for the peer `identity`: well
/// formed, without streams, events or routing work, with the path down and
/// the sequence counter at zero.
pub open spec fn is_new_session(session: PeerSession, identity: Seq<u8>) -> bool {
    &&& session.wf()
    &&& session.streams() == Seq::<Option<StreamView>>::empty()
    &&& session.identity_bytes() == identity
    &&& session.cursor() == 0
    &&& session.lookups() == Set::<u64>::empty()
    &&& session.key_exchanges() == Set::<u64>::empty()
    &&& session.link() == LinkStatus::Down
    &&& session.events() == Seq::<Event>::empty()
    &&& session.sequence() == Some(0u64)
}

/// The arena of the session of the peer `identity`; empty if the host has
/// no session of that peer.
pub open spec fn streams_of(sessions: Seq<Option<PeerSession>>, identity: Seq<u8>) -> Seq<
    Option<StreamView>,
> {
    match peer_of(sessions, identity) {
        Some(p) => sessions[p]->Some_0.streams(),
        None => Seq::empty(),
    }
}

/// The slot of the session of the peer `identity`, or the slot that a new
/// session would get.
pub open spec fn slot_for(sessions: Seq<Option<PeerSession>>, identity: Seq<u8>) -> int {
    match peer_of(sessions, identity) {
        Some(p) => p,
        None => sessions.len() as int,
    }
}

/// The events that wait in the session of the peer `identity`; none if the
/// host has no session of that peer.
pub open spec fn events_of(sessions: Seq<Option<PeerSession>>, identity: Seq<u8>) -> Seq<Event> {
    match peer_of(sessions, identity) {
        Some(p) => sessions[p]->Some_0.events(),
        None => Seq::empty(),
    }
}

/// The first slot from `from` on that holds a session with an event
/// waiting; the number of slots if none does.
pub open spec fn eventful_from(sessions: Seq<Option<PeerSession>>, from: int) -> int
    decreases sessions.len() - from,
{
    if from < 0 || from >= sessions.len() {
        sessions.len() as int
    } else if peer_live(sessions, from) && sessions[from]->Some_0.events().len() > 0 {
        from
    } else {
        eventful_from(sessions, from + 1)
    }
}

/// Whether `after` is `before` but for the session in slot `peer`, which is
/// there and well formed. If it was there before, its identity, scheduler
/// position, routing work, path and sequence counter are as they were; if
/// not, it has the next slot and starts without routing work, with the path
/// down and the counter at zero. What became of its streams and events each
/// operation says for itself.
pub open spec fn only_session_changed(
    before: Seq<Option<PeerSession>>,
    after: Seq<Option<PeerSession>>,
    peer: int,
) -> bool {
    &&& 0 <= peer <= before.len()
    &&& after.len() == if peer < before.len() {
        before.len()
    } else {
        before.len() + 1
    }
    &&& forall|q: int| 0 <= q < before.len() && q != peer ==> #[trigger] after[q] == before[q]
    &&& peer_live(after, peer)
    &&& after[peer]->Some_0.wf()
    &&& if peer_live(before, peer) {
        after[peer]->Some_0.same_coordination(&before[peer]->Some_0)
    } else {
        &&& after[peer]->Some_0.cursor() == 0
        &&& after[peer]->Some_0.lookups() == Set::<u64>::empty()
        &&& after[peer]->Some_0.key_exchanges() == Set::<u64>::empty()
        &&& after[peer]->Some_0.link() == LinkStatus::Down
        &&& after[peer]->Some_0.sequence() == Some(0u64)
    }
}

/// Whether the stream that `stream` names is there and waits to be
/// accepted.
pub open spec fn waits(sessions: Seq<Option<PeerSession>>, stream: StreamRef) -> bool {
    &&& peer_live(sessions, stream.peer as int)
    &&& live(sessions[stream.peer as int]->Some_0.streams(), stream.stream as int)
    &&& sessions[stream.peer as int]->Some_0.streams()[stream.stream as int]->Some_0.awaiting_accept
}

/// The place from `from` on of the first stream in `queue` that waits to be
/// accepted; the length of the queue if none does.
pub open spec fn waiting_from(
    queue: Seq<StreamRef>,
    sessions: Seq<Option<PeerSession>>,
    from: int,
) -> int
    decreases queue.len() - from,
{
    if from < 0 || from >= queue.len() {
        queue.len() as int
    } else if waits(sessions, queue[from]) {
        from
    } else {
        waiting_from(queue, sessions, from + 1)
    }
}

/// What the arrival of `frame` answers in a session with the arena
/// `streams`, or without a session of the peer if not `known`.
///
/// A type code outside the closed set is answered `UnknownFrameTag`. Frames
/// that carry no meaning are skipped without error. Any other frame must
/// have the body of its kind, come from a peer with a session, and name a
/// stream of that session; stream data is then answered as the stream
/// answers it.
pub open spec fn frame_outcome(
    known: bool,
    streams: Seq<Option<StreamView>>,
    frame: FrameView,
) -> Result<(), HostError> {
    match frame.frame_type.kind() {
        None => Err(HostError::UnknownFrameTag),
        Some(kind) => if kind.is_filler() {
            Ok(())
        } else if !fits(kind, frame.body) {
            Err(HostError::MalformedFrame)
        } else if !known {
            Err(HostError::UnknownPeer)
        } else {
            match slot_of(streams, frame.usid) {
                None => Err(HostError::Stream(StreamError::UnknownStream)),
                Some(slot) => match frame.body {
                    BodyView::Data { data, end_of_record } => match streams[slot]->Some_0.deliver_outcome(
                        data,
                    ) {
                        Ok(_) => Ok(()),
                        Err(error) => Err(HostError::Stream(error)),
                    },
                    _ => Ok(()),
                },
            }
        },
    }
}

/// Whether `frame` gets as far as a stream of the arena `streams`.
pub open spec fn frame_lands(known: bool, streams: Seq<Option<StreamView>>, frame: FrameView) -> bool {
    &&& frame.frame_type.kind() matches Some(kind)
    &&& !kind.is_filler()
    &&& fits(kind, frame.body)
    &&& known
    &&& slot_of(streams, frame.usid) is Some
}

/// What the arrival of `frame` from the peer `identity` answers.
pub open spec fn dispatch_outcome(
    sessions: Seq<Option<PeerSession>>,
    identity: Seq<u8>,
    frame: FrameView,
) -> Result<(), HostError> {
    frame_outcome(peer_of(sessions, identity) is Some, streams_of(sessions, identity), frame)
}

/// Whether `frame` from the peer `identity` gets as far as a stream.
pub open spec fn reaches_stream(
    sessions: Seq<Option<PeerSession>>,
    identity: Seq<u8>,
    frame: FrameView,
) -> bool {
    frame_lands(peer_of(sessions, identity) is Some, streams_of(sessions, identity), frame)
}

/// What a run of frames has come to in one session: the arena, the events
/// that wait, and how many of the frames were refused.
pub struct Tally {
    /// The streams of the session.
    pub streams: Seq<Option<StreamView>>,
    /// The events that wait in the session.
    pub events: Seq<Event>,
    /// Number of frames that were refused.
    pub refused: nat,
}

/// The tally after one more frame.
pub open spec fn tally_frame(known: bool, tally: Tally, frame: FrameView) -> Tally {
    let slot = slot_of(tally.streams, frame.usid)->Some_0;
    let kind = frame.frame_type.kind()->Some_0;
    Tally {
        streams: if frame_lands(known, tally.streams, frame) {
            dispatched(tally.streams, slot, kind, frame.body)
        } else {
            tally.streams
        },
        events: if frame_lands(known, tally.streams, frame) {
            tally.events + dispatch_events(tally.streams, slot, kind, frame.body)
        } else {
            tally.events
        },
        refused: tally.refused + if frame_outcome(known, tally.streams, frame) is Err {
            1nat
        } else {
            0nat
        },
    }
}

/// The tally after a run of frames, applied in order.
pub open spec fn tally_frames(known: bool, tally: Tally, frames: Seq<FrameView>) -> Tally
    decreases frames.len(),
{
    if frames.len() == 0 {
        tally
    } else {
        tally_frame(known, tally_frames(known, tally, frames.drop_last()), frames.last())
    }
}

/// Where a session of the peer `identity` stands before a run of frames.
pub open spec fn tally_of(sessions: Seq<Option<PeerSession>>, identity: Seq<u8>) -> Tally {
    Tally {
        streams: streams_of(sessions, identity),
        events: events_of(sessions, identity),
        refused: 0,
    }
}

/// What taking a datagram from the transport answers: its header, unless
/// the datagram is too short, too long, or its header cannot be read.
pub open spec fn datagram_outcome(datagram: Seq<u8>) -> Result<HeaderFields, HostError> {
    if datagram.len() < MIN_DATAGRAM {
        Err(HostError::DatagramTooShort)
    } else if datagram.len() > MAX_DATAGRAM {
        Err(HostError::DatagramTooLong)
    } else {
        match decode(datagram) {
            Ok(fields) => Ok(fields),
            Err(error) => Err(HostError::Header(error)),
        }
    }
}

/// What became of a datagram.
#[derive(Clone, Copy, Debug, PartialEq, Eq, Structural)]
pub struct Receipt {
    /// The fields of the datagram's header.
    pub header: HeaderFields,
    /// Number of frames that were read from the payload.
    pub frames: usize,
    /// Number of those frames that were refused.
    pub refused: usize,
    /// Why reading the payload stopped early, if it did. What followed the
    /// frame that could not be read was dropped.
    pub malformed: Option<FrameError>,
}

/// The arena after a frame of the given kind and body was applied to the
/// stream in slot `slot`.
pub open spec fn dispatched(
    streams: Seq<Option<StreamView>>,
    slot: int,
    kind: FrameKind,
    body: BodyView,
) -> Seq<Option<StreamView>> {
    let stream = streams[slot]->Some_0;
    match kind {
        FrameKind::Empty => streams,
        FrameKind::Padding => streams,
        FrameKind::Stream => with_stream(
            streams,
            slot,
            stream.after_deliver(body->data, body->end_of_record),
        ),
        FrameKind::Close => reaped(
            with_stream(streams, slot, StreamView { state: stream.state.close_read(), ..stream }),
            slot,
        ),
        FrameKind::Detach => with_stream(streams, slot, StreamView { peer_bound: false, ..stream }),
        FrameKind::Decongestion => with_stream(
            streams,
            slot,
            StreamView { transmit_window: body->Amount_0 as usize, ..stream },
        ),
        FrameKind::Priority => with_stream(
            streams,
            slot,
            StreamView { priority: body->Priority_0, ..stream },
        ),
        FrameKind::Reset => reaped(
            with_stream(streams, slot, stream.after_shutdown(ShutdownMode::Reset)),
            slot,
        ),
        FrameKind::Ack => with_stream(
            streams,
            slot,
            stream.after_acknowledge(body->Amount_0 as usize),
        ),
        FrameKind::Settings => after_peer_listens(streams, slot),
    }
}

/// The events that a frame of the given kind and body raises when it is
/// applied to the stream in slot `slot`: stream data that blocks the stream
/// is told, and so is a reset.
pub open spec fn dispatch_events(
    streams: Seq<Option<StreamView>>,
    slot: int,
    kind: FrameKind,
    body: BodyView,
) -> Seq<Event> {
    match kind {
        FrameKind::Stream => if streams[slot]->Some_0.deliver_blocks(
            body->data,
            body->end_of_record,
        ) {
            seq![Event::ReceiveBlocked { stream: slot as usize }]
        } else {
            Seq::empty()
        },
        FrameKind::Reset => seq![Event::StreamReset { stream: slot as usize }],
        _ => Seq::empty(),
    }
}

/// Whether two byte strings are the same.
pub fn same_bytes(a: &[u8], b: &[u8]) -> (same: bool)
    ensures
        same == (a@ == b@),
{
    let n = a.len();
    if n != b.len() {
        return false;
    }
    let mut i: usize = 0;
    while i < n
        invariant
            i <= n,
            n == a@.len(),
            n == b@.len(),
            forall|j: int| 0 <= j < i ==> a@[j] == b@[j],
        decreases n - i,
    {
        if a[i] != b[i] {
            return false;
        }
        i = i + 1;
    }
    assert(a@ =~= b@);
    true
}

/// A search for a peer ends at a slot that holds the peer's session, or
/// behind the last slot.
pub proof fn lemma_peer_from(sessions: Seq<Option<PeerSession>>, identity: Seq<u8>, from: int)
    requires
        0 <= from <= sessions.len(),
    ensures
        from <= peer_from(sessions, identity, from) <= sessions.len(),
        peer_from(sessions, identity, from) < sessions.len() ==> is_peer(
            sessions,
            peer_from(sessions, identity, from),
            identity,
        ),
        forall|j: int|
            from <= j < peer_from(sessions, identity, from) ==> !is_peer(sessions, j, identity),
    decreases sessions.len() - from,
{
    if from < sessions.len() && !is_peer(sessions, from, identity) {
        lemma_peer_from(sessions, identity, from + 1);
    }
}

/// A search for a server ends at a server for the pair, or behind the last
/// server.
pub proof fn lemma_server_from(
    servers: Seq<ServerView>,
    service: Seq<char>,
    protocol: Seq<char>,
    from: int,
)
    requires
        0 <= from <= servers.len(),
    ensures
        from <= server_from(servers, service, protocol, from) <= servers.len(),
        server_from(servers, service, protocol, from) < servers.len() ==> serves(
            servers[server_from(servers, service, protocol, from)],
            service,
            protocol,
        ),
        forall|j: int|
            from <= j < server_from(servers, service, protocol, from) ==> !serves(
                servers[j],
                service,
                protocol,
            ),
    decreases servers.len() - from,
{
    if from < servers.len() && !serves(servers[from], service, protocol) {
        lemma_server_from(servers, service, protocol, from + 1);
    }
}

/// A search that has passed the slots below `i` without a match goes on
/// from `i`.
proof fn lemma_peer_search(sessions: Seq<Option<PeerSession>>, identity: Seq<u8>, i: int)
    requires
        0 <= i <= sessions.len(),
        forall|j: int| 0 <= j < i ==> !is_peer(sessions, j, identity),
    ensures
        peer_from(sessions, identity, 0) == peer_from(sessions, identity, i),
    decreases i,
{
    if i > 0 {
        lemma_peer_search(sessions, identity, i - 1);
    }
}

/// A search that has passed the servers below `i` without a match goes on
/// from `i`.
proof fn lemma_server_search(
    servers: Seq<ServerView>,
    service: Seq<char>,
    protocol: Seq<char>,
    i: int,
)
    requires
        0 <= i <= servers.len(),
        forall|j: int| 0 <= j < i ==> !serves(servers[j], service, protocol),
    ensures
        server_from(servers, service, protocol, 0) == server_from(servers, service, protocol, i),
    decreases i,
{
    if i > 0 {
        lemma_server_search(servers, service, protocol, i - 1);
    }
}

/// A search that has passed the queue below `i` without a match goes on
/// from `i`.
proof fn lemma_waiting_search(queue: Seq<StreamRef>, sessions: Seq<Option<PeerSession>>, i: int)
    requires
        0 <= i <= queue.len(),
        forall|j: int| 0 <= j < i ==> !waits(sessions, #[trigger] queue[j]),
    ensures
        waiting_from(queue, sessions, 0) == waiting_from(queue, sessions, i),
    decreases i,
{
    if i > 0 {
        lemma_waiting_search(queue, sessions, i - 1);
    }
}

/// A host in which only one session changed is well formed as it was
/// before.
proof fn lemma_only_session_changed(before: &HostState, after: &HostState, peer: int)
    requires
        before.wf(),
        only_session_changed(before.sessions(), after.sessions(), peer),
    ensures
        after.wf(),
{
    assert forall|p: int| #[trigger] peer_live(after.sessions(), p) implies after.sessions()[p]->Some_0.wf() by {
        if p != peer {
            assert(after.sessions()[p] == before.sessions()[p]);
            assert(peer_live(before.sessions(), p));
        }
    }
}

/// Two hosts whose slots hold sessions of the same peers find every peer in
/// the same slot.
proof fn lemma_peer_search_same(
    a: Seq<Option<PeerSession>>,
    b: Seq<Option<PeerSession>>,
    identity: Seq<u8>,
    from: int,
)
    requires
        a.len() == b.len(),
        0 <= from <= a.len(),
        forall|q: int| 0 <= q < a.len() ==> is_peer(a, q, identity) == is_peer(b, q, identity),
    ensures
        peer_from(a, identity, from) == peer_from(b, identity, from),
    decreases a.len() - from,
{
    if from < a.len() && !is_peer(a, from, identity) {
        lemma_peer_search_same(a, b, identity, from + 1);
    }
}

/// Changes to one session add up: the session changed, and changed again,
/// is still the only session that changed.
proof fn lemma_only_session_changed_twice(
    a: Seq<Option<PeerSession>>,
    b: Seq<Option<PeerSession>>,
    c: Seq<Option<PeerSession>>,
    peer: int,
)
    requires
        peer_live(a, peer),
        only_session_changed(a, b, peer),
        only_session_changed(b, c, peer),
    ensures
        only_session_changed(a, c, peer),
{
    assert forall|q: int| 0 <= q < a.len() && q != peer implies #[trigger] c[q] == a[q] by {
        assert(b[q] == a[q]);
        assert(c[q] == b[q]);
    }
}

/// A host in which only the session of one peer changed finds every peer
/// where it was.
proof fn lemma_peer_search_after_change(
    a: Seq<Option<PeerSession>>,
    b: Seq<Option<PeerSession>>,
    peer: int,
    identity: Seq<u8>,
)
    requires
        peer_live(a, peer),
        only_session_changed(a, b, peer),
    ensures
        peer_of(b, identity) == peer_of(a, identity),
        peer_from(b, identity, 0) == peer_from(a, identity, 0),
{
    assert forall|q: int| 0 <= q < a.len() implies is_peer(a, q, identity) == is_peer(
        b,
        q,
        identity,
    ) by {
        if q != peer {
            assert(b[q] == a[q]);
        }
    }
    lemma_peer_search_same(a, b, identity, 0);
}

/// A host that gets one more session knows its old peers as before, and the
/// new peer by the new session if it knew no session of that peer.
proof fn lemma_peer_search_push(
    sessions: Seq<Option<PeerSession>>,
    session: PeerSession,
    identity: Seq<u8>,
    from: int,
)
    requires
        0 <= from <= sessions.len(),
    ensures
        peer_from(sessions, identity, from) < sessions.len() ==> peer_from(
            sessions.push(Some(session)),
            identity,
            from,
        ) == peer_from(sessions, identity, from),
        peer_from(sessions, identity, from) == sessions.len() && session.identity_bytes()
            == identity ==> peer_from(sessions.push(Some(session)), identity, from)
            == sessions.len(),
    decreases sessions.len() - from,
{
    let pushed = sessions.push(Some(session));
    if from < sessions.len() {
        assert(pushed[from] == sessions[from]);
        if !is_peer(sessions, from, identity) {
            lemma_peer_search_push(sessions, session, identity, from + 1);
        }
    } else {
        assert(pushed[from] == Some(session));
    }
}

/// The sessions and servers of one host.
pub struct HostState {
    peers: Vec<Option<PeerSession>>,
    servers: Vec<Server>,
}

impl HostState {
    /// The sessions: for each slot the session in it, if one is.
    pub closed spec fn sessions(&self) -> Seq<Option<PeerSession>> {
        self.peers@
    }

    /// The servers, in the order in which they were registered.
    pub closed spec fn servers(&self) -> Seq<ServerView> {
        Seq::new(self.servers@.len(), |k: int| self.servers@[k]@)
    }

    /// The host's invariant: every session is well formed.
    pub open spec fn wf(&self) -> bool {
        forall|p: int| #[trigger]
            peer_live(self.sessions(), p) ==> self.sessions()[p]->Some_0.wf()
    }

    /// A host without sessions and servers.
    pub fn new() -> (host: HostState)
        ensures
            host.wf(),
            host.sessions() == Seq::<Option<PeerSession>>::empty(),
            host.servers() == Seq::<ServerView>::empty(),
    {
        let host = HostState { peers: Vec::new(), servers: Vec::new() };
        assert(host.servers() =~= Seq::<ServerView>::empty());
        host
    }

    /// The place of the server for the pair named, if one is registered.
    fn find_server(&self, service: &String, protocol: &String) -> (place: Option<usize>)
        ensures
            server_of(self.servers(), service@, protocol@) == match place {
                Some(k) => Some(k as int),
                None => None,
            },
            place matches Some(k) ==> k < self.servers().len() && serves(
                self.servers()[k as int],
                service@,
                protocol@,
            ),
    {
        let mut i: usize = 0;
        while i < self.servers.len()
            invariant
                i <= self.servers@.len(),
                forall|j: int| 0 <= j < i ==> !serves(self.servers()[j], service@, protocol@),
            decreases self.servers@.len() - i,
        {
            if self.servers[i].serves(service, protocol) {
                proof {
                    lemma_server_search(self.servers(), service@, protocol@, i as int);
                }
                return Some(i);
            }
            i = i + 1;
        }
        proof {
            lemma_server_search(self.servers(), service@, protocol@, i as int);
        }
        None
    }

    /// Whether a server is registered for the pair named.
    pub fn is_listening(&self, service: &String, protocol: &String) -> (listening: bool)
        ensures
            listening == server_of(self.servers(), service@, protocol@) is Some,
    {
        self.find_server(service, protocol).is_some()
    }

    /// Registers a server for the pair named, unless one is registered
    /// already: to register a pair twice changes nothing. Several protocols
    /// may be registered under one service.
    ///
    /// Returns whether the server is new.
    pub fn listen(&mut self, service: String, protocol: String) -> (registered: bool)
        ensures
            final(self).sessions() == old(self).sessions(),
            registered == server_of(old(self).servers(), service@, protocol@) is None,
            final(self).servers() == if registered {
                old(self).servers().push(
                    ServerView { service: service@, protocol: protocol@, queue: Seq::empty() },
                )
            } else {
                old(self).servers()
            },
    {
        if self.find_server(&service, &protocol).is_some() {
            return false;
        }
        let ghost view = ServerView { service: service@, protocol: protocol@, queue: Seq::empty() };
        self.servers.push(Server::new(service, protocol));
        assert(self.servers() =~= old(self).servers().push(view));
        true
    }

    /// Number of streams that wait to be accepted on the pair named; zero if
    /// no server is registered for it.
    pub fn pending(&self, service: &String, protocol: &String) -> (count: usize)
        ensures
            count == match server_of(self.servers(), service@, protocol@) {
                Some(k) => self.servers()[k].queue.len(),
                None => 0,
            },
    {
        match self.find_server(service, protocol) {
            Some(k) => self.servers[k].pending(),
            None => 0,
        }
    }

    /// The slot of the session of the peer `identity`, if the host has one.
    pub fn find_peer(&self, identity: &[u8]) -> (peer: Option<usize>)
        ensures
            peer_of(self.sessions(), identity@) == match peer {
                Some(p) => Some(p as int),
                None => None,
            },
            peer matches Some(p) ==> is_peer(self.sessions(), p as int, identity@),
    {
        let mut i: usize = 0;
        while i < self.peers.len()
            invariant
                i <= self.peers@.len(),
                forall|j: int| 0 <= j < i ==> !is_peer(self.sessions(), j, identity@),
            decreases self.peers@.len() - i,
        {
            let found = match &self.peers[i] {
                Some(session) => same_bytes(session.identity().as_slice(), identity),
                None => false,
            };
            if found {
                proof {
                    lemma_peer_search(self.sessions(), identity@, i as int);
                }
                return Some(i);
            }
            i = i + 1;
        }
        proof {
            lemma_peer_search(self.sessions(), identity@, i as int);
        }
        None
    }

    /// Number of session slots handed out so far.
    pub fn peer_slots(&self) -> (count: usize)
        ensures
            count == self.sessions().len(),
    {
        self.peers.len()
    }

    /// The session in slot `peer`, if one is.
    pub fn session(&self, peer: usize) -> (session: Option<&PeerSession>)
        ensures
            match session {
                Some(session) => peer_live(self.sessions(), peer as int) && *session
                    == self.sessions()[peer as int]->Some_0,
                None => !peer_live(self.sessions(), peer as int),
            },
    {
        if peer < self.peers.len() {
            self.peers[peer].as_ref()
        } else {
            None
        }
    }

    /// The session in slot `peer`, if one is, to work on its streams.
    ///
    /// Whatever is done to the session is done to the host's session in that
    /// slot; nothing else of the host changes.
    pub fn session_mut(&mut self, peer: usize) -> (session: Option<&mut PeerSession>)
        ensures
            final(self).servers() == old(self).servers(),
            match session {
                Some(session) => {
                    &&& peer_live(old(self).sessions(), peer as int)
                    &&& *session == old(self).sessions()[peer as int]->Some_0
                    &&& final(self).sessions() == old(self).sessions().update(
                        peer as int,
                        Some(*final(session)),
                    )
                },
                None => {
                    &&& !peer_live(old(self).sessions(), peer as int)
                    &&& final(self).sessions() == old(self).sessions()
                },
            },
    {
        if peer >= self.peers.len() {
            return None;
        }
        match &mut self.peers[peer] {
            Some(session) => Some(session),
            None => None,
        }
    }

    /// The slot of the session of the peer `identity`, which is made if the
    /// host has none.
    pub fn session_for(&mut self, identity: &[u8]) -> (peer: usize)
        requires
            old(self).wf(),
        ensures
            final(self).wf(),
            final(self).servers() == old(self).servers(),
            peer_of(final(self).sessions(), identity@) == Some(peer as int),
            match peer_of(old(self).sessions(), identity@) {
                Some(p) => peer == p && final(self).sessions() == old(self).sessions(),
                None => {
                    &&& peer == old(self).sessions().len()
                    &&& final(self).sessions().len() == peer + 1
                    &&& final(self).sessions().subrange(0, peer as int) == old(self).sessions()
                    &&& peer_live(final(self).sessions(), peer as int)
                    &&& is_new_session(final(self).sessions()[peer as int]->Some_0, identity@)
                },
            },
    {
        if let Some(p) = self.find_peer(identity) {
            return p;
        }
        let peer = self.peers.len();
        let session = PeerSession::new(vstd::slice::slice_to_vec(identity));
        let ghost made = session;
        self.peers.push(Some(session));
        proof {
            lemma_peer_from(old(self).sessions(), identity@, 0);
            lemma_peer_search_push(old(self).sessions(), made, identity@, 0);
            assert(self.sessions() =~= old(self).sessions().push(Some(made)));
            assert(self.sessions().subrange(0, peer as int) =~= old(self).sessions());
            assert forall|p: int| #[trigger] peer_live(self.sessions(), p) implies self.sessions()[p]->Some_0.wf() by {
                if p < peer {
                    assert(peer_live(old(self).sessions(), p));
                }
            }
        }
        peer
    }

    /// Opens a top-level stream to the peer `identity`, for the service and
    /// protocol named, and returns its place. The stream is connected at
    /// once. A session for the peer is made if the host has none.
    pub fn connect_to(&mut self, identity: &[u8], service: String, protocol: String) -> (stream:
        StreamRef)
        requires
            old(self).wf(),
        ensures
            final(self).wf(),
            final(self).servers() == old(self).servers(),
            stream.peer == slot_for(old(self).sessions(), identity@),
            stream.stream == streams_of(old(self).sessions(), identity@).len(),
            only_session_changed(old(self).sessions(), final(self).sessions(), stream.peer as int),
            final(self).sessions()[stream.peer as int]->Some_0.identity_bytes() == identity@,
            final(self).sessions()[stream.peer as int]->Some_0.streams() == streams_of(
                old(self).sessions(),
                identity@,
            ).push(Some(fresh_connection(service@, protocol@, false))),
            final(self).sessions()[stream.peer as int]->Some_0.events() == events_of(
                old(self).sessions(),
                identity@,
            ),
    {
        proof {
            lemma_peer_from(self.sessions(), identity@, 0);
        }
        let peer = self.session_for(identity);
        let ghost mid = self.sessions();
        assert(peer_live(mid, peer as int));
        let mut slot: usize = 0;
        match &mut self.peers[peer] {
            Some(session) => {
                slot = session.open_stream(service, protocol);
            },
            None => {},
        }
        proof {
            let before = old(self).sessions();
            let after = self.sessions();
            assert forall|q: int| 0 <= q < before.len() && q != peer implies #[trigger] after[q]
                == before[q] by {
                assert(mid.subrange(0, before.len() as int)[q] == mid[q]);
            }
            if peer < before.len() {
                assert(mid == before);
            }
            lemma_only_session_changed(old(self), self, peer as int);
        }
        StreamRef { peer, stream: slot }
    }

    /// Connects anew a stream that is connected already: opens a stream to
    /// the peer `identity`, for the service and protocol named, and returns
    /// its place, while the stream `current` is closed in the background.
    ///
    /// The old stream is shut down in both directions, sends what it still
    /// owes, and is torn down when it is finished. Nothing waits for that.
    /// If `current` names no stream, this is `connect_to`.
    pub fn reconnect(
        &mut self,
        current: StreamRef,
        identity: &[u8],
        service: String,
        protocol: String,
    ) -> (stream: StreamRef)
        requires
            old(self).wf(),
        ensures
            final(self).wf(),
            final(self).servers() == old(self).servers(),
            stream.peer == slot_for(old(self).sessions(), identity@),
            final(self).sessions().len() == if stream.peer < old(self).sessions().len() {
                old(self).sessions().len()
            } else {
                old(self).sessions().len() + 1
            },
            forall|q: int|
                0 <= q < old(self).sessions().len() && q != stream.peer && q != current.peer
                    ==> #[trigger] final(self).sessions()[q] == old(self).sessions()[q],
            peer_live(old(self).sessions(), current.peer as int) && current.peer != stream.peer
                ==> {
                let before = old(self).sessions()[current.peer as int]->Some_0;
                let after = final(self).sessions()[current.peer as int]->Some_0;
                &&& peer_live(final(self).sessions(), current.peer as int)
                &&& after.same_routing(&before)
                &&& after.streams() == closed_in_background(
                    before.streams(),
                    current.stream as int,
                )
            },
            peer_live(final(self).sessions(), stream.peer as int),
            final(self).sessions()[stream.peer as int]->Some_0.identity_bytes() == identity@,
            peer_live(old(self).sessions(), stream.peer as int) ==> {
                let before = old(self).sessions()[stream.peer as int]->Some_0;
                final(self).sessions()[stream.peer as int]->Some_0.same_routing(&before)
            },
            ({
                let base = match peer_of(old(self).sessions(), identity@) {
                    Some(p) => if p == current.peer {
                        closed_in_background(
                            old(self).sessions()[p]->Some_0.streams(),
                            current.stream as int,
                        )
                    } else {
                        old(self).sessions()[p]->Some_0.streams()
                    },
                    None => Seq::empty(),
                };
                &&& stream.stream == base.len()
                &&& final(self).sessions()[stream.peer as int]->Some_0.streams() == base.push(
                    Some(fresh_connection(service@, protocol@, false)),
                )
            }),
    {
        if current.peer < self.peers.len() {
            assert(self.peers@[current.peer as int] is Some ==> peer_live(
                self.sessions(),
                current.peer as int,
            ));
            match &mut self.peers[current.peer] {
                Some(session) => {
                    let _ = session.close_in_background(current.stream);
                },
                None => {},
            }
        }
        let ghost mid = self.sessions();
        proof {
            let before = old(self).sessions();
            if peer_live(before, current.peer as int) {
                assert(only_session_changed(before, mid, current.peer as int));
                lemma_only_session_changed(old(self), self, current.peer as int);
            } else {
                assert(mid =~= before);
            }
            assert forall|q: int| 0 <= q < before.len() implies is_peer(before, q, identity@)
                == is_peer(mid, q, identity@) by {
                if q != current.peer {
                    assert(mid[q] == before[q]);
                }
            }
            lemma_peer_search_same(before, mid, identity@, 0);
            lemma_peer_from(before, identity@, 0);
        }
        self.connect_to(identity, service, protocol)
    }

    /// Takes in a peer's request for a top-level stream to the service and
    /// protocol named, with the identifier `usid` if the request names one.
    ///
    /// If a server is registered for the pair, the stream is made, connected,
    /// and queued in the server until the application accepts it; a session
    /// for the peer is made if the host has none, and the application is
    /// told with a `NewConnection` event. If no server is registered
    /// the request is refused with `NoListener`, and if a stream of the
    /// peer's session has the identifier, with `UsidInUse`. A refused request
    /// leaves no trace: no stream, no session, nothing queued.
    pub fn connect_request(
        &mut self,
        identity: &[u8],
        service: String,
        protocol: String,
        usid: Option<u64>,
    ) -> (result: Result<StreamRef, HostError>)
        requires
            old(self).wf(),
        ensures
            final(self).wf(),
            match result {
                Ok(stream) => {
                    let base = streams_of(old(self).sessions(), identity@);
                    &&& server_of(old(self).servers(), service@, protocol@) matches Some(k)
                    &&& final(self).servers() == old(self).servers().update(
                        k,
                        ServerView {
                            queue: old(self).servers()[k].queue.push(stream),
                            ..old(self).servers()[k]
                        },
                    )
                    &&& !usid_taken(base, usid)
                    &&& stream.peer == slot_for(old(self).sessions(), identity@)
                    &&& stream.stream == base.len()
                    &&& only_session_changed(
                        old(self).sessions(),
                        final(self).sessions(),
                        stream.peer as int,
                    )
                    &&& final(self).sessions()[stream.peer as int]->Some_0.identity_bytes()
                        == identity@
                    &&& final(self).sessions()[stream.peer as int]->Some_0.streams() == base.push(
                        Some(StreamView { usid, ..fresh_connection(service@, protocol@, true) }),
                    )
                    &&& final(self).sessions()[stream.peer as int]->Some_0.events() == events_of(
                        old(self).sessions(),
                        identity@,
                    ).push(Event::NewConnection { stream: stream.stream })
                },
                Err(error) => {
                    &&& final(self).sessions() == old(self).sessions()
                    &&& final(self).servers() == old(self).servers()
                    &&& error == if server_of(old(self).servers(), service@, protocol@) is None {
                        HostError::NoListener
                    } else {
                        HostError::Stream(StreamError::UsidInUse)
                    }
                    &&& server_of(old(self).servers(), service@, protocol@) is None || usid_taken(
                        streams_of(old(self).sessions(), identity@),
                        usid,
                    )
                },
            },
    {
        let place = match self.find_server(&service, &protocol) {
            Some(place) => place,
            None => {
                return Err(HostError::NoListener);
            },
        };
        proof {
            lemma_peer_from(self.sessions(), identity@, 0);
        }
        if let Some(u) = usid {
            if let Some(p) = self.find_peer(identity) {
                let taken = match self.session(p) {
                    Some(session) => {
                        assert(peer_live(self.sessions(), p as int));
                        session.lookup(u).is_some()
                    },
                    None => false,
                };
                if taken {
                    return Err(HostError::Stream(StreamError::UsidInUse));
                }
            }
        }
        let peer = self.session_for(identity);
        let ghost mid = self.sessions();
        assert(peer_live(mid, peer as int));
        let mut slot: usize = 0;
        match &mut self.peers[peer] {
            Some(session) => {
                match session.offer_stream(usid, service, protocol) {
                    Ok(made) => {
                        slot = made;
                    },
                    Err(_) => {},
                }
            },
            None => {},
        }
        let stream = StreamRef { peer, stream: slot };
        self.servers[place].enqueue(stream);
        proof {
            let before = old(self).sessions();
            let after = self.sessions();
            assert forall|q: int| 0 <= q < before.len() && q != peer implies #[trigger] after[q]
                == before[q] by {
                assert(mid.subrange(0, before.len() as int)[q] == mid[q]);
            }
            if peer < before.len() {
                assert(mid == before);
            }
            lemma_only_session_changed(old(self), self, peer as int);
            assert(self.servers() =~= old(self).servers().update(
                place as int,
                ServerView {
                    queue: old(self).servers()[place as int].queue.push(stream),
                    ..old(self).servers()[place as int]
                },
            ));
        }
        Ok(stream)
    }

    /// Hands the application the stream that has waited longest on the pair
    /// named, or `None` if none waits or no server is registered for the
    /// pair.
    ///
    /// Streams that went away while they were queued are passed over and
    /// leave the queue with the stream that is handed out.
    pub fn accept(&mut self, service: &String, protocol: &String) -> (accepted: Option<StreamRef>)
        requires
            old(self).wf(),
        ensures
            final(self).wf(),
            match server_of(old(self).servers(), service@, protocol@) {
                None => {
                    &&& accepted is None
                    &&& final(self).servers() == old(self).servers()
                    &&& final(self).sessions() == old(self).sessions()
                },
                Some(k) => {
                    let queue = old(self).servers()[k].queue;
                    let place = waiting_from(queue, old(self).sessions(), 0);
                    if place < queue.len() {
                        let stream = queue[place];
                        let session = old(self).sessions()[stream.peer as int]->Some_0;
                        &&& accepted == Some(stream)
                        &&& final(self).servers() == old(self).servers().update(
                            k,
                            ServerView {
                                queue: queue.subrange(place + 1, queue.len() as int),
                                ..old(self).servers()[k]
                            },
                        )
                        &&& only_session_changed(
                            old(self).sessions(),
                            final(self).sessions(),
                            stream.peer as int,
                        )
                        &&& final(self).sessions()[stream.peer as int]->Some_0.streams()
                            == session.streams().update(
                            stream.stream as int,
                            Some(
                                StreamView {
                                    awaiting_accept: false,
                                    ..session.streams()[stream.stream as int]->Some_0
                                },
                            ),
                        )
                        &&& final(self).sessions()[stream.peer as int]->Some_0.events()
                            == session.events()
                    } else {
                        &&& accepted is None
                        &&& final(self).servers() == old(self).servers().update(
                            k,
                            ServerView { queue: Seq::empty(), ..old(self).servers()[k] },
                        )
                        &&& final(self).sessions() == old(self).sessions()
                    }
                },
            },
    {
        let k = match self.find_server(service, protocol) {
            Some(k) => k,
            None => {
                return None;
            },
        };
        let ghost queue = self.servers()[k as int].queue;
        let ghost mut passed: int = 0;
        proof {
            assert(queue.subrange(0, queue.len() as int) =~= queue);
            assert(self.servers() =~= old(self).servers().update(
                k as int,
                ServerView { queue, ..old(self).servers()[k as int] },
            ));
        }
        loop
            invariant
                self.wf(),
                k < self.servers@.len(),
                self.servers@.len() == old(self).servers@.len(),
                self.sessions() == old(self).sessions(),
                server_of(old(self).servers(), service@, protocol@) == Some(k as int),
                queue == old(self).servers()[k as int].queue,
                0 <= passed <= queue.len(),
                forall|j: int| 0 <= j < passed ==> !waits(self.sessions(), #[trigger] queue[j]),
                self.servers() == old(self).servers().update(
                    k as int,
                    ServerView {
                        queue: queue.subrange(passed, queue.len() as int),
                        ..old(self).servers()[k as int]
                    },
                ),
            decreases queue.len() - passed,
        {
            let ghost servers_before = self.servers();
            assert(self.servers@[k as int]@ == servers_before[k as int]);
            let stream = match self.servers[k].dequeue() {
                Some(stream) => stream,
                None => {
                    proof {
                        lemma_waiting_search(queue, self.sessions(), passed);
                        assert(self.servers() =~= servers_before);
                        assert(queue.subrange(passed, queue.len() as int) =~= Seq::<StreamRef>::empty());
                    }
                    return None;
                },
            };
            proof {
                assert(stream == queue[passed]);
                let rest = queue.subrange(passed + 1, queue.len() as int);
                let target = old(self).servers().update(
                    k as int,
                    ServerView { queue: rest, ..old(self).servers()[k as int] },
                );
                assert(queue.subrange(passed, queue.len() as int).subrange(
                    1,
                    queue.len() - passed,
                ) =~= rest);
                assert(self.servers@[k as int]@.queue == rest);
                assert forall|j: int| 0 <= j < target.len() implies self.servers()[j]
                    == target[j] by {
                    if j != k {
                        assert(self.servers()[j] == servers_before[j]);
                    }
                }
                assert(self.servers() =~= target);
            }
            let waiting = match self.session(stream.peer) {
                Some(session) => {
                    assert(peer_live(self.sessions(), stream.peer as int));
                    match session.get(stream.stream) {
                        Some(found) => found.is_awaiting_accept(),
                        None => false,
                    }
                },
                None => false,
            };
            assert(waiting == waits(self.sessions(), stream));
            if waiting {
                proof {
                    lemma_waiting_search(queue, self.sessions(), passed);
                }
                match &mut self.peers[stream.peer] {
                    Some(session) => {
                        let _ = session.accept(stream.stream);
                    },
                    None => {},
                }
                proof {
                    lemma_only_session_changed(old(self), self, stream.peer as int);
                }
                return Some(stream);
            }
            proof {
                passed = passed + 1;
            }
        }
    }

    /// Routes a frame that arrived from the peer `identity` to the stream
    /// that it names, and applies it there.
    ///
    /// Stream data is delivered; if it blocks the stream, the application
    /// is told with a `ReceiveBlocked` event. `CLOSE` closes the
    /// stream's read direction. `RESET` resets the stream and is told with a
    /// `StreamReset` event. `DETACH` takes the stream off the channel.
    /// `ACK` acknowledges bytes, `DECONGESTION` grants a transmit window,
    /// `PRIORITY` sets the priority, and `SETTINGS` says that the peer takes
    /// substreams of the stream. `EMPTY` and `PADDING` are skipped. A frame
    /// that does not get as far as a stream is dropped and changes nothing.
    pub fn dispatch(&mut self, identity: &[u8], frame: &Frame) -> (result: Result<(), HostError>)
        requires
            old(self).wf(),
        ensures
            final(self).wf(),
            final(self).servers() == old(self).servers(),
            result == dispatch_outcome(old(self).sessions(), identity@, frame@),
            if reaches_stream(old(self).sessions(), identity@, frame@) {
                let peer = peer_of(old(self).sessions(), identity@)->Some_0;
                let streams = streams_of(old(self).sessions(), identity@);
                &&& only_session_changed(old(self).sessions(), final(self).sessions(), peer)
                &&& final(self).sessions()[peer]->Some_0.streams() == dispatched(
                    streams,
                    slot_of(streams, frame.usid)->Some_0,
                    frame.frame_type.kind()->Some_0,
                    frame.body@,
                )
                &&& final(self).sessions()[peer]->Some_0.events() == events_of(
                    old(self).sessions(),
                    identity@,
                ) + dispatch_events(
                    streams,
                    slot_of(streams, frame.usid)->Some_0,
                    frame.frame_type.kind()->Some_0,
                    frame.body@,
                )
            } else {
                final(self).sessions() == old(self).sessions()
            },
    {
        let kind = match frame.frame_type.kind() {
            Some(kind) => kind,
            None => {
                return Err(HostError::UnknownFrameTag);
            },
        };
        if kind.is_filler() {
            return Ok(());
        }
        if !frame.body.fits_kind(kind) {
            return Err(HostError::MalformedFrame);
        }
        let peer = match self.find_peer(identity) {
            Some(peer) => peer,
            None => {
                return Err(HostError::UnknownPeer);
            },
        };
        assert(peer_live(self.sessions(), peer as int));
        let found = match self.session(peer) {
            Some(session) => session.lookup(frame.usid),
            None => None,
        };
        let slot = match found {
            Some(slot) => slot,
            None => {
                return Err(HostError::Stream(StreamError::UnknownStream));
            },
        };
        let mut result: Result<(), HostError> = Ok(());
        match &mut self.peers[peer] {
            Some(session) => {
                match kind {
                    FrameKind::Stream => {
                        if let FrameBody::Data { data, end_of_record } = &frame.body {
                            if let Err(error) = session.deliver(slot, data.as_slice(), *end_of_record) {
                                result = Err(HostError::Stream(error));
                            }
                        }
                    },
                    FrameKind::Close => {
                        let _ = session.peer_closed(slot);
                    },
                    FrameKind::Detach => {
                        let _ = session.detach(slot);
                    },
                    FrameKind::Decongestion => {
                        if let FrameBody::Amount(window) = &frame.body {
                            let _ = session.set_transmit_window(slot, *window as usize);
                        }
                    },
                    FrameKind::Priority => {
                        if let FrameBody::Priority(priority) = &frame.body {
                            let _ = session.set_priority(slot, *priority);
                        }
                    },
                    FrameKind::Reset => {
                        let _ = session.peer_reset(slot);
                    },
                    FrameKind::Ack => {
                        if let FrameBody::Amount(bytes) = &frame.body {
                            let _ = session.acknowledge(slot, *bytes as usize);
                        }
                    },
                    FrameKind::Settings => {
                        let _ = session.peer_listens(slot);
                    },
                    _ => {},
                }
            },
            None => {},
        }
        proof {
            lemma_only_session_changed(old(self), self, peer as int);
        }
        result
    }

    /// Routes a run of frames that arrived from the peer `identity`, one
    /// after the other, and returns how many of them were refused. A frame
    /// that is refused does not keep the frames behind it from being routed.
    pub fn dispatch_all(&mut self, identity: &[u8], frames: &[Frame]) -> (refused: usize)
        requires
            old(self).wf(),
        ensures
            final(self).wf(),
            final(self).servers() == old(self).servers(),
            ({
                let known = peer_of(old(self).sessions(), identity@) is Some;
                let tally = tally_frames(
                    known,
                    tally_of(old(self).sessions(), identity@),
                    frame_views(frames@),
                );
                &&& refused == tally.refused
                &&& if known {
                    let peer = peer_of(old(self).sessions(), identity@)->Some_0;
                    &&& only_session_changed(old(self).sessions(), final(self).sessions(), peer)
                    &&& final(self).sessions()[peer]->Some_0.streams() == tally.streams
                    &&& final(self).sessions()[peer]->Some_0.events() == tally.events
                } else {
                    final(self).sessions() == old(self).sessions()
                }
            }),
    {
        let count = frames.len();
        let ghost views = frame_views(frames@);
        let ghost known = peer_of(self.sessions(), identity@) is Some;
        let ghost start = tally_of(self.sessions(), identity@);
        let mut refused: usize = 0;
        let mut i: usize = 0;
        proof {
            lemma_peer_from(self.sessions(), identity@, 0);
            assert(views.subrange(0, 0) =~= Seq::<FrameView>::empty());
        }
        while i < count
            invariant
                i <= count,
                count == frames@.len(),
                refused <= i,
                views == frame_views(frames@),
                old(self).wf(),
                self.wf(),
                self.servers() == old(self).servers(),
                known == peer_of(old(self).sessions(), identity@) is Some,
                start == tally_of(old(self).sessions(), identity@),
                peer_of(self.sessions(), identity@) == peer_of(old(self).sessions(), identity@),
                known ==> peer_live(
                    old(self).sessions(),
                    peer_of(old(self).sessions(), identity@)->Some_0,
                ) && only_session_changed(
                    old(self).sessions(),
                    self.sessions(),
                    peer_of(old(self).sessions(), identity@)->Some_0,
                ),
                !known ==> self.sessions() == old(self).sessions(),
                tally_frames(known, start, views.subrange(0, i as int)) == (Tally {
                    streams: streams_of(self.sessions(), identity@),
                    events: events_of(self.sessions(), identity@),
                    refused: refused as nat,
                }),
            decreases count - i,
        {
            let ghost before = self.sessions();
            let result = self.dispatch(identity, &frames[i]);
            proof {
                let peer = peer_of(old(self).sessions(), identity@);
                assert(views.subrange(0, i + 1).drop_last() =~= views.subrange(0, i as int));
                assert(views.subrange(0, i + 1).last() == frames@[i as int]@);
                if reaches_stream(before, identity@, frames@[i as int]@) {
                    lemma_only_session_changed_twice(
                        old(self).sessions(),
                        before,
                        self.sessions(),
                        peer->Some_0,
                    );
                    lemma_peer_search_after_change(
                        old(self).sessions(),
                        self.sessions(),
                        peer->Some_0,
                        identity@,
                    );
                }
            }
            if result.is_err() {
                refused = refused + 1;
            }
            i = i + 1;
        }
        proof {
            assert(views.subrange(0, count as int) =~= views);
        }
        refused
    }

    /// Takes a datagram from the peer `identity`: checks its size, reads its
    /// header, reads the frames behind the header and routes them.
    ///
    /// A datagram that is too short or too long, or whose header cannot be
    /// read, is dropped whole and changes nothing. A frame that cannot be
    /// read is dropped with what follows it; the frames before it are
    /// routed.
    pub fn receive(&mut self, identity: &[u8], datagram: &[u8]) -> (result: Result<
        Receipt,
        HostError,
    >)
        requires
            old(self).wf(),
        ensures
            final(self).wf(),
            final(self).servers() == old(self).servers(),
            match result {
                Err(error) => {
                    &&& datagram_outcome(datagram@) == Err::<HeaderFields, HostError>(error)
                    &&& final(self).sessions() == old(self).sessions()
                },
                Ok(receipt) => {
                    let payload = datagram@.subrange(
                        receipt.header.encoded_len() as int,
                        datagram@.len() as int,
                    );
                    let known = peer_of(old(self).sessions(), identity@) is Some;
                    let tally = tally_frames(
                        known,
                        tally_of(old(self).sessions(), identity@),
                        decoded_frames(payload).0,
                    );
                    &&& datagram_outcome(datagram@) == Ok::<HeaderFields, HostError>(
                        receipt.header,
                    )
                    &&& receipt.frames == decoded_frames(payload).0.len()
                    &&& receipt.malformed == decoded_frames(payload).1
                    &&& receipt.refused == tally.refused
                    &&& if known {
                        let peer = peer_of(old(self).sessions(), identity@)->Some_0;
                        &&& only_session_changed(
                            old(self).sessions(),
                            final(self).sessions(),
                            peer,
                        )
                        &&& final(self).sessions()[peer]->Some_0.streams() == tally.streams
                        &&& final(self).sessions()[peer]->Some_0.events() == tally.events
                    } else {
                        final(self).sessions() == old(self).sessions()
                    }
                },
            },
    {
        let (header, start) = match receive_datagram(datagram) {
            Ok(header) => (header.fields(), header.len()),
            Err(error) => {
                return Err(error);
            },
        };
        let payload = vstd::slice::slice_subrange(datagram, start, datagram.len());
        let decoded = decode_frames(payload);
        let refused = self.dispatch_all(identity, decoded.frames.as_slice());
        Ok(
            Receipt {
                header,
                frames: decoded.frames.len(),
                refused,
                malformed: decoded.error,
            },
        )
    }

    /// Takes the oldest event of the first session that has one, together
    /// with the slot of the session; `None` if no event waits anywhere.
    pub fn next_event(&mut self) -> (event: Option<(usize, Event)>)
        requires
            old(self).wf(),
        ensures
            final(self).wf(),
            final(self).servers() == old(self).servers(),
            ({
                let peer = eventful_from(old(self).sessions(), 0);
                if peer < old(self).sessions().len() {
                    let before = old(self).sessions()[peer]->Some_0;
                    let after = final(self).sessions()[peer]->Some_0;
                    &&& event == Some((peer as usize, before.events()[0]))
                    &&& only_session_changed(old(self).sessions(), final(self).sessions(), peer)
                    &&& after.streams() == before.streams()
                    &&& after.events() == before.events().subrange(
                        1,
                        before.events().len() as int,
                    )
                } else {
                    &&& event is None
                    &&& final(self).sessions() == old(self).sessions()
                }
            }),
    {
        let mut i: usize = 0;
        while i < self.peers.len()
            invariant
                i <= self.peers@.len(),
                *self == *old(self),
                old(self).wf(),
                eventful_from(self.sessions(), 0) == eventful_from(self.sessions(), i as int),
            decreases self.peers@.len() - i,
        {
            let eventful = match &self.peers[i] {
                Some(session) => session.has_events(),
                None => false,
            };
            if eventful {
                assert(peer_live(self.sessions(), i as int));
                let mut event: Option<Event> = None;
                match &mut self.peers[i] {
                    Some(session) => {
                        event = session.poll_event();
                    },
                    None => {},
                }
                proof {
                    lemma_only_session_changed(old(self), self, i as int);
                }
                return match event {
                    Some(event) => Some((i, event)),
                    None => None,
                };
            }
            i = i + 1;
        }
        None
    }

    /// Drops the session in slot `peer` if it is idle: without streams and
    /// without routing work under way. Returns whether it was dropped.
    pub fn reap_peer(&mut self, peer: usize) -> (dropped: bool)
        requires
            old(self).wf(),
        ensures
            final(self).wf(),
            final(self).servers() == old(self).servers(),
            dropped == (peer_live(old(self).sessions(), peer as int) && {
                let session = old(self).sessions()[peer as int]->Some_0;
                &&& forall|i: int| !live(session.streams(), i)
                &&& session.lookups() == Set::<u64>::empty()
                &&& session.key_exchanges() == Set::<u64>::empty()
            }),
            final(self).sessions() == if dropped {
                old(self).sessions().update(peer as int, None)
            } else {
                old(self).sessions()
            },
    {
        let idle = match self.session(peer) {
            Some(session) => {
                assert(peer_live(self.sessions(), peer as int));
                session.is_idle()
            },
            None => false,
        };
        if idle {
            self.peers[peer] = None;
            proof {
                assert forall|p: int| #[trigger] peer_live(self.sessions(), p) implies self.sessions()[p]->Some_0.wf() by {
                    assert(peer_live(old(self).sessions(), p));
                }
            }
        }
        idle
    }
}

/// Takes a datagram from the transport: checks its size, then reads its
/// header.
///
/// A datagram shorter than 64 bytes or longer than 1280 is turned away
/// before its header is looked at. One of a size in between is answered as
/// the header codec answers it.
pub fn receive_datagram<'a>(datagram: &'a [u8]) -> (result: Result<PacketHeader<'a>, HostError>)
    ensures
        match result {
            Ok(header) => {
                &&& datagram_outcome(datagram@) == Ok::<HeaderFields, HostError>(header@)
                &&& header@.encoded_len() <= datagram@.len()
                &&& header.bytes() == datagram@.subrange(0, header@.encoded_len() as int)
            },
            Err(error) => datagram_outcome(datagram@) == Err::<HeaderFields, HostError>(error),
        },
{
    if datagram.len() < MIN_DATAGRAM {
        return Err(HostError::DatagramTooShort);
    }
    if datagram.len() > MAX_DATAGRAM {
        return Err(HostError::DatagramTooLong);
    }
    match PacketHeader::parse(datagram) {
        Ok(header) => Ok(header),
        Err(error) => Err(HostError::Header(error)),
    }
}

} // verus!
