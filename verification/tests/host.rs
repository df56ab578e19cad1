use sss::framing::frame::{Frame, FrameBody};
use sss::framing::frame_type::{FrameKind, FrameType};
use sss::framing::header::{HeaderError, PacketHeader};
use sss::framing::sequence::SequenceNumber;
use sss::host::{receive_datagram, same_bytes, HostError, HostState, MAX_DATAGRAM, MIN_DATAGRAM};
use sss::peer::{Event, LinkStatus};
use sss::queue::Chunk;
use sss::server::{Server, StreamRef};
use sss::stream::{ListenMode, Received, ShutdownMode, StreamError, StreamState};

fn name(text: &str) -> String {
    text.to_string()
}

fn frame(kind: FrameKind, usid: u64, body: FrameBody) -> Frame {
    Frame { frame_type: kind.frame_type(), usid, body }
}

fn listening_host() -> HostState {
    let mut host = HostState::new();
    assert!(host.listen(name("Web"), name("HTTP/1.1")));
    host
}

fn stream_state(host: &HostState, stream: StreamRef) -> Option<StreamState> {
    host.session(stream.peer)
        .and_then(|session| session.get(stream.stream))
        .map(|stream| stream.state())
}

#[test]
fn a_request_without_a_listener_leaves_no_trace() {
    let mut host = HostState::new();
    assert_eq!(
        host.connect_request(b"alice", name("Web"), name("HTTP/1.1"), Some(1)),
        Err(HostError::NoListener)
    );
    assert_eq!(host.peer_slots(), 0);
    assert_eq!(host.find_peer(b"alice"), None);
    assert_eq!(host.pending(&name("Web"), &name("HTTP/1.1")), 0);
    assert_eq!(host.accept(&name("Web"), &name("HTTP/1.1")), None);

    assert!(host.listen(name("Web"), name("HTTP/1.0")));
    assert_eq!(
        host.connect_request(b"alice", name("Web"), name("HTTP/1.1"), Some(1)),
        Err(HostError::NoListener)
    );
    assert_eq!(host.peer_slots(), 0);
    assert_eq!(host.pending(&name("Web"), &name("HTTP/1.0")), 0);
}

#[test]
fn listening_is_idempotent_per_pair() {
    let mut host = HostState::new();
    assert!(!host.is_listening(&name("Web"), &name("HTTP/1.1")));
    assert!(host.listen(name("Web"), name("HTTP/1.1")));
    assert!(!host.listen(name("Web"), name("HTTP/1.1")));
    assert!(host.listen(name("Web"), name("HTTP/1.0")));
    assert!(host.listen(name("File"), name("HTTP/1.1")));
    assert!(host.is_listening(&name("Web"), &name("HTTP/1.1")));
    assert!(host.is_listening(&name("Web"), &name("HTTP/1.0")));
    assert!(host.is_listening(&name("File"), &name("HTTP/1.1")));
    assert!(!host.is_listening(&name("File"), &name("HTTP/1.0")));
    assert!(!host.is_listening(&name("web"), &name("HTTP/1.1")));
}

#[test]
fn requests_queue_and_are_accepted_in_order() {
    let mut host = listening_host();
    assert!(host.listen(name("Web"), name("HTTP/1.0")));
    let first = host.connect_request(b"alice", name("Web"), name("HTTP/1.1"), Some(1)).unwrap();
    let second = host.connect_request(b"bob", name("Web"), name("HTTP/1.1"), Some(1)).unwrap();
    let third = host.connect_request(b"alice", name("Web"), name("HTTP/1.1"), None).unwrap();
    let other = host.connect_request(b"bob", name("Web"), name("HTTP/1.0"), None).unwrap();
    assert_eq!(first, StreamRef { peer: 0, stream: 0 });
    assert_eq!(second, StreamRef { peer: 1, stream: 0 });
    assert_eq!(third, StreamRef { peer: 0, stream: 1 });
    assert_eq!(other, StreamRef { peer: 1, stream: 1 });
    assert_eq!(host.peer_slots(), 2);
    assert_eq!(host.find_peer(b"alice"), Some(0));
    assert_eq!(host.find_peer(b"bob"), Some(1));
    assert_eq!(host.find_peer(b"carol"), None);
    assert_eq!(host.pending(&name("Web"), &name("HTTP/1.1")), 3);
    assert_eq!(host.pending(&name("Web"), &name("HTTP/1.0")), 1);
    assert_eq!(stream_state(&host, first), Some(StreamState::Connected));
    let waiting = host.session(0).unwrap().get(0).unwrap();
    assert!(waiting.is_awaiting_accept());
    assert_eq!(waiting.usid(), Some(1));
    assert_eq!(waiting.service(), "Web");
    assert_eq!(waiting.protocol(), "HTTP/1.1");

    assert_eq!(host.accept(&name("Web"), &name("HTTP/1.1")), Some(first));
    assert!(!host.session(0).unwrap().get(0).unwrap().is_awaiting_accept());
    assert_eq!(host.accept(&name("Web"), &name("HTTP/1.1")), Some(second));
    assert_eq!(host.accept(&name("Web"), &name("HTTP/1.0")), Some(other));
    assert_eq!(host.accept(&name("Web"), &name("HTTP/1.1")), Some(third));
    assert_eq!(host.accept(&name("Web"), &name("HTTP/1.1")), None);
    assert_eq!(host.accept(&name("File"), &name("FTP")), None);
}

#[test]
fn a_request_with_a_taken_identifier_is_refused() {
    let mut host = listening_host();
    let first = host.connect_request(b"alice", name("Web"), name("HTTP/1.1"), Some(5)).unwrap();
    assert_eq!(
        host.connect_request(b"alice", name("Web"), name("HTTP/1.1"), Some(5)),
        Err(HostError::Stream(StreamError::UsidInUse))
    );
    assert_eq!(host.pending(&name("Web"), &name("HTTP/1.1")), 1);
    assert_eq!(host.session(0).unwrap().slot_count(), 1);
    assert!(host.connect_request(b"bob", name("Web"), name("HTTP/1.1"), Some(5)).is_ok());
    assert_eq!(host.accept(&name("Web"), &name("HTTP/1.1")), Some(first));
}

#[test]
fn accept_passes_over_streams_that_went_away() {
    let mut host = listening_host();
    let gone = host.connect_request(b"alice", name("Web"), name("HTTP/1.1"), None).unwrap();
    let stays = host.connect_request(b"alice", name("Web"), name("HTTP/1.1"), None).unwrap();
    let also_gone = host.connect_request(b"bob", name("Web"), name("HTTP/1.1"), None).unwrap();
    assert_eq!(host.session_mut(gone.peer).unwrap().remove_stream(gone.stream), Ok(()));
    assert_eq!(host.session_mut(also_gone.peer).unwrap().remove_stream(also_gone.stream), Ok(()));
    assert_eq!(host.pending(&name("Web"), &name("HTTP/1.1")), 3);
    assert_eq!(host.accept(&name("Web"), &name("HTTP/1.1")), Some(stays));
    assert_eq!(host.pending(&name("Web"), &name("HTTP/1.1")), 1);
    assert_eq!(host.accept(&name("Web"), &name("HTTP/1.1")), None);
    assert_eq!(host.pending(&name("Web"), &name("HTTP/1.1")), 0);
}

#[test]
fn connect_to_is_immediate_and_makes_the_session() {
    let mut host = HostState::new();
    let first = host.connect_to(b"alice", name("Web"), name("HTTP/1.1"));
    assert_eq!(first, StreamRef { peer: 0, stream: 0 });
    assert_eq!(stream_state(&host, first), Some(StreamState::Connected));
    assert_eq!(host.session(0).unwrap().identity(), &b"alice".to_vec());
    let second = host.connect_to(b"alice", name("File"), name("FTP"));
    assert_eq!(second, StreamRef { peer: 0, stream: 1 });
    let third = host.connect_to(b"bob", name("File"), name("FTP"));
    assert_eq!(third, StreamRef { peer: 1, stream: 0 });
    let stream = host.session(0).unwrap().get(1).unwrap();
    assert_eq!(stream.service(), "File");
    assert_eq!(stream.protocol(), "FTP");
    assert!(!stream.is_awaiting_accept());
    assert!(host.session(2).is_none());
    assert!(host.session_mut(2).is_none());
}

#[test]
fn reconnect_closes_the_old_stream_in_the_background() {
    let mut host = HostState::new();
    let old = host.connect_to(b"alice", name("Web"), name("HTTP/1.1"));
    assert_eq!(host.session_mut(old.peer).unwrap().write(old.stream, b"tail"), Ok(()));
    let new = host.reconnect(old, b"bob", name("Web"), name("HTTP/1.1"));
    assert_eq!(new, StreamRef { peer: 1, stream: 0 });
    assert_eq!(stream_state(&host, new), Some(StreamState::Connected));
    assert_eq!(stream_state(&host, old), Some(StreamState::Closed));
    assert!(host.session(old.peer).unwrap().get(old.stream).unwrap().is_lingering());
    let segment = host.session_mut(old.peer).unwrap().next_segment(100).unwrap();
    assert_eq!((segment.data, segment.end_of_stream), (b"tail".to_vec(), true));
    assert_eq!(stream_state(&host, old), None);
    assert!(host.reap_peer(old.peer));

    let again = host.reconnect(new, b"bob", name("File"), name("FTP"));
    assert_eq!(again, StreamRef { peer: 1, stream: 1 });
    assert!(host.session_mut(1).unwrap().next_segment(10).unwrap().end_of_stream);
    assert_eq!(stream_state(&host, new), None);
    assert_eq!(stream_state(&host, again), Some(StreamState::Connected));

    let fresh = host.reconnect(StreamRef { peer: 9, stream: 9 }, b"carol", name("Web"), name("HTTP/1.1"));
    assert_eq!(fresh, StreamRef { peer: 2, stream: 0 });
}

#[test]
fn idle_sessions_can_be_dropped_and_slots_are_not_reused() {
    let mut host = HostState::new();
    let stream = host.connect_to(b"alice", name("Web"), name("HTTP/1.1"));
    assert!(!host.reap_peer(stream.peer));
    host.session_mut(0).unwrap().begin_lookup(1);
    assert_eq!(host.session_mut(0).unwrap().remove_stream(stream.stream), Ok(()));
    assert!(!host.reap_peer(0));
    host.session_mut(0).unwrap().finish_lookup(1);
    assert!(host.reap_peer(0));
    assert!(!host.reap_peer(0));
    assert!(!host.reap_peer(5));
    assert_eq!(host.find_peer(b"alice"), None);
    assert!(host.session(0).is_none());
    assert_eq!(host.connect_to(b"alice", name("Web"), name("HTTP/1.1")), StreamRef { peer: 1, stream: 0 });
    assert_eq!(host.peer_slots(), 2);
}

#[test]
fn frames_are_routed_by_identifier() {
    let mut host = listening_host();
    let a = host.connect_request(b"alice", name("Web"), name("HTTP/1.1"), Some(10)).unwrap();
    let b = host.connect_request(b"alice", name("Web"), name("HTTP/1.1"), Some(20)).unwrap();
    let c = host.connect_request(b"bob", name("Web"), name("HTTP/1.1"), Some(10)).unwrap();
    let data = |text: &[u8], end_of_record| FrameBody::Data { data: text.to_vec(), end_of_record };
    assert_eq!(host.dispatch(b"alice", &frame(FrameKind::Stream, 20, data(b"to b", true))), Ok(()));
    assert_eq!(host.dispatch(b"bob", &frame(FrameKind::Stream, 10, data(b"to c", false))), Ok(()));
    assert_eq!(host.dispatch(b"alice", &frame(FrameKind::Stream, 10, data(b"to a", false))), Ok(()));
    let mut read = |stream: StreamRef| host.session_mut(stream.peer).unwrap().read(stream.stream, 100);
    assert_eq!(read(a), Ok(Received::Data(Chunk { data: b"to a".to_vec(), end_of_record: false })));
    assert_eq!(read(b), Ok(Received::Data(Chunk { data: b"to b".to_vec(), end_of_record: true })));
    assert_eq!(read(c), Ok(Received::Data(Chunk { data: b"to c".to_vec(), end_of_record: false })));
}

#[test]
fn each_frame_kind_does_its_work() {
    let mut host = HostState::new();
    let stream = host.connect_to(b"alice", name("Web"), name("HTTP/1.1"));
    {
        let session = host.session_mut(stream.peer).unwrap();
        assert_eq!(session.assign_usid(stream.stream, 7), Ok(()));
        assert_eq!(session.write(stream.stream, b"0123456789"), Ok(()));
        assert_eq!(session.next_segment(6).map(|s| s.data.len()), Some(6));
    }
    let get = |host: &HostState| {
        let s = host.session(0).unwrap().get(0).unwrap();
        (s.state(), s.priority(), s.in_flight(), s.transmit_window(), s.is_peer_bound())
    };
    assert_eq!(get(&host), (StreamState::Connected, 0, 6, 65536, true));
    assert_eq!(host.dispatch(b"alice", &frame(FrameKind::Ack, 7, FrameBody::Amount(4))), Ok(()));
    assert_eq!(get(&host).2, 2);
    assert_eq!(host.dispatch(b"alice", &frame(FrameKind::Priority, 7, FrameBody::Priority(-2))), Ok(()));
    assert_eq!(get(&host).1, -2);
    assert_eq!(host.dispatch(b"alice", &frame(FrameKind::Decongestion, 7, FrameBody::Amount(3))), Ok(()));
    assert_eq!(get(&host).3, 3);
    assert_eq!(host.dispatch(b"alice", &frame(FrameKind::Detach, 7, FrameBody::Nothing)), Ok(()));
    assert!(!get(&host).4);
    assert_eq!(host.session_mut(0).unwrap().next_segment(10), None);
    assert_eq!(host.session_mut(0).unwrap().attach(0), Ok(()));
    assert_eq!(host.session_mut(0).unwrap().next_segment(10).map(|s| s.data), Some(b"6".to_vec()));

    let child = host.session_mut(0).unwrap().open_substream(0).unwrap();
    assert_eq!(host.session(0).unwrap().get(child).unwrap().state(), StreamState::Connecting);
    assert_eq!(host.dispatch(b"alice", &frame(FrameKind::Settings, 7, FrameBody::Nothing)), Ok(()));
    assert_eq!(host.session(0).unwrap().get(child).unwrap().state(), StreamState::Connected);

    assert_eq!(host.dispatch(b"alice", &frame(FrameKind::Close, 7, FrameBody::Nothing)), Ok(()));
    assert_eq!(get(&host).0, StreamState::ReadClosed);
    assert_eq!(host.dispatch(b"alice", &frame(FrameKind::Reset, 7, FrameBody::Nothing)), Ok(()));
    assert_eq!(get(&host).0, StreamState::Reset);
    assert_eq!(
        host.dispatch(
            b"alice",
            &frame(FrameKind::Stream, 7, FrameBody::Data { data: vec![1], end_of_record: false })
        ),
        Err(HostError::Stream(StreamError::StreamReset))
    );
    assert!(host.session(0).unwrap().is_live(child));
}

#[test]
fn filler_frames_are_skipped_and_bad_frames_dropped() {
    let mut host = HostState::new();
    let stream = host.connect_to(b"alice", name("Web"), name("HTTP/1.1"));
    assert_eq!(host.session_mut(0).unwrap().assign_usid(stream.stream, 7), Ok(()));
    assert_eq!(host.dispatch(b"nobody", &frame(FrameKind::Empty, 99, FrameBody::Nothing)), Ok(()));
    assert_eq!(host.dispatch(b"alice", &frame(FrameKind::Padding, 99, FrameBody::Amount(3))), Ok(()));
    for code in 10u8..=255 {
        let unknown = Frame { frame_type: FrameType::new(code), usid: 7, body: FrameBody::Nothing };
        assert_eq!(host.dispatch(b"alice", &unknown), Err(HostError::UnknownFrameTag));
    }
    assert_eq!(
        host.dispatch(b"alice", &frame(FrameKind::Stream, 7, FrameBody::Nothing)),
        Err(HostError::MalformedFrame)
    );
    assert_eq!(
        host.dispatch(b"alice", &frame(FrameKind::Ack, 7, FrameBody::Priority(1))),
        Err(HostError::MalformedFrame)
    );
    assert_eq!(
        host.dispatch(b"alice", &frame(FrameKind::Close, 7, FrameBody::Amount(1))),
        Err(HostError::MalformedFrame)
    );
    assert_eq!(
        host.dispatch(b"mallory", &frame(FrameKind::Close, 7, FrameBody::Nothing)),
        Err(HostError::UnknownPeer)
    );
    assert_eq!(
        host.dispatch(b"alice", &frame(FrameKind::Close, 8, FrameBody::Nothing)),
        Err(HostError::Stream(StreamError::UnknownStream))
    );
    assert_eq!(stream_state(&host, stream), Some(StreamState::Connected));
    assert_eq!(host.peer_slots(), 1);
}

#[test]
fn data_beyond_the_window_is_dropped_and_blocks() {
    let mut host = HostState::new();
    let stream = host.connect_to(b"alice", name("Web"), name("HTTP/1.1"));
    {
        let session = host.session_mut(0).unwrap();
        assert_eq!(session.assign_usid(stream.stream, 7), Ok(()));
        assert_eq!(session.set_receive_window(stream.stream, 4), Ok(()));
    }
    let data = |text: &[u8]| frame(FrameKind::Stream, 7, FrameBody::Data { data: text.to_vec(), end_of_record: false });
    assert_eq!(host.dispatch(b"alice", &data(b"abc")), Ok(()));
    assert_eq!(
        host.dispatch(b"alice", &data(b"de")),
        Err(HostError::Stream(StreamError::WindowExceeded))
    );
    let state = host.session(0).unwrap().get(0).unwrap();
    assert!(state.is_receive_blocked());
    assert_eq!(state.unread(), 3);
    assert_eq!(state.state(), StreamState::Connected);
}

#[test]
fn body_and_kind_must_agree() {
    let bodies = [
        FrameBody::Nothing,
        FrameBody::Data { data: vec![], end_of_record: false },
        FrameBody::Amount(0),
        FrameBody::Priority(0),
    ];
    let wants = [
        (FrameKind::Empty, [true, true, true, true]),
        (FrameKind::Padding, [true, true, true, true]),
        (FrameKind::Stream, [false, true, false, false]),
        (FrameKind::Close, [true, false, false, false]),
        (FrameKind::Detach, [true, false, false, false]),
        (FrameKind::Decongestion, [false, false, true, false]),
        (FrameKind::Priority, [false, false, false, true]),
        (FrameKind::Reset, [true, false, false, false]),
        (FrameKind::Ack, [false, false, true, false]),
        (FrameKind::Settings, [true, false, false, false]),
    ];
    for (kind, expected) in wants {
        for (body, fits) in bodies.iter().zip(expected) {
            assert_eq!(body.fits_kind(kind), fits);
        }
    }
}

#[test]
fn datagrams_outside_the_size_range_are_turned_away() {
    assert_eq!(MIN_DATAGRAM, 64);
    assert_eq!(MAX_DATAGRAM, 1280);
    let mut bytes = vec![0u8; 1281];
    bytes[0] = 0x01;
    bytes[2] = 0x07;
    bytes[4] = 0x09;
    assert_eq!(receive_datagram(&bytes[..0]).err(), Some(HostError::DatagramTooShort));
    assert_eq!(receive_datagram(&bytes[..63]).err(), Some(HostError::DatagramTooShort));
    assert_eq!(receive_datagram(&bytes).err(), Some(HostError::DatagramTooLong));
    for size in [64usize, 65, 700, 1280] {
        let header = receive_datagram(&bytes[..size]).expect("in range");
        assert_eq!(header.version(), Some(7));
        assert_eq!(header.sequence_number(), SequenceNumber::Len2(9));
        assert_eq!(header.len(), 5);
    }
    bytes[0] = 0x04;
    bytes[2] = 0x00;
    assert_eq!(
        receive_datagram(&bytes[..64]).err(),
        Some(HostError::Header(HeaderError::NonMinimalEncoding))
    );
    assert_eq!(receive_datagram(&bytes[..10]).err(), Some(HostError::DatagramTooShort));
}

#[test]
fn same_bytes_compares_content() {
    assert!(same_bytes(b"", b""));
    assert!(same_bytes(b"abc", b"abc"));
    assert!(!same_bytes(b"abc", b"abd"));
    assert!(!same_bytes(b"abc", b"ab"));
    assert!(!same_bytes(b"", b"a"));
}

#[test]
fn a_server_queues_in_order() {
    let mut server = Server::new(name("Web"), name("HTTP/1.1"));
    assert_eq!(server.service(), "Web");
    assert_eq!(server.protocol(), "HTTP/1.1");
    assert!(server.serves(&name("Web"), &name("HTTP/1.1")));
    assert!(!server.serves(&name("Web"), &name("HTTP/1.0")));
    assert!(!server.serves(&name("File"), &name("HTTP/1.1")));
    assert_eq!(server.pending(), 0);
    assert_eq!(server.dequeue(), None);
    server.enqueue(StreamRef { peer: 1, stream: 2 });
    server.enqueue(StreamRef { peer: 0, stream: 5 });
    assert_eq!(server.pending(), 2);
    assert_eq!(server.dequeue(), Some(StreamRef { peer: 1, stream: 2 }));
    assert_eq!(server.dequeue(), Some(StreamRef { peer: 0, stream: 5 }));
    assert_eq!(server.dequeue(), None);
}

#[test]
fn two_hosts_exchange_records_in_datagrams() {
    let mut client = HostState::new();
    let mut server = listening_host();
    let out = client.connect_to(b"server", name("Web"), name("HTTP/1.1"));
    {
        let session = client.session_mut(out.peer).unwrap();
        assert_eq!(session.assign_usid(out.stream, 1), Ok(()));
        assert_eq!(session.write(out.stream, b"ab"), Ok(()));
        assert_eq!(session.end_record(out.stream), Ok(()));
        assert_eq!(session.write(out.stream, b"cd"), Ok(()));
        assert_eq!(session.shutdown(out.stream, ShutdownMode::Write), Ok(()));
    }
    let inbound = server.connect_request(b"client", name("Web"), name("HTTP/1.1"), Some(1)).unwrap();
    assert_eq!(server.accept(&name("Web"), &name("HTTP/1.1")), Some(inbound));

    let mut sequence = 65535u64;
    let mut widths = Vec::new();
    while let Some(segment) = client.session_mut(out.peer).unwrap().next_segment(1200) {
        let mut datagram = vec![0u8; 64];
        let header_len =
            PacketHeader::new(&mut datagram, Some(7), None, SequenceNumber::from(sequence))
                .expect("fits")
                .len();
        widths.push(header_len);
        sequence += 1;
        let header = receive_datagram(&datagram).expect("well formed");
        assert_eq!(header.version(), Some(7));
        assert_eq!(header.sequence_number().value() + 1, sequence);
        let usid = segment.usid.expect("assigned");
        let data = FrameBody::Data { data: segment.data, end_of_record: segment.end_of_record };
        assert_eq!(server.dispatch(b"client", &frame(FrameKind::Stream, usid, data)), Ok(()));
        if segment.end_of_stream {
            assert_eq!(
                server.dispatch(b"client", &frame(FrameKind::Close, usid, FrameBody::Nothing)),
                Ok(())
            );
        }
    }
    assert_eq!(widths, vec![5, 7]);
    let session = server.session_mut(inbound.peer).unwrap();
    assert_eq!(
        session.read(inbound.stream, 4),
        Ok(Received::Data(Chunk { data: b"ab".to_vec(), end_of_record: true }))
    );
    assert_eq!(
        session.read(inbound.stream, 4),
        Ok(Received::Data(Chunk { data: b"cd".to_vec(), end_of_record: false }))
    );
    assert_eq!(session.read(inbound.stream, 4), Ok(Received::EndOfStream));
    assert_eq!(session.get(inbound.stream).map(|s| s.state()), Some(StreamState::ReadClosed));
    assert_eq!(session.listen(inbound.stream, ListenMode::Unlimited, false), Ok(()));
}

#[test]
fn the_host_hands_out_events_with_their_session() {
    let mut host = listening_host();
    assert_eq!(host.next_event(), None);
    let a = host.connect_request(b"alice", name("Web"), name("HTTP/1.1"), Some(1)).unwrap();
    let b = host.connect_request(b"bob", name("Web"), name("HTTP/1.1"), Some(1)).unwrap();
    host.session_mut(b.peer).unwrap().set_link_status(LinkStatus::Up);
    assert_eq!(
        host.dispatch(b"alice", &frame(FrameKind::Reset, 1, FrameBody::Nothing)),
        Ok(())
    );
    assert_eq!(host.next_event(), Some((a.peer, Event::NewConnection { stream: a.stream })));
    assert_eq!(host.next_event(), Some((a.peer, Event::StreamReset { stream: a.stream })));
    assert_eq!(host.next_event(), Some((b.peer, Event::NewConnection { stream: b.stream })));
    assert_eq!(host.next_event(), Some((b.peer, Event::Link(LinkStatus::Up))));
    assert_eq!(host.next_event(), None);
    let out = host.connect_to(b"carol", name("Web"), name("HTTP/1.1"));
    assert_eq!(host.session(out.peer).unwrap().link_status(), LinkStatus::Down);
    assert_eq!(host.next_event(), None);
}

#[test]
fn a_blocked_window_is_told_when_it_blocks() {
    let mut host = HostState::new();
    let stream = host.connect_to(b"alice", name("Web"), name("HTTP/1.1"));
    {
        let session = host.session_mut(0).unwrap();
        assert_eq!(session.assign_usid(stream.stream, 7), Ok(()));
        assert_eq!(session.set_receive_window(stream.stream, 2), Ok(()));
    }
    let data = |text: &[u8]| frame(FrameKind::Stream, 7, FrameBody::Data { data: text.to_vec(), end_of_record: false });
    assert_eq!(host.dispatch(b"alice", &data(b"a")), Ok(()));
    assert_eq!(host.next_event(), None);
    assert_eq!(host.dispatch(b"alice", &data(b"b")), Ok(()));
    assert_eq!(host.next_event(), Some((0, Event::ReceiveBlocked { stream: 0 })));
    assert_eq!(host.dispatch(b"alice", &data(b"c")), Err(HostError::Stream(StreamError::WindowExceeded)));
    assert_eq!(host.next_event(), None);
    assert!(host.session_mut(0).unwrap().read(0, 1).is_ok());
    assert_eq!(host.dispatch(b"alice", &data(b"cd")), Err(HostError::Stream(StreamError::WindowExceeded)));
    assert_eq!(host.next_event(), Some((0, Event::ReceiveBlocked { stream: 0 })));
    assert_eq!(host.next_event(), None);
}
