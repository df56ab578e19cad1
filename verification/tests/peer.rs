use sss::framing::sequence::SequenceNumber;
use sss::peer::{Event, LinkStatus, PeerSession, Segment};
use sss::queue::Chunk;
use sss::stream::{ListenMode, Received, ShutdownMode, StreamError, StreamState};

fn session() -> PeerSession {
    PeerSession::new(b"peer-a".to_vec())
}

fn open(session: &mut PeerSession) -> usize {
    session.open_stream("Web".to_string(), "HTTP/1.1".to_string())
}

fn state(session: &PeerSession, id: usize) -> Option<StreamState> {
    session.get(id).map(|stream| stream.state())
}

fn parent(session: &PeerSession, id: usize) -> Option<usize> {
    session.get(id).and_then(|stream| stream.parent())
}

#[test]
fn a_new_session_is_empty_and_idle() {
    let session = session();
    assert_eq!(session.identity(), &b"peer-a".to_vec());
    assert_eq!(session.slot_count(), 0);
    assert!(!session.has_streams());
    assert!(session.no_lookups_possible());
    assert!(session.is_idle());
    assert!(session.get(0).is_none());
    assert!(!session.is_live(0));
    assert_eq!(session.next_stream(), None);
}

#[test]
fn slots_rise_and_are_never_reused() {
    let mut session = session();
    assert_eq!(session.create_stream(), 0);
    assert_eq!(open(&mut session), 1);
    assert_eq!(session.remove_stream(0), Ok(()));
    assert_eq!(session.remove_stream(0), Err(StreamError::UnknownStream));
    assert_eq!(session.create_stream(), 2);
    assert_eq!(session.slot_count(), 3);
    assert!(!session.is_live(0));
    assert!(session.is_live(1));
    assert!(session.is_live(2));
    assert_eq!(state(&session, 1), Some(StreamState::Connected));
    assert_eq!(state(&session, 2), Some(StreamState::Unconnected));
}

#[test]
fn connect_binds_an_unconnected_stream() {
    let mut session = session();
    let id = session.create_stream();
    assert_eq!(session.write(id, b"x"), Err(StreamError::NotConnected));
    assert_eq!(session.connect(id, "File".to_string(), "NFS v4".to_string()), Ok(()));
    assert_eq!(state(&session, id), Some(StreamState::Connected));
    assert_eq!(session.get(id).map(|s| s.service().clone()), Some("File".to_string()));
    assert_eq!(session.get(id).map(|s| s.protocol().clone()), Some("NFS v4".to_string()));
    assert_eq!(
        session.connect(id, "Web".to_string(), "HTTP/1.1".to_string()),
        Err(StreamError::DirectionClosed)
    );
    assert_eq!(
        session.connect(9, "Web".to_string(), "HTTP/1.1".to_string()),
        Err(StreamError::UnknownStream)
    );
}

#[test]
fn every_child_has_its_parent() {
    let mut session = session();
    let root = open(&mut session);
    let other = open(&mut session);
    let a = session.open_substream(root).unwrap();
    let b = session.open_substream(root).unwrap();
    let c = session.open_substream(a).unwrap();
    let d = session.open_substream(other).unwrap();
    assert_eq!(session.children(root), vec![a, b]);
    assert_eq!(session.children(a), vec![c]);
    assert_eq!(session.children(b), Vec::<usize>::new());
    assert_eq!(session.children(other), vec![d]);
    assert_eq!(session.children(99), Vec::<usize>::new());
    for id in 0..session.slot_count() {
        for child in session.children(id) {
            assert_eq!(parent(&session, child), Some(id));
            assert!(child > id);
        }
    }
    assert_eq!(parent(&session, root), None);
}

#[test]
fn removing_a_stream_removes_all_its_descendants() {
    let mut session = session();
    let root = open(&mut session);
    let keep = open(&mut session);
    let a = session.open_substream(root).unwrap();
    let kept_child = session.open_substream(keep).unwrap();
    let b = session.open_substream(a).unwrap();
    let c = session.open_substream(b).unwrap();
    let d = session.open_substream(root).unwrap();
    assert_eq!(session.assign_usid(c, 500), Ok(()));
    assert_eq!(session.assign_usid(kept_child, 600), Ok(()));

    assert_eq!(session.remove_stream(a), Ok(()));
    for gone in [a, b, c] {
        assert!(!session.is_live(gone));
    }
    for stays in [root, keep, kept_child, d] {
        assert!(session.is_live(stays));
    }
    assert_eq!(session.children(root), vec![d]);
    assert_eq!(session.lookup(500), None);
    assert_eq!(session.lookup(600), Some(kept_child));
    assert_eq!(session.write(c, b"x"), Err(StreamError::UnknownStream));

    assert_eq!(session.remove_stream(root), Ok(()));
    assert!(!session.is_live(root));
    assert!(!session.is_live(d));
    assert!(session.is_live(keep));
    assert!(session.is_live(kept_child));
    assert_eq!(parent(&session, kept_child), Some(keep));
    assert!(session.has_streams());
    assert_eq!(session.remove_stream(keep), Ok(()));
    assert!(!session.has_streams());
    assert!(session.is_idle());
}

#[test]
fn identifiers_are_unique_and_stable() {
    let mut session = session();
    let a = open(&mut session);
    let b = open(&mut session);
    assert_eq!(session.lookup(7), None);
    assert_eq!(session.assign_usid(a, 7), Ok(()));
    assert_eq!(session.lookup(7), Some(a));
    assert_eq!(session.assign_usid(a, 7), Ok(()));
    assert_eq!(session.assign_usid(b, 7), Err(StreamError::UsidInUse));
    assert_eq!(session.assign_usid(a, 8), Err(StreamError::UsidInUse));
    assert_eq!(session.assign_usid(5, 9), Err(StreamError::UnknownStream));
    assert_eq!(session.assign_usid(b, 8), Ok(()));
    assert_eq!(session.lookup(8), Some(b));
    assert_eq!(session.get(a).and_then(|s| s.usid()), Some(7));
    assert_eq!(session.remove_stream(a), Ok(()));
    assert_eq!(session.lookup(7), None);
    let c = open(&mut session);
    assert_eq!(session.assign_usid(c, 7), Ok(()));
    assert_eq!(session.lookup(7), Some(c));
}

#[test]
fn the_higher_priority_goes_first_entirely() {
    let mut session = session();
    let a = open(&mut session);
    let b = open(&mut session);
    assert_eq!(session.set_priority(a, 2), Ok(()));
    assert_eq!(session.set_priority(b, 1), Ok(()));
    assert_eq!(session.write(b, b"bbbbbbbb"), Ok(()));
    assert_eq!(session.write(a, b"aaaaaaaaaa"), Ok(()));
    let mut order = Vec::new();
    while let Some(segment) = session.next_segment(3) {
        order.push((segment.stream, segment.data.len()));
    }
    assert_eq!(order, vec![(a, 3), (a, 3), (a, 3), (a, 1), (b, 3), (b, 3), (b, 2)]);
}

#[test]
fn a_priority_change_counts_at_the_next_decision() {
    let mut session = session();
    let a = open(&mut session);
    let b = open(&mut session);
    assert_eq!(session.write(a, b"aaaa"), Ok(()));
    assert_eq!(session.write(b, b"bbbb"), Ok(()));
    assert_eq!(session.set_priority(a, 5), Ok(()));
    assert_eq!(session.next_stream(), Some(a));
    assert_eq!(session.next_segment(1).map(|s| s.stream), Some(a));
    assert_eq!(session.set_priority(b, 9), Ok(()));
    assert_eq!(session.next_segment(1).map(|s| s.stream), Some(b));
    assert_eq!(session.set_priority(b, -1), Ok(()));
    assert_eq!(session.next_segment(1).map(|s| s.stream), Some(a));
    assert_eq!(session.set_priority(7, 1), Err(StreamError::UnknownStream));
}

#[test]
fn equal_priorities_share_evenly() {
    let mut session = session();
    let a = open(&mut session);
    let c = open(&mut session);
    assert_eq!(session.set_priority(a, 1), Ok(()));
    assert_eq!(session.set_priority(c, 1), Ok(()));
    assert_eq!(session.write(a, &[1u8; 40]), Ok(()));
    assert_eq!(session.write(c, &[2u8; 40]), Ok(()));
    let mut sent = [0usize; 2];
    let mut last = None;
    for round in 1..=20 {
        let segment = session.next_segment(4).expect("both have data");
        assert_ne!(Some(segment.stream), last);
        last = Some(segment.stream);
        sent[segment.stream] += segment.data.len();
        if round % 2 == 0 {
            assert_eq!(sent[a], sent[c]);
        }
    }
    assert_eq!(sent, [40, 40]);
    assert_eq!(session.next_segment(4), None);
}

#[test]
fn three_equals_take_turns_in_slot_order() {
    let mut session = session();
    let ids = [open(&mut session), open(&mut session), open(&mut session)];
    for id in ids {
        assert_eq!(session.write(id, b"xxxxxx"), Ok(()));
    }
    let mut order = Vec::new();
    while let Some(segment) = session.next_segment(2) {
        order.push(segment.stream);
    }
    assert_eq!(order, vec![1, 2, 0, 1, 2, 0, 1, 2, 0]);
}

#[test]
fn segments_carry_records_and_the_end_of_the_stream() {
    let mut session = session();
    let id = open(&mut session);
    assert_eq!(session.assign_usid(id, 42), Ok(()));
    assert_eq!(session.write(id, b"ab"), Ok(()));
    assert_eq!(session.end_record(id), Ok(()));
    assert_eq!(session.write(id, b"cd"), Ok(()));
    assert_eq!(session.shutdown(id, ShutdownMode::Write), Ok(()));
    assert_eq!(
        session.next_segment(100),
        Some(Segment {
            stream: id,
            usid: Some(42),
            data: b"ab".to_vec(),
            end_of_record: true,
            end_of_stream: false
        })
    );
    assert_eq!(
        session.next_segment(100),
        Some(Segment {
            stream: id,
            usid: Some(42),
            data: b"cd".to_vec(),
            end_of_record: false,
            end_of_stream: true
        })
    );
    assert_eq!(session.next_segment(100), None);
}

#[test]
fn records_survive_the_trip_to_the_peer() {
    let mut sender = session();
    let mut receiver = PeerSession::new(b"peer-b".to_vec());
    let out = open(&mut sender);
    let inbound = receiver.offer_stream(Some(1), "Web".to_string(), "HTTP/1.1".to_string()).unwrap();
    assert_eq!(sender.write(out, b"ab"), Ok(()));
    assert_eq!(sender.end_record(out), Ok(()));
    assert_eq!(sender.write(out, b"cd"), Ok(()));
    while let Some(segment) = sender.next_segment(1200) {
        assert_eq!(receiver.deliver(inbound, &segment.data, segment.end_of_record), Ok(()));
    }
    assert_eq!(
        receiver.read(inbound, 4),
        Ok(Received::Data(Chunk { data: b"ab".to_vec(), end_of_record: true }))
    );
    assert_eq!(
        receiver.read(inbound, 4),
        Ok(Received::Data(Chunk { data: b"cd".to_vec(), end_of_record: false }))
    );
    assert_eq!(receiver.read(inbound, 4), Ok(Received::NoData));
    assert_eq!(receiver.read(77, 4), Err(StreamError::UnknownStream));
}

#[test]
fn offers_follow_the_listen_mode() {
    let mut session = session();
    let root = open(&mut session);
    assert_eq!(session.offer_substream(root, None), Err(StreamError::OfferRejected));
    assert_eq!(session.listen(root, ListenMode::BufferLimit(2), false), Ok(()));
    let first = session.offer_substream(root, Some(11)).unwrap();
    let second = session.offer_substream(root, None).unwrap();
    assert_eq!(session.waiting_offers(root), 2);
    assert_eq!(session.offer_substream(root, None), Err(StreamError::OfferRejected));
    assert_eq!(session.slot_count(), 3);
    assert_eq!(session.lookup(11), Some(first));
    assert_eq!(state(&session, first), Some(StreamState::Connected));

    assert_eq!(session.accept_substream(root), Some(first));
    assert_eq!(session.waiting_offers(root), 1);
    let third = session.offer_substream(root, None).unwrap();
    assert_eq!(session.offer_substream(root, Some(11)), Err(StreamError::OfferRejected));
    assert_eq!(session.accept_substream(root), Some(second));
    assert_eq!(session.offer_substream(root, Some(11)), Err(StreamError::UsidInUse));
    assert_eq!(session.accept_substream(root), Some(third));
    assert_eq!(session.accept_substream(root), None);
    assert_eq!(session.accept_substream(first), None);

    assert_eq!(session.listen(root, ListenMode::Unlimited, true), Ok(()));
    for _ in 0..10 {
        assert!(session.offer_substream(root, None).is_ok());
    }
    assert_eq!(session.waiting_offers(root), 10);
    let child = session.accept_substream(root).unwrap();
    assert_eq!(session.get(child).map(|s| s.listen_mode()), Some(ListenMode::Unlimited));
    assert!(session.offer_substream(child, None).is_ok());
    assert_eq!(session.get(first).map(|s| s.listen_mode()), Some(ListenMode::Reject));
    assert_eq!(session.offer_substream(50, None), Err(StreamError::UnknownStream));
    assert_eq!(session.listen(50, ListenMode::Reject, false), Err(StreamError::UnknownStream));
}

#[test]
fn substreams_cannot_hang_on_dead_parents() {
    let mut session = session();
    let fresh = session.create_stream();
    assert_eq!(session.open_substream(fresh), Err(StreamError::NotConnected));
    assert_eq!(session.open_substream(9), Err(StreamError::UnknownStream));
    let root = open(&mut session);
    assert_eq!(session.listen(root, ListenMode::Unlimited, false), Ok(()));
    assert_eq!(session.shutdown(root, ShutdownMode::Close), Ok(()));
    assert_eq!(session.open_substream(root), Err(StreamError::DirectionClosed));
    assert_eq!(session.offer_substream(root, None), Err(StreamError::DirectionClosed));
    assert_eq!(session.shutdown(root, ShutdownMode::Reset), Ok(()));
    assert_eq!(session.open_substream(root), Err(StreamError::StreamReset));
}

#[test]
fn writes_to_a_substream_wait_for_the_peer() {
    let mut session = session();
    let root = open(&mut session);
    let early = session.open_substream(root).unwrap();
    assert_eq!(state(&session, early), Some(StreamState::Connecting));
    assert_eq!(session.write(early, b"queued"), Ok(()));
    assert_eq!(session.next_segment(100), None);
    assert_eq!(session.peer_listens(root), Ok(()));
    assert_eq!(state(&session, early), Some(StreamState::Connected));
    assert_eq!(session.next_segment(100).map(|s| (s.stream, s.data)), Some((early, b"queued".to_vec())));
    let late = session.open_substream(root).unwrap();
    assert_eq!(state(&session, late), Some(StreamState::Connected));
    assert_eq!(session.peer_listens(40), Err(StreamError::UnknownStream));
}

#[test]
fn a_released_stream_is_torn_down_once_finished() {
    let mut session = session();
    let id = open(&mut session);
    let child = session.open_substream(id).unwrap();
    assert_eq!(session.write(id, b"last words"), Ok(()));
    assert_eq!(session.release(id), Ok(()));
    assert!(session.is_live(id));
    assert_eq!(session.shutdown(id, ShutdownMode::Close), Ok(()));
    assert!(session.is_live(id));
    let segment = session.next_segment(100).unwrap();
    assert_eq!(segment.data, b"last words".to_vec());
    assert!(segment.end_of_stream);
    assert!(!session.is_live(id));
    assert!(!session.is_live(child));
    assert!(session.is_idle());

    let reset = open(&mut session);
    assert_eq!(session.shutdown(reset, ShutdownMode::Reset), Ok(()));
    assert!(session.is_live(reset));
    assert_eq!(session.release(reset), Ok(()));
    assert!(!session.is_live(reset));

    let closing = open(&mut session);
    assert_eq!(session.release(closing), Ok(()));
    assert_eq!(session.shutdown(closing, ShutdownMode::Write), Ok(()));
    assert!(session.next_segment(10).map(|s| s.end_of_stream).unwrap());
    assert!(session.is_live(closing));
    assert_eq!(session.peer_closed(closing), Ok(()));
    assert!(!session.is_live(closing));
    assert_eq!(session.release(closing), Err(StreamError::UnknownStream));
    assert_eq!(session.shutdown(closing, ShutdownMode::Close), Err(StreamError::UnknownStream));
    assert_eq!(session.peer_closed(closing), Err(StreamError::UnknownStream));
}

#[test]
fn disconnect_unbinds_and_drains() {
    let mut session = session();
    let id = open(&mut session);
    assert_eq!(session.write(id, b"tail"), Ok(()));
    assert_eq!(session.disconnect(id), Ok(()));
    assert_eq!(state(&session, id), Some(StreamState::Unconnected));
    let segment = session.next_segment(100).unwrap();
    assert_eq!((segment.data, segment.end_of_stream), (b"tail".to_vec(), true));
    assert!(session.is_live(id));
    assert_eq!(session.disconnect(31), Err(StreamError::UnknownStream));
    let gone = open(&mut session);
    assert_eq!(session.release(gone), Ok(()));
    assert_eq!(session.disconnect(gone), Ok(()));
    assert!(session.is_live(gone));
    assert!(session.next_segment(100).map(|s| s.end_of_stream).unwrap());
    assert!(!session.is_live(gone));
}

#[test]
fn windows_and_acknowledgements_per_stream() {
    let mut session = session();
    let id = open(&mut session);
    assert_eq!(session.set_transmit_window(id, 4), Ok(()));
    assert_eq!(session.set_receive_window(id, 2), Ok(()));
    assert_eq!(session.write(id, b"abcdefgh"), Ok(()));
    assert_eq!(session.next_segment(100).map(|s| s.data), Some(b"abcd".to_vec()));
    assert_eq!(session.next_segment(100), None);
    assert_eq!(session.acknowledge(id, 4), Ok(()));
    assert_eq!(session.next_segment(100).map(|s| s.data), Some(b"efgh".to_vec()));
    assert_eq!(session.deliver(id, b"xyz", false), Err(StreamError::WindowExceeded));
    assert_eq!(session.get(id).map(|s| s.is_receive_blocked()), Some(true));
    assert_eq!(session.deliver(id, b"xy", false), Ok(()));
    assert_eq!(session.acknowledge(8, 1), Err(StreamError::UnknownStream));
    assert_eq!(session.set_transmit_window(8, 1), Err(StreamError::UnknownStream));
    assert_eq!(session.set_receive_window(8, 1), Err(StreamError::UnknownStream));
    assert_eq!(session.deliver(8, b"", false), Err(StreamError::UnknownStream));
    assert_eq!(session.end_record(8), Err(StreamError::UnknownStream));
}

#[test]
fn routing_work_keeps_a_session_alive() {
    let mut session = session();
    assert!(session.no_lookups_possible());
    session.begin_lookup(1);
    assert!(!session.no_lookups_possible());
    assert!(!session.is_idle());
    session.begin_key_exchange(1);
    session.finish_lookup(1);
    assert!(!session.no_lookups_possible());
    session.finish_key_exchange(2);
    assert!(!session.no_lookups_possible());
    session.finish_key_exchange(1);
    assert!(session.no_lookups_possible());
    assert!(session.is_idle());
    session.begin_lookup(5);
    session.begin_lookup(5);
    session.finish_lookup(5);
    assert!(session.no_lookups_possible());
    let id = open(&mut session);
    assert!(session.no_lookups_possible());
    assert!(!session.is_idle());
    assert_eq!(session.remove_stream(id), Ok(()));
    assert!(session.is_idle());
}

#[test]
fn top_level_offers_wait_with_their_names() {
    let mut session = session();
    let id = session.offer_stream(Some(3), "E-mail".to_string(), "SMTP".to_string()).unwrap();
    let stream = session.get(id).unwrap();
    assert_eq!(stream.state(), StreamState::Connected);
    assert!(stream.is_awaiting_accept());
    assert_eq!(stream.usid(), Some(3));
    assert_eq!(stream.service(), "E-mail");
    assert_eq!(stream.protocol(), "SMTP");
    assert_eq!(
        session.offer_stream(Some(3), "E-mail".to_string(), "SMTP".to_string()),
        Err(StreamError::UsidInUse)
    );
    assert_eq!(session.slot_count(), 1);
    assert!(session.offer_stream(None, "E-mail".to_string(), "POP3".to_string()).is_ok());
}

#[test]
fn events_queue_in_the_order_in_which_they_arose() {
    let mut session = session();
    assert!(!session.has_events());
    assert_eq!(session.poll_event(), None);
    let top = session.offer_stream(None, "Web".to_string(), "HTTP/1.1".to_string()).unwrap();
    assert_eq!(session.listen(top, ListenMode::Unlimited, false), Ok(()));
    let child = session.offer_substream(top, None).unwrap();
    assert_eq!(session.set_receive_window(child, 1), Ok(()));
    assert_eq!(session.deliver(child, b"too much", false), Err(StreamError::WindowExceeded));
    assert_eq!(session.deliver(child, b"x", false), Ok(()));
    assert_eq!(session.set_error(child, "checksum".to_string()), Ok(()));
    assert_eq!(session.peer_reset(child), Ok(()));
    assert!(session.has_events());
    assert_eq!(session.poll_event(), Some(Event::NewConnection { stream: top }));
    assert_eq!(session.poll_event(), Some(Event::NewSubstream { parent: top, stream: child }));
    assert_eq!(session.poll_event(), Some(Event::ReceiveBlocked { stream: child }));
    assert_eq!(session.poll_event(), Some(Event::Error { stream: child }));
    assert_eq!(session.poll_event(), Some(Event::StreamReset { stream: child }));
    assert_eq!(session.poll_event(), None);
    assert!(!session.has_events());
}

#[test]
fn refused_operations_raise_no_event() {
    let mut session = session();
    let top = open(&mut session);
    assert_eq!(session.offer_substream(top, None), Err(StreamError::OfferRejected));
    assert_eq!(session.assign_usid(top, 1), Ok(()));
    assert_eq!(
        session.offer_stream(Some(1), "Web".to_string(), "HTTP/1.1".to_string()),
        Err(StreamError::UsidInUse)
    );
    assert_eq!(session.peer_reset(9), Err(StreamError::UnknownStream));
    assert_eq!(session.set_error(9, "x".to_string()), Err(StreamError::UnknownStream));
    assert_eq!(session.deliver(9, b"x", false), Err(StreamError::UnknownStream));
    assert_eq!(session.shutdown(top, ShutdownMode::Reset), Ok(()));
    assert_eq!(session.deliver(top, b"x", false), Err(StreamError::StreamReset));
    assert_eq!(session.poll_event(), None);
}

#[test]
fn the_link_state_is_a_hint_that_touches_no_stream() {
    let mut session = session();
    assert_eq!(session.link_status(), LinkStatus::Down);
    let id = open(&mut session);
    assert_eq!(session.write(id, b"pending"), Ok(()));
    session.set_link_status(LinkStatus::Down);
    assert_eq!(session.poll_event(), None);
    session.set_link_status(LinkStatus::Up);
    session.set_link_status(LinkStatus::Up);
    session.set_link_status(LinkStatus::Stalled);
    session.set_link_status(LinkStatus::Down);
    assert_eq!(session.link_status(), LinkStatus::Down);
    assert_eq!(state(&session, id), Some(StreamState::Connected));
    assert_eq!(session.get(id).map(|s| s.unsent()), Some(7));
    assert_eq!(session.poll_event(), Some(Event::Link(LinkStatus::Up)));
    assert_eq!(session.poll_event(), Some(Event::Link(LinkStatus::Stalled)));
    assert_eq!(session.poll_event(), Some(Event::Link(LinkStatus::Down)));
    assert_eq!(session.poll_event(), None);
    assert_eq!(session.next_segment(100).map(|s| s.data), Some(b"pending".to_vec()));
}

#[test]
fn an_error_message_does_not_close_the_stream() {
    let mut session = session();
    let id = open(&mut session);
    assert_eq!(session.get(id).and_then(|s| s.error().cloned()), None);
    assert_eq!(session.set_error(id, "disk full".to_string()), Ok(()));
    assert_eq!(session.get(id).and_then(|s| s.error().cloned()), Some("disk full".to_string()));
    assert_eq!(state(&session, id), Some(StreamState::Connected));
    assert_eq!(session.write(id, b"still works"), Ok(()));
    assert_eq!(session.deliver(id, b"in", false), Ok(()));
    assert_eq!(
        session.read(id, 10),
        Ok(Received::Data(Chunk { data: b"in".to_vec(), end_of_record: false }))
    );
}

#[test]
fn attach_and_detach_bind_and_unbind() {
    let mut session = session();
    let id = open(&mut session);
    assert_eq!(session.write(id, b"data"), Ok(()));
    assert_eq!(session.detach(id), Ok(()));
    assert_eq!(session.next_stream(), None);
    assert_eq!(session.attach(id), Ok(()));
    assert_eq!(session.next_stream(), Some(id));
    assert_eq!(session.detach(4), Err(StreamError::UnknownStream));
    assert_eq!(session.attach(4), Err(StreamError::UnknownStream));
    let waiting = session.offer_stream(None, "Web".to_string(), "HTTP/1.1".to_string()).unwrap();
    assert_eq!(session.accept(waiting), Ok(()));
    assert_eq!(session.get(waiting).map(|s| s.is_awaiting_accept()), Some(false));
    assert_eq!(session.accept(8), Err(StreamError::UnknownStream));
}

#[test]
fn closing_in_the_background_lets_the_stream_drain() {
    let mut session = session();
    let id = open(&mut session);
    assert_eq!(session.write(id, b"rest"), Ok(()));
    assert_eq!(session.close_in_background(id), Ok(()));
    assert_eq!(state(&session, id), Some(StreamState::Closed));
    assert_eq!(session.get(id).map(|s| s.is_lingering()), Some(true));
    assert!(session.next_segment(10).map(|s| s.end_of_stream).unwrap());
    assert!(!session.is_live(id));
    let idle = open(&mut session);
    assert_eq!(session.shutdown(idle, ShutdownMode::Reset), Ok(()));
    assert_eq!(session.close_in_background(idle), Ok(()));
    assert!(!session.is_live(idle));
    assert_eq!(session.close_in_background(idle), Err(StreamError::UnknownStream));
}

#[test]
fn sequence_numbers_rise_by_one_from_zero() {
    let mut session = session();
    assert_eq!(session.next_sequence(), Some(SequenceNumber::Len2(0)));
    assert_eq!(session.next_sequence(), Some(SequenceNumber::Len2(1)));
    for expected in 2u64..70000 {
        let number = session.next_sequence().expect("far from the end");
        assert_eq!(number.value(), expected);
        assert!(number.is_minimal());
    }
    assert_eq!(session.next_sequence(), Some(SequenceNumber::Len4(70000)));
}
