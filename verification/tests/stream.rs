use sss::queue::Chunk;
use sss::stream::{
    ListenMode, Received, ShutdownMode, Stream, StreamError, StreamState,
    DEFAULT_RECEIVE_WINDOW, DEFAULT_TRANSMIT_WINDOW,
};

fn connected() -> Stream {
    Stream::connection("Web".to_string(), "HTTP/1.1".to_string(), false)
}

fn data(bytes: &[u8], end_of_record: bool) -> Received {
    Received::Data(Chunk { data: bytes.to_vec(), end_of_record })
}

#[test]
fn a_new_stream_has_the_defaults() {
    let stream = Stream::new();
    assert_eq!(stream.state(), StreamState::Unconnected);
    assert_eq!(stream.priority(), 0);
    assert_eq!(stream.usid(), None);
    assert_eq!(stream.parent(), None);
    assert_eq!(stream.listen_mode(), ListenMode::Reject);
    assert!(!stream.hands_down_listen_mode());
    assert!(!stream.is_peer_bound());
    assert!(!stream.is_awaiting_accept());
    assert!(!stream.is_lingering());
    assert!(!stream.is_receive_blocked());
    assert_eq!(stream.receive_window(), DEFAULT_RECEIVE_WINDOW);
    assert_eq!(stream.transmit_window(), DEFAULT_TRANSMIT_WINDOW);
    assert_eq!(stream.receive_window(), 65536);
    assert_eq!(stream.in_flight(), 0);
    assert_eq!(stream.unread(), 0);
    assert_eq!(stream.unsent(), 0);
    assert!(!stream.is_ready());
    assert!(stream.is_finished());
    assert_eq!(stream.service(), "");
    assert_eq!(stream.protocol(), "");
}

#[test]
fn connect_is_immediate_and_only_from_unconnected() {
    let mut stream = Stream::new();
    assert_eq!(stream.write(b"x"), Err(StreamError::NotConnected));
    assert_eq!(stream.read(1), Err(StreamError::NotConnected));
    assert!(stream.connect("Web".to_string(), "HTTP/1.1".to_string()));
    assert_eq!(stream.state(), StreamState::Connected);
    assert!(stream.is_peer_bound());
    assert_eq!(stream.service(), "Web");
    assert_eq!(stream.protocol(), "HTTP/1.1");
    assert!(!stream.connect("File".to_string(), "FTP".to_string()));
    assert_eq!(stream.service(), "Web");
    assert_eq!(stream.state(), StreamState::Connected);
}

#[test]
fn writes_queue_and_segments_drain_in_order() {
    let mut stream = connected();
    assert_eq!(stream.write(b"ab"), Ok(()));
    assert_eq!(stream.end_record(), Ok(()));
    assert_eq!(stream.write(b"cd"), Ok(()));
    assert_eq!(stream.unsent(), 4);
    assert!(stream.is_ready());
    let (chunk, last) = stream.take_segment(100);
    assert_eq!(chunk, Chunk { data: b"ab".to_vec(), end_of_record: true });
    assert!(!last);
    assert_eq!(stream.in_flight(), 2);
    let (chunk, last) = stream.take_segment(1);
    assert_eq!(chunk, Chunk { data: b"c".to_vec(), end_of_record: false });
    assert!(!last);
    let (chunk, last) = stream.take_segment(100);
    assert_eq!(chunk, Chunk { data: b"d".to_vec(), end_of_record: false });
    assert!(!last);
    assert_eq!(stream.in_flight(), 4);
    assert!(!stream.is_ready());
    stream.acknowledge(3);
    assert_eq!(stream.in_flight(), 1);
    stream.acknowledge(10);
    assert_eq!(stream.in_flight(), 0);
}

#[test]
fn the_transmit_window_caps_what_is_in_flight() {
    let mut stream = connected();
    stream.set_transmit_window(3);
    assert_eq!(stream.write(b"abcdef"), Ok(()));
    let (chunk, _) = stream.take_segment(100);
    assert_eq!(chunk.data, b"abc".to_vec());
    assert_eq!(stream.in_flight(), 3);
    assert!(!stream.is_ready());
    let (chunk, _) = stream.take_segment(100);
    assert_eq!(chunk.data, Vec::<u8>::new());
    stream.acknowledge(2);
    assert!(stream.is_ready());
    let (chunk, _) = stream.take_segment(100);
    assert_eq!(chunk.data, b"de".to_vec());
    assert_eq!(stream.in_flight(), 3);
}

#[test]
fn delivered_records_are_read_one_at_a_time() {
    let mut stream = connected();
    assert_eq!(stream.read(10), Ok(Received::NoData));
    assert_eq!(stream.deliver(b"ab", true), Ok(()));
    assert_eq!(stream.deliver(b"cd", false), Ok(()));
    assert_eq!(stream.unread(), 4);
    assert_eq!(stream.read(10), Ok(data(b"ab", true)));
    assert_eq!(stream.read(10), Ok(data(b"cd", false)));
    assert_eq!(stream.read(10), Ok(Received::NoData));
    stream.peer_closed();
    assert_eq!(stream.state(), StreamState::ReadClosed);
    assert_eq!(stream.read(10), Ok(Received::EndOfStream));
}

#[test]
fn data_buffered_before_the_peer_closed_stays_readable() {
    let mut stream = connected();
    assert_eq!(stream.deliver(b"tail", false), Ok(()));
    stream.peer_closed();
    assert_eq!(stream.deliver(b"late", false), Ok(()));
    assert_eq!(stream.unread(), 4);
    assert_eq!(stream.read(10), Ok(data(b"tail", false)));
    assert_eq!(stream.read(10), Ok(Received::EndOfStream));
}

#[test]
fn the_receive_window_turns_data_away_and_blocks() {
    let mut stream = connected();
    stream.set_receive_window(4);
    assert_eq!(stream.deliver(b"abc", false), Ok(()));
    assert!(!stream.is_receive_blocked());
    assert_eq!(stream.deliver(b"de", false), Err(StreamError::WindowExceeded));
    assert!(stream.is_receive_blocked());
    assert_eq!(stream.unread(), 3);
    assert_eq!(stream.read(0), Ok(Received::NoData));
    assert!(stream.is_receive_blocked());
    assert_eq!(stream.read(1), Ok(data(b"a", false)));
    assert!(!stream.is_receive_blocked());
    assert_eq!(stream.deliver(b"de", false), Ok(()));
    assert!(stream.is_receive_blocked());
    assert_eq!(stream.unread(), 4);
    assert_eq!(stream.deliver(b"", true), Ok(()));
    assert_eq!(stream.read(10), Ok(data(b"bcde", true)));
}

#[test]
fn a_window_of_half_the_data_blocks_at_half() {
    let mut stream = connected();
    stream.set_receive_window(8);
    assert_eq!(stream.deliver(b"abcd", false), Ok(()));
    assert_eq!(stream.deliver(b"efghi", false), Err(StreamError::WindowExceeded));
    assert!(stream.is_receive_blocked());
    assert_eq!(stream.unread(), 4);
}

#[test]
fn shutdown_write_owes_an_end_of_stream_marker() {
    let mut stream = connected();
    assert_eq!(stream.write(b"bye"), Ok(()));
    stream.shutdown(ShutdownMode::Write);
    assert_eq!(stream.state(), StreamState::WriteClosed);
    assert_eq!(stream.write(b"more"), Err(StreamError::DirectionClosed));
    assert_eq!(stream.end_record(), Err(StreamError::DirectionClosed));
    assert!(!stream.is_finished());
    let (chunk, last) = stream.take_segment(2);
    assert_eq!(chunk.data, b"by".to_vec());
    assert!(!last);
    let (chunk, last) = stream.take_segment(2);
    assert_eq!(chunk.data, b"e".to_vec());
    assert!(last);
    assert!(!stream.is_ready());
    assert_eq!(stream.deliver(b"in", false), Ok(()));
    assert_eq!(stream.read(10), Ok(data(b"in", false)));
    stream.peer_closed();
    assert_eq!(stream.state(), StreamState::Closed);
    assert!(stream.is_finished());
}

#[test]
fn a_bare_end_of_stream_marker_is_a_segment_of_its_own() {
    let mut stream = connected();
    stream.shutdown(ShutdownMode::Write);
    assert!(stream.is_ready());
    let (chunk, last) = stream.take_segment(10);
    assert_eq!(chunk, Chunk { data: Vec::new(), end_of_record: false });
    assert!(last);
    assert!(!stream.is_ready());
    let (_, last) = stream.take_segment(10);
    assert!(!last);
}

#[test]
fn shutdown_read_discards_and_emits_nothing() {
    let mut stream = connected();
    assert_eq!(stream.deliver(b"unread", false), Ok(()));
    stream.shutdown(ShutdownMode::Read);
    assert_eq!(stream.state(), StreamState::ReadClosed);
    assert_eq!(stream.unread(), 0);
    assert!(!stream.is_ready());
    assert_eq!(stream.deliver(b"dropped", false), Ok(()));
    assert_eq!(stream.unread(), 0);
    assert_eq!(stream.read(10), Ok(Received::EndOfStream));
    assert_eq!(stream.write(b"still open"), Ok(()));
    stream.shutdown(ShutdownMode::Write);
    assert_eq!(stream.state(), StreamState::Closed);
}

#[test]
fn shutdown_close_is_read_and_write() {
    let mut stream = connected();
    assert_eq!(stream.write(b"out"), Ok(()));
    assert_eq!(stream.deliver(b"in", false), Ok(()));
    stream.shutdown(ShutdownMode::Close);
    assert_eq!(stream.state(), StreamState::Closed);
    assert_eq!(stream.unread(), 0);
    assert_eq!(stream.unsent(), 3);
    assert!(stream.is_ready());
    let (chunk, last) = stream.take_segment(10);
    assert_eq!(chunk.data, b"out".to_vec());
    assert!(last);
    assert!(stream.is_finished());
}

#[test]
fn reset_is_immediate_terminal_and_loses_data() {
    let mut stream = connected();
    assert_eq!(stream.write(b"lost"), Ok(()));
    assert_eq!(stream.deliver(b"lost too", false), Ok(()));
    let _ = stream.take_segment(2);
    stream.shutdown(ShutdownMode::Reset);
    assert_eq!(stream.state(), StreamState::Reset);
    assert_eq!(stream.unsent(), 0);
    assert_eq!(stream.unread(), 0);
    assert_eq!(stream.in_flight(), 0);
    assert!(!stream.is_ready());
    assert!(stream.is_finished());
    assert_eq!(stream.write(b"x"), Err(StreamError::StreamReset));
    assert_eq!(stream.end_record(), Err(StreamError::StreamReset));
    assert_eq!(stream.read(1), Err(StreamError::StreamReset));
    assert_eq!(stream.deliver(b"x", false), Err(StreamError::StreamReset));
    for mode in [ShutdownMode::Read, ShutdownMode::Write, ShutdownMode::Close, ShutdownMode::Reset] {
        stream.shutdown(mode);
        assert_eq!(stream.state(), StreamState::Reset);
    }
    assert!(!stream.connect("Web".to_string(), "HTTP/1.1".to_string()));
}

#[test]
fn reset_is_reachable_from_every_other_state() {
    let modes = [None, Some(ShutdownMode::Read), Some(ShutdownMode::Write), Some(ShutdownMode::Close)];
    for mode in modes {
        let mut stream = connected();
        if let Some(mode) = mode {
            stream.shutdown(mode);
        }
        stream.shutdown(ShutdownMode::Reset);
        assert_eq!(stream.state(), StreamState::Reset);
    }
    let parent = connected();
    let mut connecting = parent.substream(0, false);
    assert_eq!(connecting.state(), StreamState::Connecting);
    connecting.shutdown(ShutdownMode::Reset);
    assert_eq!(connecting.state(), StreamState::Reset);
    let mut unconnected = Stream::new();
    unconnected.shutdown(ShutdownMode::Reset);
    assert_eq!(unconnected.state(), StreamState::Unconnected);
}

#[test]
fn disconnect_closes_in_the_background() {
    let mut stream = connected();
    assert_eq!(stream.write(b"flush me"), Ok(()));
    assert_eq!(stream.deliver(b"unread", false), Ok(()));
    stream.disconnect();
    assert_eq!(stream.state(), StreamState::Unconnected);
    assert_eq!(stream.unread(), 0);
    assert_eq!(stream.write(b"x"), Err(StreamError::NotConnected));
    assert!(stream.is_ready());
    assert!(!stream.is_finished());
    let (chunk, last) = stream.take_segment(100);
    assert_eq!(chunk.data, b"flush me".to_vec());
    assert!(last);
    assert!(stream.is_finished());

    let mut reset = connected();
    reset.shutdown(ShutdownMode::Reset);
    reset.disconnect();
    assert_eq!(reset.state(), StreamState::Unconnected);
    assert!(!reset.is_ready());
}

#[test]
fn a_draining_stream_is_not_connected_again() {
    let mut stream = connected();
    assert_eq!(stream.write(b"tail"), Ok(()));
    stream.disconnect();
    assert!(!stream.connect("File".to_string(), "FTP".to_string()));
    assert_eq!(stream.state(), StreamState::Unconnected);
    assert_eq!(stream.service(), "Web");
    let (_, last) = stream.take_segment(100);
    assert!(last);
    assert!(stream.connect("File".to_string(), "FTP".to_string()));
    assert_eq!(stream.state(), StreamState::Connected);
    assert_eq!(stream.service(), "File");
    assert_eq!(stream.write(b"fresh"), Ok(()));
    let (chunk, last) = stream.take_segment(100);
    assert_eq!(chunk.data, b"fresh".to_vec());
    assert!(!last);
}

#[test]
fn state_predicates_and_closing_steps() {
    let unconnected = StreamState::Unconnected;
    let connecting = StreamState::Connecting;
    let connected = StreamState::Connected;
    let read_closed = StreamState::ReadClosed;
    let write_closed = StreamState::WriteClosed;
    let closed = StreamState::Closed;
    let reset = StreamState::Reset;
    let table = [
        (unconnected, false, false, unconnected, unconnected),
        (connecting, true, true, read_closed, write_closed),
        (connected, true, true, read_closed, write_closed),
        (read_closed, true, false, read_closed, closed),
        (write_closed, false, true, closed, write_closed),
        (closed, false, false, closed, closed),
        (reset, false, false, reset, reset),
    ];
    for (state, write_open, read_open, after_read, after_write) in table {
        assert_eq!(state.write_open(), write_open);
        assert_eq!(state.read_open(), read_open);
        assert_eq!(state.close_read(), after_read);
        assert_eq!(state.close_write(), after_write);
    }
}

#[test]
fn substreams_start_as_their_parent_says() {
    let mut parent = connected();
    assert_eq!(parent.can_have_substream(), Ok(()));
    let opened = parent.substream(3, false);
    assert_eq!(opened.state(), StreamState::Connecting);
    assert!(!opened.is_peer_bound());
    assert_eq!(opened.parent(), Some(3));
    assert_eq!(opened.listen_mode(), ListenMode::Reject);
    assert!(!opened.is_awaiting_accept());

    parent.listen(ListenMode::BufferLimit(2), true);
    parent.peer_listens();
    let opened = parent.substream(3, false);
    assert_eq!(opened.state(), StreamState::Connected);
    assert!(opened.is_peer_bound());
    assert_eq!(opened.listen_mode(), ListenMode::BufferLimit(2));
    assert!(opened.hands_down_listen_mode());

    let offered = parent.substream(3, true);
    assert_eq!(offered.state(), StreamState::Connected);
    assert!(offered.is_awaiting_accept());
    assert!(offered.is_peer_bound());

    parent.listen(ListenMode::Unlimited, false);
    let plain = parent.substream(3, true);
    assert_eq!(plain.listen_mode(), ListenMode::Reject);
    assert!(!plain.hands_down_listen_mode());

    assert_eq!(Stream::new().can_have_substream(), Err(StreamError::NotConnected));
    parent.shutdown(ShutdownMode::Close);
    assert_eq!(parent.can_have_substream(), Err(StreamError::DirectionClosed));
    parent.shutdown(ShutdownMode::Reset);
    assert_eq!(parent.can_have_substream(), Err(StreamError::StreamReset));
}

#[test]
fn a_connecting_stream_queues_until_the_peer_accepts() {
    let parent = connected();
    let mut child = parent.substream(0, false);
    assert_eq!(child.write(b"early"), Ok(()));
    assert!(!child.is_ready());
    child.peer_accepts();
    assert_eq!(child.state(), StreamState::Connected);
    assert!(child.is_ready());
    let (chunk, _) = child.take_segment(10);
    assert_eq!(chunk.data, b"early".to_vec());
}

#[test]
fn setters_change_one_thing() {
    let mut stream = connected();
    stream.set_priority(-3);
    assert_eq!(stream.priority(), -3);
    stream.set_usid(Some(9));
    assert_eq!(stream.usid(), Some(9));
    stream.release();
    assert!(stream.is_lingering());
    let mut offered = Stream::connection("Web".to_string(), "HTTP/1.1".to_string(), true);
    assert!(offered.is_awaiting_accept());
    offered.accept();
    assert!(!offered.is_awaiting_accept());
    assert_eq!(stream.state(), StreamState::Connected);
}
