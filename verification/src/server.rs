//! Servers: the registered (service, protocol) pairs of a host.
//!
//! A server stands for one pair of names that the application listens on.
//! Top-level streams that peers open to the pair queue up in it, in the
//! order in which they arrived, until the application accepts them.

use vstd::prelude::*;
use std::collections::VecDeque;

verus! {

/// The place of a stream in a host: the slot of its peer session, and its
/// own slot in that session.
#[derive(Clone, Copy, Debug, PartialEq, Eq, Structural)]
pub struct StreamRef {
    /// The slot of the peer session.
    pub peer: usize,
    /// The slot of the stream in the session.
    pub stream: usize,
}

/// The value of a server.
pub struct ServerView {
    /// The service listened on.
    pub service: Seq<char>,
    /// The protocol listened on.
    pub protocol: Seq<char>,
    /// The streams that wait to be accepted, oldest first.
    pub queue: Seq<StreamRef>,
}

/// One registered (service, protocol) pair with its queue of incoming
/// streams.
pub struct Server {
    service: String,
    protocol: String,
    queue: VecDeque<StreamRef>,
}

impl View for Server {
    type V = ServerView;

    closed spec fn view(&self) -> ServerView {
        ServerView { service: self.service@, protocol: self.protocol@, queue: self.queue@ }
    }
}

impl Server {
    /// A server for the pair named, with nothing queued.
    pub fn new(service: String, protocol: String) -> (server: Server)
        ensures
            server@ == (ServerView {
                service: service@,
                protocol: protocol@,
                queue: Seq::empty(),
            }),
    {
        Server { service, protocol, queue: VecDeque::new() }
    }

    /// The service listened on.
    pub fn service(&self) -> (service: &String)
        ensures
            service@ == self@.service,
    {
        &self.service
    }

    /// The protocol listened on.
    pub fn protocol(&self) -> (protocol: &String)
        ensures
            protocol@ == self@.protocol,
    {
        &self.protocol
    }

    /// Whether this is the server for the pair named.
    pub fn serves(&self, service: &String, protocol: &String) -> (serves: bool)
        ensures
            serves == (self@.service == service@ && self@.protocol == protocol@),
    {
        self.service == *service && self.protocol == *protocol
    }

    /// Number of streams queued.
    pub fn pending(&self) -> (count: usize)
        ensures
            count == self@.queue.len(),
    {
        self.queue.len()
    }

    /// Queues an incoming stream behind those that wait.
    pub fn enqueue(&mut self, stream: StreamRef)
        ensures
            final(self)@ == (ServerView { queue: old(self)@.queue.push(stream), ..old(self)@ }),
    {
        self.queue.push_back(stream);
    }

    /// Takes the stream that has waited longest out of the queue.
    pub fn dequeue(&mut self) -> (stream: Option<StreamRef>)
        ensures
            stream == if old(self)@.queue.len() > 0 {
                Some(old(self)@.queue[0])
            } else {
                None
            },
            final(self)@ == (ServerView {
                queue: if old(self)@.queue.len() > 0 {
                    old(self)@.queue.subrange(1, old(self)@.queue.len() as int)
                } else {
                    old(self)@.queue
                },
                ..old(self)@
            }),
    {
        self.queue.pop_front()
    }
}

} // verus!
