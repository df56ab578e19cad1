//! Which stream is served next.
//!
//! Priority is strict: a stream is served only while no stream of higher
//! priority has anything for the transport. The streams of one priority take
//! turns, in slot order, starting behind the stream that was served last.

use vstd::prelude::*;
use crate::arena::live;
use crate::stream::StreamView;

verus! {

/// Whether slot `i` holds a stream that has something for the transport.
pub open spec fn is_ready(streams: Seq<Option<StreamView>>, i: int) -> bool {
    live(streams, i) && streams[i]->Some_0.ready()
}

/// Whether slot `i` holds a ready stream of the highest priority that any
/// ready stream has.
pub open spec fn is_top(streams: Seq<Option<StreamView>>, i: int) -> bool {
    is_ready(streams, i) && forall|j: int| #[trigger]
        is_ready(streams, j) ==> streams[j]->Some_0.priority <= streams[i]->Some_0.priority
}

/// Whether the stream in slot `next` is the one to serve after the stream
/// in slot `cursor` was served.
///
/// It is a ready stream of the highest priority among the ready. Of these
/// it is the first behind `cursor`, or, if none is behind, the first of
/// all: the streams of one priority take turns.
pub open spec fn is_next(streams: Seq<Option<StreamView>>, cursor: int, next: int) -> bool {
    &&& is_top(streams, next)
    &&& forall|j: int| #[trigger]
        is_top(streams, j) ==> if next > cursor {
            j <= cursor || next <= j
        } else {
            j <= cursor && next <= j
        }
}

/// At most one stream is the next to serve.
pub proof fn lemma_next_is_unique(streams: Seq<Option<StreamView>>, cursor: int, a: int, b: int)
    requires
        is_next(streams, cursor, a),
        is_next(streams, cursor, b),
    ensures
        a == b,
{
    assert(is_top(streams, a));
    assert(is_top(streams, b));
}

/// Priority is strict: while a stream is ready, no stream of lower
/// priority is served.
pub proof fn lemma_priority_is_strict(
    streams: Seq<Option<StreamView>>,
    cursor: int,
    next: int,
    other: int,
)
    requires
        is_next(streams, cursor, next),
        is_ready(streams, other),
    ensures
        streams[other]->Some_0.priority <= streams[next]->Some_0.priority,
{
    assert(is_top(streams, next));
}

/// Streams of one priority take turns: the stream that was served last is
/// served again only if no other ready stream has the highest priority.
pub proof fn lemma_equals_take_turns(
    streams: Seq<Option<StreamView>>,
    cursor: int,
    next: int,
    other: int,
)
    requires
        is_next(streams, cursor, next),
        next == cursor,
        is_ready(streams, other),
        streams[other]->Some_0.priority == streams[next]->Some_0.priority,
    ensures
        other == next,
{
    assert(is_top(streams, next));
    assert(is_top(streams, other)) by {
        assert forall|j: int| #[trigger] is_ready(streams, j) implies streams[j]->Some_0.priority
            <= streams[other]->Some_0.priority by {}
    }
}

} // verus!
