//! The arena of a session as a value: for each slot the stream in it, if
//! one is.
//!
//! What a session does to its streams is said over this value. Here stand
//! the notions that say it: which streams there are, how they hang together
//! as a forest, which stream an identifier names, which offers wait, and
//! what is left when a stream leaves with all that descends from it.

use vstd::prelude::*;
use crate::stream::{ListenMode, ShutdownMode, StreamError, StreamView};

verus! {

/// Whether slot `i` holds a stream.
pub open spec fn live(streams: Seq<Option<StreamView>>, i: int) -> bool {
    0 <= i < streams.len() && streams[i] is Some
}

/// Whether slot `child` holds a substream of the stream in slot `parent`.
pub open spec fn is_child(streams: Seq<Option<StreamView>>, child: int, parent: int) -> bool {
    live(streams, child) && streams[child]->Some_0.parent == Some(parent as usize) && 0 <= parent
        <= usize::MAX
}

/// The streams form a forest: the parent of every stream is a stream of the
/// session, in a lower slot.
pub open spec fn forest(streams: Seq<Option<StreamView>>) -> bool {
    forall|i: int| #[trigger]
        live(streams, i) ==> match streams[i]->Some_0.parent {
            Some(p) => p < i && live(streams, p as int),
            None => true,
        }
}

/// No two streams share a unique stream identifier.
pub open spec fn usids_unique(streams: Seq<Option<StreamView>>) -> bool {
    forall|i: int, j: int|
        #![trigger live(streams, i), live(streams, j)]
        live(streams, i) && live(streams, j) && streams[i]->Some_0.usid is Some
            && streams[i]->Some_0.usid == streams[j]->Some_0.usid ==> i == j
}

/// Whether slot `slot` holds the stream with the identifier `usid`.
pub open spec fn has_usid(streams: Seq<Option<StreamView>>, slot: int, usid: u64) -> bool {
    live(streams, slot) && streams[slot]->Some_0.usid == Some(usid)
}

/// Whether the stream in slot `i` is the stream in slot `root` or descends
/// from it.
pub open spec fn in_subtree(streams: Seq<Option<StreamView>>, i: int, root: int) -> bool
    decreases i,
{
    if i == root {
        true
    } else if live(streams, i) && i > root {
        match streams[i]->Some_0.parent {
            Some(p) => p < i && in_subtree(streams, p as int, root),
            None => false,
        }
    } else {
        false
    }
}

/// The slot of the stream with the identifier `usid`, if the session has
/// one.
pub open spec fn slot_of(streams: Seq<Option<StreamView>>, usid: u64) -> Option<int> {
    if exists|i: int| has_usid(streams, i, usid) {
        Some(choose|i: int| has_usid(streams, i, usid))
    } else {
        None
    }
}

/// The arena after the stream in slot `id` was closed and let go of in one
/// step: shut down in both directions, left to send what it owes, and torn
/// down once it is finished.
pub open spec fn closed_in_background(streams: Seq<Option<StreamView>>, id: int) -> Seq<
    Option<StreamView>,
> {
    let closed = reaped(
        with_stream(streams, id, streams[id]->Some_0.after_shutdown(ShutdownMode::Close)),
        id,
    );
    reaped(with_stream(closed, id, StreamView { lingering: true, ..closed[id]->Some_0 }), id)
}

/// The arena after the stream in slot `root` and all its descendants left.
/// Without a stream in that slot nothing leaves.
pub open spec fn without_subtree(streams: Seq<Option<StreamView>>, root: int) -> Seq<
    Option<StreamView>,
> {
    Seq::new(
        streams.len(),
        |i: int|
            if live(streams, root) && in_subtree(streams, i, root) {
                None
            } else {
                streams[i]
            },
    )
}

/// The arena after the stream in slot `id` was torn down if its time had
/// come: the application has let go of it and it is finished.
pub open spec fn reaped(streams: Seq<Option<StreamView>>, id: int) -> Seq<Option<StreamView>> {
    if live(streams, id) && streams[id]->Some_0.lingering && streams[id]->Some_0.finished() {
        without_subtree(streams, id)
    } else {
        streams
    }
}

/// The arena with the stream in slot `id` replaced by `stream`; unchanged if
/// the slot holds no stream.
pub open spec fn with_stream(streams: Seq<Option<StreamView>>, id: int, stream: StreamView) -> Seq<
    Option<StreamView>,
> {
    if live(streams, id) {
        streams.update(id, Some(stream))
    } else {
        streams
    }
}

/// Whether the arrival of `data` for the stream in slot `id` blocks that
/// stream.
pub open spec fn blocks_at(
    streams: Seq<Option<StreamView>>,
    id: int,
    data: Seq<u8>,
    end_of_record: bool,
) -> bool {
    live(streams, id) && streams[id]->Some_0.deliver_blocks(data, end_of_record)
}

/// What an operation answers that only needs the stream in slot `id` to be
/// there.
pub open spec fn known(streams: Seq<Option<StreamView>>, id: int) -> Result<(), StreamError> {
    if live(streams, id) {
        Ok(())
    } else {
        Err(StreamError::UnknownStream)
    }
}

/// Whether the stream in slot `child` is a substream of the stream in slot
/// `parent` that the peer offered and the application has not yet accepted.
pub open spec fn is_waiting(streams: Seq<Option<StreamView>>, child: int, parent: int) -> bool {
    is_child(streams, child, parent) && streams[child]->Some_0.awaiting_accept
}

/// Number of substreams of the stream in slot `parent`, among the slots
/// below `upto`, that wait to be accepted.
pub open spec fn offers_waiting(streams: Seq<Option<StreamView>>, parent: int, upto: int) -> nat
    decreases upto,
{
    if upto <= 0 {
        0
    } else {
        offers_waiting(streams, parent, upto - 1) + if is_waiting(streams, upto - 1, parent) {
            1nat
        } else {
            0nat
        }
    }
}

/// Whether a stream in the given listen mode, with `waiting` offers not yet
/// accepted, queues one more.
pub open spec fn takes_offer(mode: ListenMode, waiting: nat) -> bool {
    match mode {
        ListenMode::Reject => false,
        ListenMode::BufferLimit(limit) => waiting < limit,
        ListenMode::Unlimited => true,
    }
}

/// What opening a substream of the stream in slot `parent` answers.
pub open spec fn open_outcome(streams: Seq<Option<StreamView>>, parent: int) -> Result<
    (),
    StreamError,
> {
    if !live(streams, parent) {
        Err(StreamError::UnknownStream)
    } else {
        streams[parent]->Some_0.substream_outcome()
    }
}

/// What the peer's offer of a substream of the stream in slot `parent`
/// answers, the substream to have the identifier `usid` if one is given.
pub open spec fn offer_outcome(
    streams: Seq<Option<StreamView>>,
    parent: int,
    usid: Option<u64>,
) -> Result<(), StreamError> {
    if open_outcome(streams, parent) is Err {
        open_outcome(streams, parent)
    } else if !takes_offer(
        streams[parent]->Some_0.listen_mode,
        offers_waiting(streams, parent, streams.len() as int),
    ) {
        Err(StreamError::OfferRejected)
    } else if usid_taken(streams, usid) {
        Err(StreamError::UsidInUse)
    } else {
        Ok(())
    }
}

/// The arena after the peer signaled that it takes substreams of the stream
/// in slot `id`: the stream knows, and its substreams that were not yet
/// bound to the peer are.
pub open spec fn after_peer_listens(streams: Seq<Option<StreamView>>, id: int) -> Seq<
    Option<StreamView>,
> {
    Seq::new(
        streams.len(),
        |i: int|
            if !live(streams, id) {
                streams[i]
            } else if i == id {
                Some(StreamView { peer_listening: true, ..streams[i]->Some_0 })
            } else if is_child(streams, i, id) && !streams[i]->Some_0.peer_bound {
                Some(streams[i]->Some_0.after_peer_accepts())
            } else {
                streams[i]
            },
    )
}

/// Whether `usid` names an identifier that a stream of the session has.
pub open spec fn usid_taken(streams: Seq<Option<StreamView>>, usid: Option<u64>) -> bool {
    usid is Some && exists|other: int| has_usid(streams, other, usid->Some_0)
}

/// What giving the stream in slot `id` the identifier `usid` answers.
pub open spec fn assign_outcome(streams: Seq<Option<StreamView>>, id: int, usid: u64) -> Result<
    (),
    StreamError,
> {
    if !live(streams, id) {
        Err(StreamError::UnknownStream)
    } else if streams[id]->Some_0.usid == Some(usid) {
        Ok(())
    } else if streams[id]->Some_0.usid is Some || exists|other: int|
        has_usid(streams, other, usid) {
        Err(StreamError::UsidInUse)
    } else {
        Ok(())
    }
}

/// The index holds exactly the streams that have an identifier, each under
/// its own.
pub open spec fn index_matches(index: Map<u64, usize>, streams: Seq<Option<StreamView>>) -> bool {
    &&& forall|i: int| #[trigger]
        live(streams, i) ==> match streams[i]->Some_0.usid {
            Some(u) => index.contains_key(u) && index[u] == i,
            None => true,
        }
    &&& forall|u: u64| #[trigger]
        index.contains_key(u) ==> has_usid(streams, index[u] as int, u)
}

/// Removing a subtree leaves a forest: no stream stays behind without its
/// parent, and the streams that stay are as they were.
pub proof fn lemma_without_subtree_forest(streams: Seq<Option<StreamView>>, root: int)
    requires
        forest(streams),
    ensures
        forest(without_subtree(streams, root)),
        without_subtree(streams, root).len() == streams.len(),
        !live(without_subtree(streams, root), root),
        forall|i: int| #[trigger]
            live(without_subtree(streams, root), i) ==> live(streams, i) && without_subtree(
                streams,
                root,
            )[i] == streams[i],
{
    let after = without_subtree(streams, root);
    assert forall|i: int| #[trigger] live(after, i) implies match after[i]->Some_0.parent {
        Some(p) => p < i && live(after, p as int),
        None => true,
    } by {
        assert(live(streams, i));
        if let Some(p) = after[i]->Some_0.parent {
            assert(live(streams, p as int));
            if live(streams, root) && in_subtree(streams, p as int, root) {
                lemma_subtree_is_above(streams, p as int, root);
                assert(in_subtree(streams, i, root));
            }
        }
    }
}

/// Removing a stream removes exactly its subtree. The stream and every
/// stream that descends from it are gone, its children among them; every
/// other stream stays as it was; and what is left is a forest again.
pub proof fn lemma_removal_detaches_descendants(
    streams: Seq<Option<StreamView>>,
    root: int,
    i: int,
)
    requires
        forest(streams),
        live(streams, root),
        0 <= i < streams.len(),
    ensures
        in_subtree(streams, i, root) ==> !live(without_subtree(streams, root), i),
        !in_subtree(streams, i, root) ==> without_subtree(streams, root)[i] == streams[i],
        is_child(streams, i, root) ==> in_subtree(streams, i, root),
        forest(without_subtree(streams, root)),
{
    lemma_without_subtree_forest(streams, root);
    if is_child(streams, i, root) {
        assert(live(streams, i));
    }
}

/// A stream's subtree lies in its slot and the slots above.
pub proof fn lemma_subtree_is_above(streams: Seq<Option<StreamView>>, i: int, root: int)
    requires
        in_subtree(streams, i, root),
    ensures
        root <= i,
{
}

/// A subtree holds the children of every stream that it holds.
pub proof fn lemma_child_in_subtree(
    streams: Seq<Option<StreamView>>,
    child: int,
    parent: int,
    root: int,
)
    requires
        forest(streams),
        is_child(streams, child, parent),
        in_subtree(streams, parent, root),
    ensures
        in_subtree(streams, child, root),
{
    assert(live(streams, child));
    lemma_subtree_is_above(streams, parent, root);
}

/// Changing a stream in place, other than its parent and its identifier,
/// disturbs neither the forest nor the index.
pub proof fn lemma_update_in_place(
    streams: Seq<Option<StreamView>>,
    index: Map<u64, usize>,
    id: int,
    stream: StreamView,
)
    requires
        forest(streams),
        index_matches(index, streams),
        live(streams, id),
        stream.parent == streams[id]->Some_0.parent,
        stream.usid == streams[id]->Some_0.usid,
    ensures
        forest(streams.update(id, Some(stream))),
        index_matches(index, streams.update(id, Some(stream))),
{
    let after = streams.update(id, Some(stream));
    assert forall|i: int| #[trigger] live(after, i) implies match after[i]->Some_0.parent {
        Some(p) => p < i && live(after, p as int),
        None => true,
    } by {
        assert(live(streams, i));
    }
    assert forall|i: int| #[trigger] live(after, i) implies match after[i]->Some_0.usid {
        Some(u) => index.contains_key(u) && index[u] == i,
        None => true,
    } by {
        assert(live(streams, i));
    }
    assert forall|u: u64| #[trigger] index.contains_key(u) implies has_usid(
        after,
        index[u] as int,
        u,
    ) by {
        assert(has_usid(streams, index[u] as int, u));
    }
}

} // verus!
