//! Record-delimited byte queues.
//!
//! A stream's data is a sequence of bytes in which record boundaries stand as
//! explicit markers, in the order in which both were written. Taking data
//! from the front never crosses a marker: it stops there, consumes the
//! marker and leaves what follows for the next call.

use vstd::prelude::*;
use std::collections::VecDeque;

verus! {

/// One element of a stream's data: a byte, or the end of a record.
#[derive(Clone, Copy, Debug, PartialEq, Eq, Structural)]
pub enum Unit {
    /// A byte of data.
    Byte(u8),
    /// The boundary that ends a record.
    RecordEnd,
}

/// What one call took from the front of a queue.
#[derive(Debug, PartialEq, Eq)]
pub struct Chunk {
    /// The bytes taken, in order. Empty when no data stood at the front.
    pub data: Vec<u8>,
    /// Whether the call stopped at a record boundary and consumed it.
    pub end_of_record: bool,
}

/// The bytes `data` as queue elements.
pub open spec fn units_of(data: Seq<u8>) -> Seq<Unit> {
    Seq::new(data.len(), |i: int| Unit::Byte(data[i]))
}

/// Number of bytes among `units`, markers not counted.
pub open spec fn byte_count(units: Seq<Unit>) -> nat
    decreases units.len(),
{
    if units.len() == 0 {
        0
    } else {
        byte_count(units.drop_last()) + if units.last() is Byte {
            1nat
        } else {
            0nat
        }
    }
}

/// Number of bytes that stand before the first marker, or before the end.
pub open spec fn leading_run(units: Seq<Unit>) -> nat
    decreases units.len(),
{
    if units.len() == 0 || units[0] is RecordEnd {
        0
    } else {
        1 + leading_run(units.subrange(1, units.len() as int))
    }
}

/// Number of bytes that a call for at most `max` bytes takes.
pub open spec fn taken_len(units: Seq<Unit>, max: nat) -> nat {
    if leading_run(units) <= max {
        leading_run(units)
    } else {
        max
    }
}

/// Whether a call for at most `max` bytes stops at a marker.
pub open spec fn taken_ends_record(units: Seq<Unit>, max: nat) -> bool {
    taken_len(units, max) < units.len() && units[taken_len(units, max) as int] is RecordEnd
}

/// The bytes that a call for at most `max` bytes takes.
pub open spec fn taken_data(units: Seq<Unit>, max: nat) -> Seq<u8> {
    Seq::new(taken_len(units, max), |i: int| units[i]->Byte_0)
}

/// What a call for at most `max` bytes leaves in the queue.
pub open spec fn taken_rest(units: Seq<Unit>, max: nat) -> Seq<Unit> {
    let skip = taken_len(units, max) + if taken_ends_record(units, max) {
        1nat
    } else {
        0nat
    };
    units.subrange(skip as int, units.len() as int)
}

/// Everything before the first marker is data.
pub proof fn lemma_leading_run(units: Seq<Unit>)
    ensures
        leading_run(units) <= units.len(),
        forall|i: int| 0 <= i < leading_run(units) ==> units[i] is Byte,
        leading_run(units) < units.len() ==> units[leading_run(units) as int] is RecordEnd,
    decreases units.len(),
{
    if units.len() > 0 && units[0] is Byte {
        let tail = units.subrange(1, units.len() as int);
        lemma_leading_run(tail);
        assert forall|i: int| 0 <= i < leading_run(units) implies units[i] is Byte by {
            if i > 0 {
                assert(units[i] == tail[i - 1]);
            }
        }
        if leading_run(units) < units.len() {
            assert(units[leading_run(units) as int] == tail[leading_run(tail) as int]);
        }
    }
}

/// A prefix of `n` bytes is followed by the run of what comes after it.
pub proof fn lemma_leading_run_after_bytes(units: Seq<Unit>, n: nat)
    requires
        n <= units.len(),
        forall|i: int| 0 <= i < n ==> units[i] is Byte,
    ensures
        leading_run(units) == n + leading_run(units.subrange(n as int, units.len() as int)),
    decreases n,
{
    if n == 0 {
        assert(units.subrange(0, units.len() as int) =~= units);
    } else {
        let tail = units.subrange(1, units.len() as int);
        lemma_leading_run_after_bytes(tail, (n - 1) as nat);
        assert(tail.subrange(n - 1, tail.len() as int) =~= units.subrange(
            n as int,
            units.len() as int,
        ));
    }
}

/// Counting bytes splits over concatenation.
pub proof fn lemma_byte_count_concat(a: Seq<Unit>, b: Seq<Unit>)
    ensures
        byte_count(a + b) == byte_count(a) + byte_count(b),
    decreases b.len(),
{
    if b.len() == 0 {
        assert(a + b =~= a);
    } else {
        lemma_byte_count_concat(a, b.drop_last());
        assert((a + b).drop_last() =~= a + b.drop_last());
    }
}

/// A run of data holds as many bytes as it is long.
pub proof fn lemma_byte_count_units_of(data: Seq<u8>)
    ensures
        byte_count(units_of(data)) == data.len(),
    decreases data.len(),
{
    if data.len() > 0 {
        lemma_byte_count_units_of(data.drop_last());
        assert(units_of(data).drop_last() =~= units_of(data.drop_last()));
    }
}

/// The first element counts for one if it is a byte.
pub proof fn lemma_byte_count_front(units: Seq<Unit>)
    requires
        units.len() > 0,
    ensures
        byte_count(units) == byte_count(units.subrange(1, units.len() as int)) + if units[0] is Byte {
            1nat
        } else {
            0nat
        },
{
    let head = units.subrange(0, 1);
    let tail = units.subrange(1, units.len() as int);
    assert(units =~= head + tail);
    lemma_byte_count_concat(head, tail);
    assert(head.drop_last() =~= Seq::<Unit>::empty());
    assert(byte_count(head.drop_last()) == 0);
}

/// What one call takes lies within one record: it is the front of the queue
/// up to the byte limit or the first marker, with no marker in it. And the
/// call removes exactly what it hands out: the bytes left and the bytes
/// taken add up to the bytes that were there.
pub proof fn lemma_taken_accounts(units: Seq<Unit>, max: nat)
    ensures
        taken_data(units, max).len() <= max,
        taken_data(units, max).len() <= leading_run(units),
        forall|i: int| 0 <= i < taken_data(units, max).len() ==> units[i] is Byte,
        byte_count(taken_rest(units, max)) + taken_data(units, max).len() == byte_count(units),
        units_of(taken_data(units, max)) == units.subrange(0, taken_len(units, max) as int),
{
    lemma_leading_run(units);
    let n = taken_len(units, max);
    let front = units.subrange(0, n as int);
    let back = units.subrange(n as int, units.len() as int);
    assert(units =~= front + back);
    lemma_byte_count_concat(front, back);
    assert(front =~= units_of(taken_data(units, max)));
    lemma_byte_count_units_of(taken_data(units, max));
    if taken_ends_record(units, max) {
        lemma_byte_count_front(back);
        assert(back.subrange(1, back.len() as int) =~= taken_rest(units, max));
    } else {
        assert(back =~= taken_rest(units, max));
    }
}

/// An ordered queue of bytes and record markers.
pub struct RecordQueue {
    units: VecDeque<Unit>,
    bytes: usize,
}

impl View for RecordQueue {
    type V = Seq<Unit>;

    /// The queued elements, oldest first.
    closed spec fn view(&self) -> Seq<Unit> {
        self.units@
    }
}

impl RecordQueue {
    /// The byte counter agrees with the content.
    pub closed spec fn wf(&self) -> bool {
        self.bytes == byte_count(self.units@)
    }

    /// The bytes of a well-formed queue can be counted in a `usize`.
    pub proof fn lemma_byte_count_fits(&self)
        requires
            self.wf(),
        ensures
            byte_count(self@) <= usize::MAX,
    {
    }

    /// An empty queue.
    pub fn new() -> (queue: RecordQueue)
        ensures
            queue.wf(),
            queue@ == Seq::<Unit>::empty(),
    {
        RecordQueue { units: VecDeque::new(), bytes: 0 }
    }

    /// Number of bytes queued, markers not counted.
    pub fn byte_len(&self) -> (n: usize)
        requires
            self.wf(),
        ensures
            n == byte_count(self@),
    {
        self.bytes
    }

    /// Whether nothing is queued, neither bytes nor markers.
    pub fn is_empty(&self) -> (empty: bool)
        ensures
            empty == (self@.len() == 0),
    {
        self.units.len() == 0
    }

    /// Appends `data` behind what is queued, and returns whether it did.
    ///
    /// The queue takes the data whole or not at all. It refuses data with
    /// which it would hold more bytes than a `usize` can count.
    pub fn write(&mut self, data: &[u8]) -> (queued: bool)
        requires
            old(self).wf(),
        ensures
            final(self).wf(),
            queued == (byte_count(old(self)@) + data@.len() <= usize::MAX),
            final(self)@ == if queued {
                old(self)@ + units_of(data@)
            } else {
                old(self)@
            },
    {
        let n = data.len();
        if n > usize::MAX - self.bytes {
            return false;
        }
        let mut i: usize = 0;
        while i < n
            invariant
                i <= n,
                n == data@.len(),
                self.wf(),
                self@ == old(self)@ + units_of(data@.subrange(0, i as int)),
                byte_count(self@) == byte_count(old(self)@) + i,
                byte_count(old(self)@) + n <= usize::MAX,
            decreases n - i,
        {
            let ghost before = self.units@;
            self.units.push_back(Unit::Byte(data[i]));
            self.bytes = self.bytes + 1;
            i = i + 1;
            proof {
                assert(self.units@.drop_last() =~= before);
                assert(self.units@ =~= old(self)@ + units_of(data@.subrange(0, i as int)));
            }
        }
        proof {
            assert(data@.subrange(0, n as int) =~= data@);
        }
        true
    }

    /// Ends the current record: appends a marker behind what is queued.
    pub fn mark_record(&mut self)
        requires
            old(self).wf(),
        ensures
            final(self).wf(),
            final(self)@ == old(self)@.push(Unit::RecordEnd),
    {
        let ghost before = self.units@;
        self.units.push_back(Unit::RecordEnd);
        proof {
            assert(self.units@.drop_last() =~= before);
        }
    }

    /// The byte at the front, if the front is a byte.
    fn front_byte(&self) -> (front: Option<u8>)
        ensures
            front == if self@.len() > 0 && self@[0] is Byte {
                Some(self@[0]->Byte_0)
            } else {
                None
            },
    {
        if self.units.len() == 0 {
            None
        } else {
            match self.units[0] {
                Unit::Byte(b) => Some(b),
                Unit::RecordEnd => None,
            }
        }
    }

    /// Takes up to `max` bytes from the front, stopping at a record boundary.
    ///
    /// A boundary reached is consumed and reported; the bytes behind it stay
    /// for the next call.
    pub fn read(&mut self, max: usize) -> (chunk: Chunk)
        requires
            old(self).wf(),
        ensures
            final(self).wf(),
            chunk.data@ == taken_data(old(self)@, max as nat),
            chunk.end_of_record == taken_ends_record(old(self)@, max as nat),
            final(self)@ == taken_rest(old(self)@, max as nat),
    {
        let mut data: Vec<u8> = Vec::new();
        let mut next = self.front_byte();
        while data.len() < max && next.is_some()
            invariant
                self.wf(),
                data@.len() <= max,
                data@.len() <= old(self)@.len(),
                units_of(data@) == old(self)@.subrange(0, data@.len() as int),
                self@ == old(self)@.subrange(data@.len() as int, old(self)@.len() as int),
                next == if self@.len() > 0 && self@[0] is Byte {
                    Some(self@[0]->Byte_0)
                } else {
                    None
                },
            decreases self@.len(),
        {
            proof {
                lemma_byte_count_front(self.units@);
            }
            let _ = self.units.pop_front();
            self.bytes = self.bytes - 1;
            data.push(next.unwrap());
            next = self.front_byte();
            proof {
                assert(units_of(data@) =~= old(self)@.subrange(0, data@.len() as int));
                assert(self@ =~= old(self)@.subrange(data@.len() as int, old(self)@.len() as int));
            }
        }
        proof {
            lemma_taken_len(old(self)@, data@, max as nat);
            if self.units@.len() > 0 {
                lemma_byte_count_front(self.units@);
            }
        }
        let end_of_record = self.units.len() > 0 && next.is_none();
        if end_of_record {
            let _ = self.units.pop_front();
        }
        proof {
            assert(self@ =~= taken_rest(old(self)@, max as nat));
        }
        Chunk { data, end_of_record }
    }

    /// Discards everything queued.
    pub fn clear(&mut self)
        ensures
            final(self).wf(),
            final(self)@ == Seq::<Unit>::empty(),
    {
        self.units.clear();
        self.bytes = 0;
    }
}

/// A call has taken all it will once `data` stands before the limit, the
/// end of the queue or a marker.
proof fn lemma_taken_len(units: Seq<Unit>, data: Seq<u8>, max: nat)
    requires
        data.len() <= max,
        data.len() <= units.len(),
        units_of(data) == units.subrange(0, data.len() as int),
        data.len() == max || data.len() == units.len() || units[data.len() as int] is RecordEnd,
    ensures
        taken_len(units, max) == data.len(),
        taken_data(units, max) == data,
{
    let tail = units.subrange(data.len() as int, units.len() as int);
    assert forall|i: int| 0 <= i < data.len() implies #[trigger] units[i] == Unit::Byte(
        data[i],
    ) by {
        assert(units.subrange(0, data.len() as int)[i] == units_of(data)[i]);
    }
    lemma_leading_run_after_bytes(units, data.len());
    if data.len() < units.len() {
        assert(tail[0] == units[data.len() as int]);
    }
    assert(taken_data(units, max) =~= data);
}

} // verus!
