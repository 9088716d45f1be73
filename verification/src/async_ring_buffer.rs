//! The state of a fixed-capacity single-producer single-consumer ring buffer
//! of bytes, and the decisions that its writer and reader take on it.
//!
//! Each step answers what the asynchronous writer or reader does next: the
//! bytes it moved, or that it has to wait (and wake the other side), or that
//! the other side has gone away.
use crate::fixed_buffer::{copy_bytes, FixedBuffer};
use vstd::prelude::*;

verus! {

/// Position `i` places after `start` in a ring of `capacity` slots, for
/// `start` and `i` below `capacity`.
pub open spec fn slot(start: int, i: int, capacity: int) -> int {
    if start + i < capacity {
        start + i
    } else {
        start + i - capacity
    }
}

/// The smaller of `a` and `b`.
pub open spec fn min_nat(a: nat, b: nat) -> nat {
    if a < b {
        a
    } else {
        b
    }
}

/// What a ring buffer holds: its capacity, the slot its reader takes the next
/// byte from, the bytes written and not yet read, oldest first, and whether
/// each side has shut down.
pub struct RingView {
    pub capacity: nat,
    pub head: nat,
    pub queued: Seq<u8>,
    pub read_closed: bool,
    pub write_closed: bool,
    /// Every byte the writer has had queued, in order.
    pub sent: Seq<u8>,
    /// Every byte the reader has taken, in order.
    pub received: Seq<u8>,
}

impl RingView {
    /// No more bytes are queued than the ring holds, the reader's slot lies in
    /// the ring, and what the reader has taken followed by what is queued is
    /// what the writer has sent.
    pub open spec fn coherent(self) -> bool {
        &&& self.received + self.queued == self.sent
        &&& self.queued.len() <= self.capacity
        &&& if self.capacity == 0 {
            self.head == 0
        } else {
            self.head < self.capacity
        }
    }

    /// Room left for the writer.
    pub open spec fn free(self) -> nat {
        (self.capacity - self.queued.len()) as nat
    }

    /// How many bytes of `bytes` a write takes: as many as there is room for.
    pub open spec fn write_count(self, bytes: Seq<u8>) -> nat {
        min_nat(bytes.len(), self.free())
    }

    /// The ring after the writer adds what it takes of `bytes`.
    pub open spec fn after_write(self, bytes: Seq<u8>) -> RingView {
        let taken = bytes.take(self.write_count(bytes) as int);
        RingView { queued: self.queued + taken, sent: self.sent + taken, ..self }
    }

    /// How many bytes a read into room for `room` bytes takes.
    pub open spec fn read_count(self, room: nat) -> nat {
        min_nat(room, self.queued.len())
    }

    /// The ring after the reader takes the oldest `n` bytes.
    pub open spec fn after_read(self, n: nat) -> RingView {
        RingView {
            head: slot(self.head as int, n as int, self.capacity as int) as nat,
            queued: self.queued.skip(n as int),
            received: self.received + self.queued.take(n as int),
            ..self
        }
    }

    /// How many of the queued bytes lie in one piece from the reader's slot
    /// on, before the end of the ring.
    pub open spec fn contiguous(self) -> nat {
        if self.head + self.queued.len() < self.capacity {
            self.queued.len()
        } else {
            (self.capacity - self.head) as nat
        }
    }
}

/// Bytes come out in the order they went in: from an empty ring, a write that
/// fits and a read with room for it all hand over exactly the written bytes
/// and leave the ring empty.
pub proof fn lemma_round_trip(ring: RingView, bytes: Seq<u8>, room: nat)
    requires
        ring.coherent(),
        ring.queued.len() == 0,
        bytes.len() <= ring.capacity,
        bytes.len() <= room,
    ensures
        ring.write_count(bytes) == bytes.len(),
        ring.after_write(bytes).read_count(room) == bytes.len(),
        ring.after_write(bytes).queued.take(bytes.len() as int) == bytes,
        ring.after_write(bytes).after_read(bytes.len()).queued.len() == 0,
{
    assert(ring.after_write(bytes).queued =~= bytes);
    assert(ring.after_write(bytes).queued.take(bytes.len() as int) =~= bytes);
}

/// Nothing is lost or doubled: what a read hands over, followed by what stays
/// queued, is what was queued; and a later write queues its bytes behind the rest.
pub proof fn lemma_read_then_write(ring: RingView, room: nat, bytes: Seq<u8>)
    requires
        ring.coherent(),
    ensures
        ({
            let n = ring.read_count(room);
            &&& ring.queued.take(n as int) + ring.after_read(n).queued == ring.queued
            &&& ring.after_read(n).after_write(bytes).queued == ring.queued.skip(n as int)
                + bytes.take(ring.after_read(n).write_count(bytes) as int)
        }),
{
    let n = ring.read_count(room);
    assert(ring.queued.take(n as int) + ring.after_read(n).queued =~= ring.queued);
}

/// Every step keeps the ring coherent: within its capacity, its reader's slot
/// within the ring, and what was taken followed by what is queued equal to what was sent.
pub proof fn lemma_steps_stay_coherent(ring: RingView, bytes: Seq<u8>, n: nat)
    requires
        ring.coherent(),
        n <= ring.queued.len(),
    ensures
        ring.after_write(bytes).coherent(),
        ring.after_read(n).coherent(),
{
    let taken = bytes.take(ring.write_count(bytes) as int);
    assert(ring.received + (ring.queued + taken) =~= (ring.received + ring.queued) + taken);
    assert((ring.received + ring.queued.take(n as int)) + ring.queued.skip(n as int)
        =~= ring.received + ring.queued);
}

/// Steps make progress: a write with room left takes at least one byte of a
/// non-empty offer, a read with room takes at least one queued byte, and the
/// queued bytes in one piece are not empty while anything is queued.
pub proof fn lemma_progress(ring: RingView, bytes: Seq<u8>, room: nat)
    requires
        ring.coherent(),
    ensures
        ring.free() > 0 && bytes.len() > 0 ==> ring.write_count(bytes) > 0,
        ring.queued.len() > 0 && room > 0 ==> ring.read_count(room) > 0,
        ring.queued.len() > 0 ==> 0 < ring.contiguous() <= ring.queued.len(),
{
}

/// A write takes as much as it can: every offered byte when they fit in the
/// free room, and otherwise exactly enough to fill the ring; what it takes is
/// the front of the offer, queued behind what was there.
pub proof fn lemma_write_takes_all_that_fits(ring: RingView, bytes: Seq<u8>)
    requires
        ring.coherent(),
    ensures
        ({
            let after = ring.after_write(bytes);
            let n = after.queued.len() - ring.queued.len();
            &&& 0 <= n <= bytes.len()
            &&& after.queued == ring.queued + bytes.take(n)
            &&& bytes.len() <= ring.capacity - ring.queued.len() ==> after.queued == ring.queued
                + bytes
            &&& bytes.len() > ring.capacity - ring.queued.len() ==> after.queued.len()
                == ring.capacity
            &&& ring.write_count(bytes) == n
        }),
{
    assert(bytes.take(bytes.len() as int) =~= bytes);
}

/// A read takes as much as it can: every queued byte when there is room for
/// them all, and otherwise exactly as many as there is room for, oldest first.
pub proof fn lemma_read_takes_all_it_has_room_for(ring: RingView, room: nat)
    requires
        ring.coherent(),
    ensures
        ({
            let n = ring.read_count(room);
            let after = ring.after_read(n);
            &&& ring.queued.take(n as int) + after.queued == ring.queued
            &&& room >= ring.queued.len() ==> n == ring.queued.len() && after.queued.len() == 0
            &&& room < ring.queued.len() ==> n == room
        }),
{
    let n = ring.read_count(room);
    assert(ring.queued.take(n as int) + ring.after_read(n).queued =~= ring.queued);
}

/// The queued bytes that lie in one piece run from the reader's slot either
/// to the newest queued byte, when the queue does not reach the end of the
/// ring, or exactly to the end of the ring.
pub proof fn lemma_contiguous_runs_to_queue_or_ring_end(ring: RingView)
    requires
        ring.coherent(),
        ring.queued.len() > 0,
    ensures
        ring.contiguous() <= ring.queued.len(),
        ring.head + ring.contiguous() <= ring.capacity,
        ring.head + ring.queued.len() <= ring.capacity ==> ring.contiguous() == ring.queued.len(),
        ring.head + ring.queued.len() > ring.capacity ==> ring.head + ring.contiguous()
            == ring.capacity,
{
}

/// What the writer does after offering bytes to the ring.
#[derive(Debug, PartialEq, Eq)]
pub enum WriteStep {
    /// The writer has shut down: the write fails ("write on ring buffer was closed").
    WriteClosed,
    /// The reader has shut down: the write fails ("write on read was closed").
    ReadClosed,
    /// The ring is full: wake the reader and wait.
    Pending,
    /// This many bytes were taken: wake the reader.
    Ready(usize),
}

/// What the reader does after asking the ring for bytes.
#[derive(Debug, PartialEq, Eq)]
pub enum ReadStep {
    /// Nothing is queued and the writer may still write: wake the writer and wait.
    Pending,
    /// This many bytes were handed over; none at all and a shut writer means
    /// the end of the stream.
    Ready(usize),
}

/// What the reader gets when it asks for the queued bytes without taking them.
#[derive(Debug, PartialEq, Eq)]
pub enum FillStep<'a> {
    /// Nothing is queued and the writer may still write: wake the writer and wait.
    Pending,
    /// The queued bytes that lie in one piece; empty at the end of the stream.
    Ready(&'a [u8]),
}

/// A fixed-capacity ring of bytes over a `FixedBuffer`, whose data length
/// is the ring's capacity.
pub struct RingBuffer {
    buffer: FixedBuffer,
    valid_data: usize,
    write_pos: usize,
    read_pos: usize,
    read_shutdown: bool,
    write_shutdown: bool,
    sent: Ghost<Seq<u8>>,
    received: Ghost<Seq<u8>>,
}

impl View for RingBuffer {
    type V = RingView;

    closed spec fn view(&self) -> RingView {
        let capacity = self.buffer@.len;
        let block = self.buffer@.block;
        RingView {
            capacity,
            head: self.read_pos as nat,
            queued: Seq::new(
                self.valid_data as nat,
                |i: int| block[slot(self.read_pos as int, i, capacity as int)],
            ),
            read_closed: self.read_shutdown,
            write_closed: self.write_shutdown,
            sent: self.sent@,
            received: self.received@,
        }
    }
}

impl RingBuffer {
    /// The positions agree with the number of queued bytes and all lie in the
    /// ring, and what was taken followed by what is queued is what was sent.
    pub closed spec fn wf(&self) -> bool {
        let capacity = self.buffer@.len;
        &&& self.buffer.wf()
        &&& self.received@ + self@.queued == self.sent@
        &&& self.valid_data <= capacity
        &&& capacity == 0 ==> self.read_pos == 0 && self.write_pos == 0
        &&& capacity > 0 ==> {
            &&& self.read_pos < capacity
            &&& self.write_pos == slot(self.read_pos as int, self.valid_data as int, capacity as int)
        }
    }

    /// In every state, what the reader has taken followed by what is queued
    /// is what the writer has sent, and the queue fits in the ring.
    pub proof fn lemma_stream_order(&self)
        requires
            self.wf(),
        ensures
            self@.coherent(),
            self@.received + self@.queued == self@.sent,
    {
    }

    /// An empty ring of `capacity` bytes over a new memory block.
    pub fn new(capacity: usize) -> (ring: RingBuffer)
        requires
            capacity <= isize::MAX,
        ensures
            ring.wf(),
            ring@ == (RingView {
                capacity: capacity as nat,
                head: 0,
                queued: Seq::empty(),
                read_closed: false,
                write_closed: false,
                sent: Seq::empty(),
                received: Seq::empty(),
            }),
    {
        let mut buffer = FixedBuffer::allocate(capacity);
        buffer.resize(capacity);
        let ring = RingBuffer {
            buffer,
            valid_data: 0,
            write_pos: 0,
            read_pos: 0,
            read_shutdown: false,
            write_shutdown: false,
            sent: Ghost(Seq::empty()),
            received: Ghost(Seq::empty()),
        };
        assert(ring@.queued =~= Seq::empty());
        ring
    }

    /// An empty ring over `buffer`, as many bytes long as the buffer's data.
    pub fn from_fixed_buffer(buffer: FixedBuffer) -> (ring: RingBuffer)
        requires
            buffer.wf(),
        ensures
            ring.wf(),
            ring@ == (RingView {
                capacity: buffer@.len,
                head: 0,
                queued: Seq::empty(),
                read_closed: false,
                write_closed: false,
                sent: Seq::empty(),
                received: Seq::empty(),
            }),
    {
        let ring = RingBuffer {
            buffer,
            valid_data: 0,
            write_pos: 0,
            read_pos: 0,
            read_shutdown: false,
            write_shutdown: false,
            sent: Ghost(Seq::empty()),
            received: Ghost(Seq::empty()),
        };
        assert(ring@.queued =~= Seq::empty());
        ring
    }

    /// The writer offers `src`: it fails if either side has shut down, waits
    /// if the ring is full, and otherwise queues as many bytes of `src` as
    /// there is room for.
    pub fn poll_write(&mut self, src: &[u8]) -> (step: WriteStep)
        requires
            old(self).wf(),
        ensures
            final(self).wf(),
            final(self)@.coherent(),
            old(self)@.write_closed ==> step is WriteClosed && final(self)@ == old(self)@,
            !old(self)@.write_closed && old(self)@.read_closed ==> step is ReadClosed
                && final(self)@ == old(self)@,
            !old(self)@.write_closed && !old(self)@.read_closed && old(self)@.free() == 0
                ==> step is Pending && final(self)@ == old(self)@,
            !old(self)@.write_closed && !old(self)@.read_closed && old(self)@.free() > 0 ==> step
                == WriteStep::Ready(old(self)@.write_count(src@) as usize) && final(self)@
                == old(self)@.after_write(src@),
            !old(self)@.write_closed && !old(self)@.read_closed && old(self)@.queued.len()
                < old(self)@.capacity ==> {
                let room = old(self)@.capacity - old(self)@.queued.len();
                let n = if src@.len() <= room {
                    src@.len() as int
                } else {
                    room
                };
                &&& step == WriteStep::Ready(n as usize)
                &&& final(self)@.queued == old(self)@.queued + src@.take(n)
            },
    {
        if self.write_shutdown {
            return WriteStep::WriteClosed;
        }
        if self.read_shutdown {
            return WriteStep::ReadClosed;
        }
        let capacity = self.buffer.len();
        let valid = self.valid_data;
        if valid == capacity {
            return WriteStep::Pending;
        }
        let ghost queued = self@.queued;
        let ghost block0 = self.buffer@.block;
        proof {
            self.buffer.lemma_len_within_capacity();
        }
        let write_pos = self.write_pos;
        let total = if src.len() < capacity - valid {
            src.len()
        } else {
            capacity - valid
        };
        if total < capacity - write_pos {
            let _ = self.buffer.write_at(src, total, write_pos);
            self.write_pos = write_pos + total;
        } else {
            let distance_end = capacity - write_pos;
            let remaining = total - distance_end;
            let _ = self.buffer.write_at(src, distance_end, write_pos);
            let rest = vstd::slice::slice_subrange(src, distance_end, total);
            let _ = self.buffer.write_at(rest, remaining, 0);
            self.write_pos = remaining;
        }
        self.valid_data = valid + total;
        self.sent = Ghost(self.sent@ + src@.take(total as int));
        let ghost received = self.received@;
        let ghost rp = self.read_pos as int;
        let ghost block1 = self.buffer@.block;
        assert forall|i: int| 0 <= i < valid implies #[trigger] block1[slot(rp, i, capacity as int)]
            == block0[slot(rp, i, capacity as int)] by {}
        assert forall|i: int| valid <= i < valid + total implies #[trigger] block1[slot(
            rp,
            i,
            capacity as int,
        )] == src@[i - valid] by {}
        assert(self@.queued =~= queued + src@.take(total as int));
        assert(received + (queued + src@.take(total as int)) =~= (received + queued) + src@.take(
            total as int,
        ));
        WriteStep::Ready(total)
    }

    /// The reader asks for up to `dst.len()` bytes: it waits if nothing is
    /// queued and the writer is still there, gets none at the end of the
    /// stream, and otherwise takes the oldest bytes into the start of `dst`.
    pub fn poll_read(&mut self, dst: &mut [u8]) -> (step: ReadStep)
        requires
            old(self).wf(),
        ensures
            final(self).wf(),
            final(self)@.coherent(),
            old(self)@.queued.len() == 0 && !old(self)@.write_closed ==> step is Pending
                && final(self)@ == old(self)@ && final(dst)@ == old(dst)@,
            old(self)@.queued.len() == 0 && old(self)@.write_closed ==> step == ReadStep::Ready(0)
                && final(self)@ == old(self)@ && final(dst)@ == old(dst)@,
            old(self)@.queued.len() > 0 ==> {
                let n = old(self)@.read_count(old(dst)@.len());
                &&& step == ReadStep::Ready(n as usize)
                &&& final(self)@ == old(self)@.after_read(n)
                &&& final(dst)@ == old(self)@.queued.take(n as int) + old(dst)@.skip(n as int)
            },
            old(self)@.queued.len() > 0 ==> {
                let n = if old(dst)@.len() <= old(self)@.queued.len() {
                    old(dst)@.len() as int
                } else {
                    old(self)@.queued.len() as int
                };
                &&& step == ReadStep::Ready(n as usize)
                &&& final(dst)@.take(n) == old(self)@.queued.take(n)
                &&& final(dst)@.skip(n) == old(dst)@.skip(n)
                &&& final(self)@.queued == old(self)@.queued.skip(n)
            },
    {
        let valid = self.valid_data;
        if valid == 0 {
            if self.write_shutdown {
                return ReadStep::Ready(0);
            }
            return ReadStep::Pending;
        }
        let ghost queued = self@.queued;
        let ghost dst_before = dst@;
        proof {
            self.buffer.lemma_len_within_capacity();
        }
        let read_pos = self.read_pos;
        let capacity = self.buffer.len();
        let total = if dst.len() < valid {
            dst.len()
        } else {
            valid
        };
        let block = self.buffer.raw_data();
        if total < capacity - read_pos {
            copy_bytes(dst, 0, block, read_pos, total);
            self.read_pos = read_pos + total;
        } else {
            let distance_end = capacity - read_pos;
            let remaining = total - distance_end;
            copy_bytes(dst, 0, block, read_pos, distance_end);
            copy_bytes(dst, distance_end, block, 0, remaining);
            self.read_pos = remaining;
        }
        self.valid_data = valid - total;
        self.received = Ghost(self.received@ + queued.take(total as int));
        assert(dst@ =~= queued.take(total as int) + dst_before.skip(total as int));
        assert(self@.queued =~= queued.skip(total as int));
        assert(self.received@ + self@.queued =~= self.sent@);
        ReadStep::Ready(total)
    }

    /// The reader looks at what is queued without taking it: it waits if
    /// nothing is queued and the writer is still there, and otherwise gets the
    /// queued bytes that lie in one piece from its slot on (none at the end of
    /// the stream).
    pub fn poll_fill_buf(&self) -> (step: FillStep<'_>)
        requires
            self.wf(),
        ensures
            step is Pending <==> self@.queued.len() == 0 && !self@.write_closed,
            step matches FillStep::Ready(bytes) ==> bytes@ == self@.queued.take(
                self@.contiguous() as int,
            ),
            step matches FillStep::Ready(bytes) ==> {
                let to_end = self@.capacity - self@.head;
                &&& bytes@.len() == if self@.queued.len() <= to_end {
                    self@.queued.len() as int
                } else {
                    to_end
                }
                &&& bytes@ == self@.queued.take(bytes@.len() as int)
            },
    {
        proof {
            self.buffer.lemma_len_within_capacity();
        }
        let valid = self.valid_data;
        let block = self.buffer.raw_data();
        if valid == 0 {
            if self.write_shutdown {
                assert(self@.queued.take(self@.contiguous() as int) =~= Seq::<u8>::empty());
                return FillStep::Ready(vstd::slice::slice_subrange(block, 0, 0));
            }
            return FillStep::Pending;
        }
        let read_pos = self.read_pos;
        let capacity = self.buffer.len();
        let end = if valid < capacity - read_pos {
            read_pos + valid
        } else {
            capacity
        };
        let bytes = vstd::slice::slice_subrange(block, read_pos, end);
        assert(bytes@ =~= self@.queued.take(self@.contiguous() as int));
        FillStep::Ready(bytes)
    }

    /// The reader drops the oldest `amt` queued bytes, at most as many as are queued.
    pub fn consume(&mut self, amt: usize)
        requires
            old(self).wf(),
            amt <= old(self)@.queued.len(),
        ensures
            final(self).wf(),
            final(self)@.coherent(),
            final(self)@ == old(self)@.after_read(amt as nat),
    {
        let ghost queued = self@.queued;
        let read_pos = self.read_pos;
        let capacity = self.buffer.len();
        if amt < capacity - read_pos {
            self.read_pos = read_pos + amt;
        } else if amt == capacity - read_pos {
            self.read_pos = 0;
        } else {
            self.read_pos = amt - (capacity - read_pos);
        }
        self.valid_data = self.valid_data - amt;
        self.received = Ghost(self.received@ + queued.take(amt as int));
        assert(self@.queued =~= queued.skip(amt as int));
        assert(self.received@ + self@.queued =~= self.sent@);
    }

    /// How many bytes are queued.
    pub fn queued_len(&self) -> (n: usize)
        ensures
            n == self@.queued.len(),
    {
        self.valid_data
    }

    /// The writer shuts down: the reader gets the end of the stream once it has
    /// taken what is queued.
    pub fn close_write(&mut self)
        requires
            old(self).wf(),
        ensures
            final(self).wf(),
            final(self)@ == (RingView { write_closed: true, ..old(self)@ }),
    {
        self.write_shutdown = true;
    }

    /// The reader shuts down: later writes fail.
    pub fn close_read(&mut self)
        requires
            old(self).wf(),
        ensures
            final(self).wf(),
            final(self)@ == (RingView { read_closed: true, ..old(self)@ }),
    {
        self.read_shutdown = true;
    }
}

} // verus!
