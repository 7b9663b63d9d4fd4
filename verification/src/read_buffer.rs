//! Adapter between a batch-oriented producer and a poll-based reader: a
//! bounded target buffer, and a tail store for the bytes of a batch that the
//! target could not take yet.

use vstd::prelude::*;

verus! {

/// Outcome of offering a batch to the target: `Pending` means no data was
/// available (distinct from end of stream); `Ready` means bytes were copied.
#[derive(PartialEq, Eq, Structural, Clone, Copy, Debug)]
pub enum PollStatus {
    Pending,
    Ready,
}

/// The consumer's read destination: a bounded buffer that can take at most
/// `capacity` bytes in all, filled front to back.
pub struct ReadTarget {
    filled: Vec<u8>,
    capacity: usize,
}

impl ReadTarget {
    /// The bytes copied into the target so far, in order.
    pub closed spec fn filled(&self) -> Seq<u8> {
        self.filled@
    }

    /// The fixed number of bytes the target can take in all.
    pub closed spec fn capacity(&self) -> int {
        self.capacity as int
    }

    /// A target never holds more than its capacity.
    pub open spec fn wf(&self) -> bool {
        self.filled().len() <= self.capacity()
    }

    pub fn new(capacity: usize) -> (t: Self)
        ensures
            t.wf(),
            t.filled() == Seq::<u8>::empty(),
            t.capacity() == capacity,
    {
        ReadTarget { filled: Vec::new(), capacity }
    }

    /// How many more bytes the target can take.
    pub fn remaining(&self) -> (r: usize)
        requires
            self.wf(),
        ensures
            r == self.capacity() - self.filled().len(),
    {
        self.capacity - self.filled.len()
    }

    /// The bytes copied so far, surrendered to the caller.
    pub fn into_filled(self) -> (r: Vec<u8>)
        ensures
            r@ == self.filled(),
    {
        self.filled
    }

    /// Appends `bytes[start..end]` to the target.
    fn put_range(&mut self, bytes: &Vec<u8>, start: usize, end: usize)
        requires
            old(self).wf(),
            start <= end <= bytes@.len(),
            end - start <= old(self).capacity() - old(self).filled().len(),
        ensures
            final(self).wf(),
            final(self).capacity() == old(self).capacity(),
            final(self).filled() == old(self).filled() + bytes@.subrange(
                start as int,
                end as int,
            ),
    {
        let mut i: usize = start;
        while i < end
            invariant
                start <= i <= end <= bytes@.len(),
                end - start <= old(self).capacity() - old(self).filled().len(),
                self.capacity == old(self).capacity(),
                self.filled@ == old(self).filled() + bytes@.subrange(start as int, i as int),
                self.filled@.len() <= self.capacity,
            decreases end - i,
        {
            self.filled.push(bytes[i]);
            proof {
                assert(self.filled@ == old(self).filled() + bytes@.subrange(
                    start as int,
                    i + 1,
                )) by {
                    assert(bytes@.subrange(start as int, i + 1) == bytes@.subrange(
                        start as int,
                        i as int,
                    ).push(bytes@[i as int]));
                }
            }
            i = i + 1;
        }
        proof {
            assert(self.filled@ == old(self).filled() + bytes@.subrange(start as int, end as int));
        }
    }
}

/// How many bytes one `put_data` call copies into a target with `cap` bytes
/// of room, out of a batch of `len` bytes of which `start` are already
/// delivered: the rest of the batch, or as much of it as fits.
pub open spec fn fill_amount(cap: int, len: int, start: int) -> int {
    if cap < len - start {
        cap
    } else {
        len - start
    }
}

/// Buffering adapter used when a future-returning producer is exposed
/// through a poll-based read interface: stores the bytes of the most recent
/// batch that the consumer's target had no room for, together with the
/// offset of the first undelivered byte.
pub struct ReadBuffer {
    tail: Option<(Vec<u8>, usize)>,
}

impl ReadBuffer {
    /// The stored tail, if any: the batch and the offset of the first byte
    /// not yet delivered.
    pub closed spec fn tail(&self) -> Option<(Seq<u8>, int)> {
        match self.tail {
            Some((ref bytes, offset)) => Some((bytes@, offset as int)),
            None => None,
        }
    }

    /// A stored tail always has at least one undelivered byte: a batch that
    /// is empty or fully consumed is cleared instead of stored.
    pub open spec fn wf(&self) -> bool {
        match self.tail() {
            Some((bytes, offset)) => 0 <= offset < bytes.len(),
            None => true,
        }
    }

    pub fn new() -> (b: Self)
        ensures
            b.wf(),
            b.tail() is None,
    {
        ReadBuffer { tail: None }
    }

    /// Removes and returns any data stored in the read buffer.
    pub fn take_data(&mut self) -> (r: Option<(Vec<u8>, usize)>)
        ensures
            final(self).tail() is None,
            final(self).wf(),
            match r {
                Some((bytes, offset)) => old(self).tail() == Some((bytes@, offset as int)),
                None => old(self).tail() is None,
            },
    {
        self.tail.take()
    }

    /// Writes as many undelivered batch bytes as fit into the target,
    /// stashing any extra. An empty batch clears the store and returns
    /// `Pending`: nothing was written, and signalling readiness on an empty
    /// target would read as end of stream. Otherwise `bytes[start..]` is
    /// delivered as far as the target's room allows, the undelivered rest
    /// (if any) is stored with its new offset, and the call returns `Ready`.
    pub fn put_data(&mut self, target: &mut ReadTarget, bytes: Vec<u8>, start: usize) -> (r:
        PollStatus)
        requires
            old(self).wf(),
            old(target).wf(),
            start <= bytes@.len(),
        ensures
            final(self).wf(),
            final(target).wf(),
            final(target).capacity() == old(target).capacity(),
            bytes@.len() == 0 ==> {
                &&& r is Pending
                &&& final(self).tail() is None
                &&& final(target).filled() == old(target).filled()
            },
            bytes@.len() > 0 ==> {
                let room = old(target).capacity() - old(target).filled().len();
                let copied = fill_amount(room, bytes@.len() as int, start as int);
                &&& r is Ready
                &&& final(target).filled() == old(target).filled() + bytes@.subrange(
                    start as int,
                    start + copied,
                )
                &&& (if start + copied == bytes@.len() {
                    final(self).tail() is None
                } else {
                    final(self).tail() == Some((bytes@, start + copied))
                })
            },
    {
        if bytes.len() == 0 {
            self.tail = None;
            return PollStatus::Pending;
        }
        let room = target.remaining();
        if room >= bytes.len() - start {
            let end = bytes.len();
            target.put_range(&bytes, start, end);
            self.tail = None;
        } else {
            let end = start + room;
            target.put_range(&bytes, start, end);
            self.tail = Some((bytes, end));
        }
        PollStatus::Ready
    }
}

impl Default for ReadBuffer {
    fn default() -> (b: Self)
        ensures
            b.wf(),
            b.tail() is None,
    {
        ReadBuffer { tail: None }
    }
}

/// The combined room of a sequence of targets.
pub open spec fn total_room(caps: Seq<int>) -> int
    decreases caps.len(),
{
    if caps.len() == 0 {
        0
    } else {
        caps[0] + total_room(caps.skip(1))
    }
}

/// Targets have no negative room, so neither does any sequence of them.
pub proof fn lemma_total_room_nonneg(caps: Seq<int>)
    requires
        forall|j: int| 0 <= j < caps.len() ==> caps[j] >= 0,
    ensures
        total_room(caps) >= 0,
    decreases caps.len(),
{
    if caps.len() > 0 {
        assert(forall|j: int| 0 <= j < caps.skip(1).len() ==> caps.skip(1)[j] >= 0);
        lemma_total_room_nonneg(caps.skip(1));
    }
}

/// The bytes delivered when a batch whose first `start` bytes are already
/// delivered is drained by repeated `put_data` calls, the successive targets
/// having room `caps[0]`, `caps[1]`, and so on: each call takes as much of
/// the rest of the batch as its target has room for.
pub open spec fn delivered_bytes(batch: Seq<u8>, caps: Seq<int>, start: int) -> Seq<u8>
    decreases caps.len(),
{
    if caps.len() == 0 || !(0 <= start < batch.len()) {
        Seq::empty()
    } else {
        let copied = fill_amount(caps[0], batch.len() as int, start);
        batch.subrange(start, start + copied) + delivered_bytes(
            batch,
            caps.skip(1),
            start + copied,
        )
    }
}

/// Repeated `put_data` calls deliver every undelivered byte of a batch
/// exactly once and in the original order, however the consumer varies its
/// targets' capacities between calls: as soon as the targets' combined room
/// covers the rest of the batch, the delivered bytes are exactly
/// `batch[start..]`.
pub proof fn lemma_fill_delivers_all(batch: Seq<u8>, caps: Seq<int>, start: int)
    requires
        0 <= start <= batch.len(),
        forall|j: int| 0 <= j < caps.len() ==> caps[j] >= 0,
        total_room(caps) >= batch.len() - start,
    ensures
        delivered_bytes(batch, caps, start) == batch.subrange(start, batch.len() as int),
    decreases caps.len(),
{
    if start == batch.len() {
        assert(delivered_bytes(batch, caps, start) =~= batch.subrange(start, batch.len() as int));
    } else {
        let copied = fill_amount(caps[0], batch.len() as int, start);
        assert(forall|j: int| 0 <= j < caps.skip(1).len() ==> caps.skip(1)[j] >= 0);
        assert(total_room(caps) == caps[0] + total_room(caps.skip(1)));
        lemma_total_room_nonneg(caps.skip(1));
        lemma_fill_delivers_all(batch, caps.skip(1), start + copied);
        assert(batch.subrange(start, start + copied) + batch.subrange(
            start + copied,
            batch.len() as int,
        ) =~= batch.subrange(start, batch.len() as int));
    }
}

} // verus!

