//! The bounded, drop-oldest queue of display-ready records shared between
//! the acquisition worker and the polling consumer.
//!
//! `publish` appends one record, evicting the single oldest record when
//! the queue is at capacity; `drain` yields the whole queue in FIFO order
//! and empties it, so no record is ever delivered twice.  The callers'
//! mutual exclusion (one lock per operation) is the embedding program's
//! concern; each operation here is a minimal critical section.

use vstd::prelude::*;

verus! {

/// The capacity the embedding program uses unless configured otherwise.
pub const DEFAULT_SINK_CAPACITY: usize = 1024;

/// What one `publish` leaves in the queue: drop-oldest on overflow.
pub open spec fn publish_one(buf: Seq<Seq<char>>, cap: usize, r: Seq<char>) -> Seq<Seq<char>> {
    if buf.len() >= cap && buf.len() >= 1 {
        buf.skip(1).push(r)
    } else {
        buf.push(r)
    }
}

/// What publishing a whole sequence of records, in order, leaves in the
/// queue.
pub open spec fn publish_seq(buf: Seq<Seq<char>>, cap: usize, rs: Seq<Seq<char>>) -> Seq<
    Seq<char>,
>
    decreases rs.len(),
{
    if rs.len() == 0 {
        buf
    } else {
        publish_seq(publish_one(buf, cap, rs[0]), cap, rs.skip(1))
    }
}

/// A queue that respects its capacity keeps respecting it: publishing
/// into a full queue evicts exactly as much as it appends.
pub proof fn lemma_publish_stays_bounded(buf: Seq<Seq<char>>, cap: usize, r: Seq<char>)
    requires
        cap >= 1,
        buf.len() <= cap,
    ensures
        publish_one(buf, cap, r).len() <= cap,
        buf.len() == cap ==> publish_one(buf, cap, r) == buf.skip(1).push(r),
        buf.len() < cap ==> publish_one(buf, cap, r) == buf.push(r),
{
}

/// Append-only, capacity-bounded, drop-oldest queue of rendered records.
pub struct SampleSink {
    records: Vec<String>,
    capacity: usize,
}

impl SampleSink {
    /// The queued records, oldest first.
    pub closed spec fn contents(&self) -> Seq<Seq<char>> {
        self.records.deep_view()
    }

    /// The fixed capacity bound.
    pub closed spec fn cap(&self) -> usize {
        self.capacity
    }

    /// An empty queue bounded at `capacity` records.
    pub fn new(capacity: usize) -> (r: Self)
        ensures
            r.contents() == Seq::<Seq<char>>::empty(),
            r.cap() == capacity,
    {
        let r = SampleSink { records: Vec::new(), capacity };
        proof {
            assert(r.records.deep_view() =~= Seq::<Seq<char>>::empty());
        }
        r
    }

    /// Appends one record; at capacity, the single oldest record is
    /// evicted first.
    pub fn publish(&mut self, record: String)
        ensures
            final(self).cap() == old(self).cap(),
            final(self).contents() == publish_one(
                old(self).contents(),
                old(self).cap(),
                record@,
            ),
    {
        let ghost pre = self.records.deep_view();
        if self.records.len() >= self.capacity && self.records.len() >= 1 {
            let ghost before = self.records@;
            self.records.remove(0);
            proof {
                assert(self.records.deep_view() =~= pre.skip(1));
            }
        }
        let ghost mid = self.records.deep_view();
        self.records.push(record);
        proof {
            assert(self.records.deep_view() =~= mid.push(record@));
        }
    }

    /// Yields the whole queue in FIFO order and atomically empties it; a
    /// drain with nothing new returns an empty sequence, never an error.
    pub fn drain(&mut self) -> (r: Vec<String>)
        ensures
            final(self).cap() == old(self).cap(),
            r.deep_view() == old(self).contents(),
            final(self).contents() == Seq::<Seq<char>>::empty(),
    {
        let mut out: Vec<String> = Vec::new();
        core::mem::swap(&mut out, &mut self.records);
        proof {
            assert(self.records.deep_view() =~= Seq::<Seq<char>>::empty());
        }
        out
    }

    /// How many records are queued.
    pub fn len(&self) -> (r: usize)
        ensures
            r == self.contents().len(),
    {
        self.records.len()
    }
}

} // verus!
