use vstd::prelude::*;

verus! {

/// How an insertion into a window went.
#[derive(Debug, Clone, Copy, PartialEq, Eq, Structural)]
pub enum WindowResult {
    /// The window is filled from its start to its end.
    Completed,
    /// The bytes went in; the window is not complete yet.
    Inserted,
    /// The sequence number lies outside the window.
    Failed,
}

/// The outcome of an insertion: how it went, and how many bytes the window
/// holds in one run from its start.
#[derive(Debug, Clone, Copy, PartialEq, Eq, Structural)]
pub struct InsertResult {
    pub result: WindowResult,
    pub length: usize,
}

/// What is known of one position of the window: whether a run of received
/// bytes starts there, and how long it is.
#[derive(Debug, Clone, Copy, PartialEq, Eq, Structural)]
pub struct Segment {
    pub available: bool,
    pub length: usize,
}

/// A fixed window of a byte stream that fills in any order.
pub struct WindowInternal {
    pub data: Vec<u8>,
    pub seq: usize,
    pub recvd: Vec<Segment>,
    pub complete: bool,
    pub size: usize,
}

/// The sum of the run lengths recorded from position `from` on.
pub open spec fn suffix_sum(recvd: Seq<Segment>, from: int) -> nat
    decreases recvd.len() - from,
{
    if from < 0 || from >= recvd.len() {
        0
    } else {
        recvd[from].length as nat + suffix_sum(recvd, from + 1)
    }
}

/// The length of the run from `idx` once every adjacent run after it is
/// joined on: starting from `len`, each received run that begins where the
/// current one ends inside the window is added.
pub open spec fn rolled_length(recvd: Seq<Segment>, idx: int, len: int) -> int
    decreases (if idx + len < recvd.len() { recvd.len() - idx - len } else { 0 }),
{
    if 0 <= idx && 0 <= len && idx + len < recvd.len() && recvd[idx + len].available
        && recvd[idx + len].length > 0 {
        rolled_length(recvd, idx, len + recvd[idx + len].length)
    } else {
        len
    }
}

/// A window whose every position is unreceived.
pub open spec fn fresh_recvd(size: nat) -> Seq<Segment> {
    Seq::new(size, |i: int| Segment { available: false, length: 0 })
}

/// Suffix sums only shrink as the start moves on.
proof fn lemma_suffix_sum_monotone(recvd: Seq<Segment>, a: int, b: int)
    requires
        0 <= a <= b,
    ensures
        suffix_sum(recvd, b) <= suffix_sum(recvd, a),
    decreases b - a,
{
    if a < b {
        lemma_suffix_sum_monotone(recvd, a + 1, b);
        if a >= recvd.len() {
        }
    }
}

/// Rolling up from `len` adds no more than the runs recorded from `idx + len`
/// on.
proof fn lemma_rolled_bound(recvd: Seq<Segment>, idx: int, len: int)
    requires
        0 <= idx,
        0 <= len,
    ensures
        len <= rolled_length(recvd, idx, len) <= len + suffix_sum(recvd, idx + len),
    decreases (if idx + len < recvd.len() { recvd.len() - idx - len } else { 0 }),
{
    if idx + len < recvd.len() && recvd[idx + len].available && recvd[idx + len].length > 0 {
        let step = recvd[idx + len].length;
        lemma_rolled_bound(recvd, idx, len + step);
        lemma_suffix_sum_monotone(recvd, idx + len + 1, idx + len + step);
    }
}

/// Changing one entry changes the sum by the difference of the lengths.
proof fn lemma_suffix_sum_update(recvd: Seq<Segment>, from: int, i: int, s: Segment)
    requires
        0 <= from,
        0 <= i < recvd.len(),
    ensures
        suffix_sum(recvd.update(i, s), from) == if from <= i {
            suffix_sum(recvd, from) - recvd[i].length + s.length
        } else {
            suffix_sum(recvd, from) as int
        },
    decreases recvd.len() - from,
{
    if from < recvd.len() {
        lemma_suffix_sum_update(recvd, from + 1, i, s);
    }
}

impl WindowInternal {
    /// The window's vectors have its size, and a run is recorded exactly
    /// where bytes were received.
    pub open spec fn inv(&self) -> bool {
        &&& self.data@.len() == self.size
        &&& self.recvd@.len() == self.size
        &&& forall|i: int|
            0 <= i < self.size ==> (#[trigger] self.recvd@[i]).available == (self.recvd@[i].length
                > 0)
    }

    /// The sum of the recorded run lengths.
    pub open spec fn spec_total(&self) -> nat {
        suffix_sum(self.recvd@, 0)
    }

    /// A window of `size` bytes, nothing received, at sequence number 0.
    pub fn new(size: usize) -> (r: WindowInternal)
        ensures
            r.inv(),
            r.size == size,
            r.seq == 0,
            !r.complete,
            r.data@ == Seq::new(size as nat, |i: int| 0u8),
            r.recvd@ == fresh_recvd(size as nat),
    {
        let mut data: Vec<u8> = Vec::new();
        let mut recvd: Vec<Segment> = Vec::new();
        let mut i: usize = 0;
        while i < size
            invariant
                i <= size,
                data@ == Seq::new(i as nat, |j: int| 0u8),
                recvd@ == fresh_recvd(i as nat),
            decreases size - i,
        {
            data.push(0);
            recvd.push(Segment { available: false, length: 0 });
            i = i + 1;
            proof {
                assert(data@ =~= Seq::new(i as nat, |j: int| 0u8));
                assert(recvd@ =~= fresh_recvd(i as nat));
            }
        }
        WindowInternal { data, seq: 0, recvd, size, complete: false }
    }

    /// Starts the window over at `seq`: nothing received; the bytes stay.
    #[inline]
    pub fn reset(&mut self, seq: usize)
        requires
            old(self).inv(),
        ensures
            final(self).inv(),
            final(self).size == old(self).size,
            final(self).data == old(self).data,
            final(self).seq == seq,
            !final(self).complete,
            final(self).recvd@ == fresh_recvd(old(self).size as nat),
    {
        let mut recvd: Vec<Segment> = Vec::new();
        let mut i: usize = 0;
        while i < self.size
            invariant
                i <= self.size,
                recvd@ == fresh_recvd(i as nat),
            decreases self.size - i,
        {
            recvd.push(Segment { available: false, length: 0 });
            i = i + 1;
            proof {
                assert(recvd@ =~= fresh_recvd(i as nat));
            }
        }
        self.recvd = recvd;
        self.seq = seq;
        self.complete = false;
    }

    /// The offset of `seq` in the window, where it falls inside.
    #[inline]
    pub fn compute_offset(&self, seq: usize) -> (r: Option<usize>)
        requires
            self.seq <= seq,
        ensures
            r == if seq - self.seq < self.size {
                Some((seq - self.seq) as usize)
            } else {
                None::<usize>
            },
    {
        let offset = seq - self.seq;
        if offset < self.size {
            Some(offset)
        } else {
            None
        }
    }

    /// The offset of `seq` from the window's start, inside or not.
    #[inline]
    pub fn compute_offset_unchecked(&self, seq: usize) -> (r: usize)
        requires
            self.seq <= seq,
        ensures
            r == seq - self.seq,
    {
        seq - self.seq
    }

    /// Combine all adjacent data segments.
    #[inline]
    fn roll_up_adjacent(&mut self, idx: usize) -> (r: usize)
        requires
            old(self).inv(),
            idx < old(self).size,
            suffix_sum(old(self).recvd@, idx as int) <= usize::MAX,
        ensures
            final(self).inv(),
            final(self).size == old(self).size,
            final(self).data == old(self).data,
            final(self).seq == old(self).seq,
            final(self).complete == old(self).complete,
            r == rolled_length(old(self).recvd@, idx as int, old(self).recvd@[idx as int].length as int),
            final(self).recvd@ == old(self).recvd@.update(
                idx as int,
                Segment { available: old(self).recvd@[idx as int].available, length: r },
            ),
    {
        let mut len = self.recvd[idx].length;
        let max_len = self.size - idx;
        proof {
            if len > 0 {
                lemma_suffix_sum_monotone(self.recvd@, idx as int + 1, idx + len);
            }
        }
        while len < max_len && self.recvd[idx + len].available
            invariant
                self.inv(),
                self.recvd@ == old(self).recvd@,
                self.size == old(self).size,
                idx < self.size,
                max_len == self.size - idx,
                rolled_length(self.recvd@, idx as int, len as int) == rolled_length(
                    self.recvd@,
                    idx as int,
                    self.recvd@[idx as int].length as int,
                ),
                len >= self.recvd@[idx as int].length,
                len == 0 || len + suffix_sum(self.recvd@, idx + len) <= suffix_sum(
                    self.recvd@,
                    idx as int,
                ),
                suffix_sum(self.recvd@, idx as int) <= usize::MAX,
            decreases (if len < max_len { max_len - len } else { 0 }),
        {
            let next = self.recvd[idx + len].length;
            proof {
                if len == 0 {
                    assert(self.recvd@[idx as int].length == 0);
                    assert(!self.recvd@[idx as int].available);
                }
                lemma_suffix_sum_monotone(self.recvd@, idx + len + 1, idx + len + next);
            }
            len = len + next;
        }
        let ghost old_avail = self.recvd@[idx as int].available;
        let ghost prior = self.recvd@[idx as int];
        let avail = self.recvd[idx].available;
        self.recvd.set(idx, Segment { available: avail, length: len });
        proof {
            if len > prior.length {
                assert(prior.length > 0 || len > 0);
            }
            assert(len > 0 ==> prior.available) by {
                if len > 0 && !prior.available {
                    assert(prior.length == 0);
                    assert(len == 0);
                }
            }
        }
        len
    }

    /// Writes `data` at the position of `seq` (as much as fits before the
    /// window's end), records the run there, and joins the runs from the
    /// window's start.
    #[inline]
    pub fn insert_at_seq(&mut self, seq: usize, data: &[u8]) -> (r: InsertResult)
        requires
            old(self).inv(),
            old(self).seq <= seq,
            0 < data@.len(),
            old(self).spec_total() + data@.len() <= usize::MAX,
        ensures
            final(self).inv(),
            final(self).size == old(self).size,
            final(self).seq == old(self).seq,
            seq - old(self).seq >= old(self).size ==> r == (InsertResult {
                result: WindowResult::Failed,
                length: 0,
            }) && *final(self) == *old(self),
            seq - old(self).seq < old(self).size ==> {
                let offset = seq - old(self).seq;
                let written = if data@.len() < old(self).size - offset {
                    data@.len() as int
                } else {
                    old(self).size - offset
                };
                let marked = old(self).recvd@.update(
                    offset,
                    Segment { available: true, length: (old(self).recvd@[offset].length + written) as usize },
                );
                let len = rolled_length(marked, 0, marked[0].length as int);
                &&& final(self).data@ == old(self).data@.take(offset) + data@.take(written)
                    + old(self).data@.skip(offset + written)
                &&& final(self).recvd@ == marked.update(
                    0,
                    Segment { available: marked[0].available, length: len as usize },
                )
                &&& r.length == len
                &&& final(self).complete == (old(self).complete || len == old(self).size)
                &&& r.result == if len == old(self).size {
                    WindowResult::Completed
                } else {
                    WindowResult::Inserted
                }
            },
    {
        match self.compute_offset(seq) {
            Some(offset) => {
                let room = self.size - offset;
                let write = if data.len() < room {
                    data.len()
                } else {
                    room
                };
                let ghost d0 = self.data@;
                let mut i: usize = 0;
                while i < write
                    invariant
                        self.data@.len() == d0.len(),
                        d0 == old(self).data@,
                        d0.len() == old(self).size,
                        offset + write <= d0.len(),
                        write <= data@.len(),
                        i <= write,
                        self.data@ == d0.take(offset as int) + data@.take(i as int) + d0.skip(
                            offset + i,
                        ),
                        self.recvd == old(self).recvd,
                        self.size == old(self).size,
                        self.seq == old(self).seq,
                        self.complete == old(self).complete,
                    decreases write - i,
                {
                    self.data.set(offset + i, data[i]);
                    i = i + 1;
                    proof {
                        assert(self.data@ =~= d0.take(offset as int) + data@.take(i as int) + d0.skip(
                            offset + i,
                        ));
                    }
                }
                let prior = self.recvd[offset].length;
                proof {
                    lemma_suffix_sum_update(self.recvd@, 0, offset as int, Segment { available: true, length: 0 });
                    assert(suffix_sum(self.recvd@, 0) >= self.recvd@[offset as int].length);
                }
                self.recvd.set(offset, Segment { available: true, length: prior + write });
                proof {
                    lemma_suffix_sum_update(old(self).recvd@, 0, offset as int, self.recvd@[offset as int]);
                }
                let len = self.roll_up_adjacent(0);
                if len == self.size {
                    self.complete = true;
                    InsertResult { result: WindowResult::Completed, length: len }
                } else {
                    InsertResult { result: WindowResult::Inserted, length: len }
                }
            },
            None => InsertResult { result: WindowResult::Failed, length: 0 },
        }
    }
}

} // verus!
