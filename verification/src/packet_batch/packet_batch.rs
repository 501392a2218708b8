//! The base packet batch: an array of message buffers, the unit that is
//! received, processed and sent.
use crate::packet_batch::iterator::{BatchIterator, PacketDescriptor};
use crate::packets::mbuf::{zeros, MBuf, MBUF_BUF_LEN, MBUF_HEADROOM};
use vstd::prelude::*;

verus! {

/// Errors of batch allocation.
#[derive(Debug, Copy, Clone, PartialEq, Eq, Structural)]
pub enum BatchError {
    /// The buffers could not be allocated.
    FailedAllocation,
    /// The buffers could not be freed.
    FailedDeallocation,
}

/// Whether the indices are in strictly increasing order.
pub open spec fn strictly_increasing(s: Seq<usize>) -> bool {
    forall|i: int, j: int| 0 <= i < j < s.len() ==> s[i] < s[j]
}

/// The elements of `s` whose indices are not in `idxes`, in order.
pub open spec fn remove_indices<T>(s: Seq<T>, idxes: Seq<usize>) -> Seq<T>
    decreases s.len(),
{
    if s.len() == 0 {
        Seq::empty()
    } else if idxes.contains((s.len() - 1) as usize) {
        remove_indices(s.drop_last(), idxes)
    } else {
        remove_indices(s.drop_last(), idxes).push(s.last())
    }
}

/// Base packet batch structure, this represents an array of mbufs and is the primary interface for sending and
/// receiving packets, allocations, etc. As a result many of the actions implemented in other types of batches
/// ultimately call into this structure.
#[derive(Debug)]
pub struct PacketBatch {
    array: Vec<MBuf>,
    cnt: i32,
}

impl PacketBatch {
    /// The buffers of the batch, in order.
    pub closed spec fn spec_packets(&self) -> Seq<MBuf> {
        self.array@
    }

    /// The maximum number of packets the batch holds.
    pub closed spec fn spec_cnt(&self) -> i32 {
        self.cnt
    }

    /// Every buffer of the batch is well formed, and the batch holds no more
    /// than its maximum.
    pub open spec fn wf(&self) -> bool {
        &&& self.spec_cnt() >= 0
        &&& self.spec_packets().len() <= self.spec_cnt()
        &&& forall|i: int| 0 <= i < self.spec_packets().len() ==> #[trigger] self.spec_packets()[i].wf()
    }

    /// Create a new PacketBatch capable of holding up to `cnt` packets.
    pub fn new(cnt: i32) -> (r: PacketBatch)
        requires
            cnt >= 0,
        ensures
            r.wf(),
            r.spec_packets() == Seq::<MBuf>::empty(),
            r.spec_cnt() == cnt,
    {
        PacketBatch { array: Vec::new(), cnt }
    }

    /// Allocate `self.cnt` mbufs. `len` here merely sets the extent of the mbuf considered when sending a packet. We
    /// always allocate mbuf's of the same size.
    #[inline]
    pub fn allocate_batch_with_size(&mut self, len: u16) -> (r: Result<(), BatchError>)
        requires
            old(self).wf(),
        ensures
            final(self).wf(),
            final(self).spec_cnt() == old(self).spec_cnt(),
            r is Ok <==> len <= MBUF_BUF_LEN - MBUF_HEADROOM,
            r is Ok ==> final(self).spec_packets().len() == old(self).spec_cnt() && forall|i: int|
                0 <= i < final(self).spec_packets().len() ==> #[trigger] final(self).spec_packets()[i].view()
                    == zeros(len as nat) && final(self).spec_packets()[i].spec_headroom() == MBUF_HEADROOM,
            r is Err ==> r == Err::<(), BatchError>(BatchError::FailedAllocation) && final(self).spec_packets() == old(self).spec_packets(),
    {
        let cnt = self.cnt;
        match self.alloc_packet_batch(len, cnt) {
            Ok(_) => Ok(()),
            Err(_) => Err(BatchError::FailedAllocation),
        }
    }

    /// Allocate `cnt` mbufs. `len` sets the metadata field indicating how much of the mbuf should be considred when
    /// sending the packet, all `mbufs` are of the same size.
    #[inline]
    pub fn allocate_partial_batch_with_size(&mut self, len: u16, cnt: i32) -> (r: Result<(), BatchError>)
        requires
            old(self).wf(),
        ensures
            final(self).wf(),
            final(self).spec_cnt() == old(self).spec_cnt(),
            r is Ok <==> (0 <= cnt <= old(self).spec_cnt() && len <= MBUF_BUF_LEN - MBUF_HEADROOM),
            r is Ok ==> final(self).spec_packets().len() == cnt && forall|i: int|
                0 <= i < final(self).spec_packets().len() ==> #[trigger] final(self).spec_packets()[i].view()
                    == zeros(len as nat) && final(self).spec_packets()[i].spec_headroom() == MBUF_HEADROOM,
            r is Err ==> r == Err::<(), BatchError>(BatchError::FailedAllocation) && final(self).spec_packets() == old(self).spec_packets(),
    {
        match self.alloc_packet_batch(len, cnt) {
            Ok(_) => Ok(()),
            Err(_) => Err(BatchError::FailedAllocation),
        }
    }

    /// Free all mbuf's held in this batch.
    #[inline]
    pub fn deallocate_batch(&mut self) -> (r: Result<(), BatchError>)
        requires
            old(self).wf(),
        ensures
            final(self).wf(),
            r is Ok,
            final(self).spec_packets() == Seq::<MBuf>::empty(),
            final(self).spec_cnt() == old(self).spec_cnt(),
    {
        self.free_packet_batch()
    }

    /// Number of available mbufs.
    #[inline]
    pub fn available(&self) -> (r: usize)
        ensures
            r == self.spec_packets().len(),
    {
        self.array.len()
    }

    /// The maximum number of packets that can be allocated in this batch, just returns `self.cnt`.
    #[inline]
    pub fn max_size(&self) -> (r: i32)
        ensures
            r == self.spec_cnt(),
    {
        self.cnt
    }

    /// Replaces the batch's packets with those received from a port queue,
    /// which hands out no more than the batch's maximum; returns their
    /// number.
    pub fn recv_packets(&mut self, received: Vec<MBuf>) -> (r: u32)
        requires
            old(self).wf(),
            received@.len() <= old(self).spec_cnt(),
            forall|i: int| 0 <= i < received@.len() ==> #[trigger] received@[i].wf(),
        ensures
            final(self).wf(),
            final(self).spec_packets() == received@,
            final(self).spec_cnt() == old(self).spec_cnt(),
            r == received@.len(),
    {
        let n = received.len();
        self.array = received;
        n as u32
    }

    /// The packet at `idx`.
    pub fn packet(&self, idx: usize) -> (r: &MBuf)
        requires
            idx < self.spec_packets().len(),
        ensures
            *r == self.spec_packets()[idx as int],
    {
        &self.array[idx]
    }

    /// Takes the packets out of the batch, to be sent; the batch is left
    /// empty.
    pub fn take_packets(&mut self) -> (r: Vec<MBuf>)
        requires
            old(self).wf(),
        ensures
            final(self).wf(),
            r@ == old(self).spec_packets(),
            final(self).spec_packets() == Seq::<MBuf>::empty(),
            final(self).spec_cnt() == old(self).spec_cnt(),
    {
        let mut taken: Vec<MBuf> = Vec::new();
        std::mem::swap(&mut taken, &mut self.array);
        taken
    }

    /// This drops packet buffers and keeps things ordered. We expect that idxes is an ordered vector of indices.
    ///
    /// Where an index lies past the end of the batch, no packet is dropped
    /// and the result is `None`; otherwise the result is the number of
    /// packets dropped.
    pub fn drop_packets_stable(&mut self, idxes: &Vec<usize>) -> (r: Option<usize>)
        requires
            old(self).wf(),
            strictly_increasing(idxes@),
        ensures
            final(self).wf(),
            final(self).spec_cnt() == old(self).spec_cnt(),
            idxes@.len() == 0 ==> r == Some(0usize) && final(self).spec_packets() == old(self).spec_packets(),
            idxes@.len() > 0 && idxes@.last() < old(self).spec_packets().len() ==> r == Some(idxes@.len() as usize)
                && final(self).spec_packets() == remove_indices(old(self).spec_packets(), idxes@),
            idxes@.len() > 0 && idxes@.last() >= old(self).spec_packets().len() ==> r is None
                && final(self).spec_packets() == old(self).spec_packets(),
    {
        // Short circuit when we don't have to do this work.
        if idxes.len() == 0 {
            return Some(0);
        }
        if idxes[idxes.len() - 1] >= self.array.len() {
            // We did not find an index that was passed in.
            return None;
        }
        let mut rest: Vec<MBuf> = Vec::new();
        std::mem::swap(&mut rest, &mut self.array);
        let ghost orig = rest@;
        let end = rest.len();
        let mut kept: Vec<MBuf> = Vec::new();
        let mut remove_idx: usize = 0;
        let mut idx_orig: usize = 0;
        while idx_orig < end
            invariant
                orig == old(self).spec_packets(),
                end == orig.len(),
                idx_orig <= end,
                rest@ == orig.skip(idx_orig as int),
                kept@ == remove_indices(orig.take(idx_orig as int), idxes@),
                strictly_increasing(idxes@),
                idxes@.len() > 0,
                idxes@.last() < end,
                remove_idx <= idxes@.len(),
                forall|j: int| 0 <= j < remove_idx ==> #[trigger] idxes@[j] < idx_orig,
                remove_idx < idxes@.len() ==> idxes@[remove_idx as int] >= idx_orig,
                remove_idx == idxes@.len() ==> idx_orig > idxes@.last(),
                kept@.len() + remove_idx == idx_orig,
                forall|i: int| 0 <= i < orig.len() ==> #[trigger] orig[i].wf(),
            decreases end - idx_orig,
        {
            let m = rest.remove(0);
            let drop_it = remove_idx < idxes.len() && idxes[remove_idx] == idx_orig;
            proof {
                let t = orig.take(idx_orig + 1);
                assert(t.drop_last() =~= orig.take(idx_orig as int));
                assert(t.last() == orig[idx_orig as int]);
                assert(idxes@.contains(idx_orig) == drop_it) by {
                    if idxes@.contains(idx_orig) {
                        let j = choose|j: int| 0 <= j < idxes@.len() && idxes@[j] == idx_orig;
                        if j < remove_idx {
                            assert(idxes@[j] < idx_orig);
                        } else if j > remove_idx {
                            assert(idxes@[remove_idx as int] < idxes@[j]);
                        }
                    }
                    if drop_it {
                        assert(idxes@[remove_idx as int] == idx_orig);
                    }
                }
                assert(rest@ =~= orig.skip(idx_orig + 1));
            }
            if drop_it {
                remove_idx = remove_idx + 1;
                proof {
                    if remove_idx < idxes@.len() {
                        assert(idxes@[remove_idx - 1] < idxes@[remove_idx as int]);
                    }
                }
            } else {
                kept.push(m);
                proof {
                    if remove_idx < idxes@.len() {
                        assert(idxes@[remove_idx as int] != idx_orig);
                    }
                }
            }
            idx_orig = idx_orig + 1;
        }
        proof {
            assert(orig.take(end as int) =~= orig);
            lemma_remove_indices_wf(orig, idxes@);
        }
        self.array = kept;
        Some(remove_idx)
    }

    /// Drops the first `consumed` packets.
    pub fn consumed_batch(&mut self, consumed: usize)
        requires
            old(self).wf(),
            consumed <= old(self).spec_packets().len(),
        ensures
            final(self).wf(),
            final(self).spec_packets() == old(self).spec_packets().skip(consumed as int),
            final(self).spec_cnt() == old(self).spec_cnt(),
    {
        let mut rest: Vec<MBuf> = Vec::new();
        std::mem::swap(&mut rest, &mut self.array);
        let ghost orig = rest@;
        let mut k: usize = 0;
        while k < consumed
            invariant
                k <= consumed <= orig.len(),
                rest@ == orig.skip(k as int),
            decreases consumed - k,
        {
            let _m = rest.remove(0);
            k = k + 1;
            assert(rest@ =~= orig.skip(k as int));
        }
        self.array = rest;
    }

    /// Allocates `cnt` fresh buffers of `len` bytes in place of the batch's
    /// packets.
    fn alloc_packet_batch(&mut self, len: u16, cnt: i32) -> (r: Result<(), ()>)
        requires
            old(self).wf(),
        ensures
            final(self).wf(),
            final(self).spec_cnt() == old(self).spec_cnt(),
            r is Ok <==> (0 <= cnt <= old(self).spec_cnt() && len <= MBUF_BUF_LEN - MBUF_HEADROOM),
            r is Ok ==> final(self).spec_packets().len() == cnt && forall|i: int|
                0 <= i < final(self).spec_packets().len() ==> #[trigger] final(self).spec_packets()[i].view()
                    == zeros(len as nat) && final(self).spec_packets()[i].spec_headroom() == MBUF_HEADROOM,
            r is Err ==> final(self).spec_packets() == old(self).spec_packets(),
    {
        if cnt < 0 || self.cnt < cnt || len as usize > MBUF_BUF_LEN - MBUF_HEADROOM {
            return Err(());
        }
        let n = cnt as usize;
        let mut v: Vec<MBuf> = Vec::new();
        let mut k: usize = 0;
        while k < n
            invariant
                k <= n,
                v@.len() == k,
                len <= MBUF_BUF_LEN - MBUF_HEADROOM,
                forall|i: int| 0 <= i < k ==> #[trigger] v@[i].wf() && v@[i].view() == zeros(len as nat)
                    && v@[i].spec_headroom() == MBUF_HEADROOM,
            decreases n - k,
        {
            let mut m = MBuf::new();
            let _added = m.add_data_end(len as usize);
            assert(m.view() =~= zeros(len as nat));
            v.push(m);
            k = k + 1;
            assert(forall|i: int| 0 <= i < k - 1 ==> #[trigger] v@[i] == v@.drop_last()[i]);
        }
        assert forall|i: int| 0 <= i < v@.len() implies #[trigger] v@[i].view() == zeros(len as nat)
            && v@[i].spec_headroom() == MBUF_HEADROOM && v@[i].wf() by {
            assert(v@[i].wf());
        }
        self.array = v;
        Ok(())
    }

    fn free_packet_batch(&mut self) -> (r: Result<(), BatchError>)
        requires
            old(self).wf(),
        ensures
            final(self).wf(),
            r is Ok,
            final(self).spec_packets() == Seq::<MBuf>::empty(),
            final(self).spec_cnt() == old(self).spec_cnt(),
    {
        self.array = Vec::new();
        Ok(())
    }

    /// Grows (`size > 0`) or shrinks (`size < 0`) the data of packet `idx`
    /// at its end; returns the change, or `None` where the packet has no
    /// room or too little data.
    pub fn adjust_packet_size(&mut self, idx: usize, size: isize) -> (r: Option<isize>)
        requires
            old(self).wf(),
            idx < old(self).spec_packets().len(),
            size != isize::MIN,
        ensures
            final(self).wf(),
            final(self).spec_cnt() == old(self).spec_cnt(),
            final(self).spec_packets().len() == old(self).spec_packets().len(),
            forall|i: int| 0 <= i < old(self).spec_packets().len() && i != idx ==> #[trigger] final(self).spec_packets()[i]
                == old(self).spec_packets()[i],
            ({
                let m = old(self).spec_packets()[idx as int];
                let n = final(self).spec_packets()[idx as int];
                if size < 0 {
                    if 0 < -size <= m.view().len() {
                        r == Some(size) && n.view() == m.view().take(m.view().len() + size)
                    } else {
                        r is None && n == m
                    }
                } else if size > 0 {
                    if size <= m.spec_tailroom() {
                        r == Some(size) && n.view() == m.view() + zeros(size as nat)
                    } else {
                        r is None && n == m
                    }
                } else {
                    r == Some(0isize) && n == m
                }
            }),
    {
        if size < 0 {
            let abs_size = (-size) as usize;
            let mut m = self.array.remove(idx);
            let ret = m.remove_data_end(abs_size);
            self.array.insert(idx, m);
            proof {
                self.lemma_wf_after_replace(old(self).spec_packets(), idx as int);
            }
            if ret > 0 {
                Some(-(ret as isize))
            } else {
                None
            }
        } else if size > 0 {
            let mut m = self.array.remove(idx);
            let ret = m.add_data_end(size as usize);
            self.array.insert(idx, m);
            proof {
                self.lemma_wf_after_replace(old(self).spec_packets(), idx as int);
            }
            if ret > 0 {
                Some(ret as isize)
            } else {
                None
            }
        } else {
            Some(0)
        }
    }

    /// Grows (`size > 0`) or shrinks (`size < 0`) the data of packet `idx`
    /// at its front; returns the change, or `None` where the packet has no
    /// room or too little data.
    pub fn adjust_packet_headroom(&mut self, idx: usize, size: isize) -> (r: Option<isize>)
        requires
            old(self).wf(),
            idx < old(self).spec_packets().len(),
            size != isize::MIN,
        ensures
            final(self).wf(),
            final(self).spec_cnt() == old(self).spec_cnt(),
            final(self).spec_packets().len() == old(self).spec_packets().len(),
            forall|i: int| 0 <= i < old(self).spec_packets().len() && i != idx ==> #[trigger] final(self).spec_packets()[i]
                == old(self).spec_packets()[i],
            ({
                let m = old(self).spec_packets()[idx as int];
                let n = final(self).spec_packets()[idx as int];
                if size < 0 {
                    if 0 < -size <= m.view().len() {
                        r == Some(size) && n.view() == m.view().skip(-size)
                    } else {
                        r is None && n == m
                    }
                } else if size > 0 {
                    if size <= m.spec_headroom() {
                        r == Some(size) && n.view() == zeros(size as nat) + m.view()
                    } else {
                        r is None && n == m
                    }
                } else {
                    r == Some(0isize) && n == m
                }
            }),
    {
        if size < 0 {
            let abs_size = (-size) as usize;
            let mut m = self.array.remove(idx);
            let ret = m.remove_data_beginning(abs_size);
            self.array.insert(idx, m);
            proof {
                self.lemma_wf_after_replace(old(self).spec_packets(), idx as int);
            }
            if ret > 0 {
                Some(-(ret as isize))
            } else {
                None
            }
        } else if size > 0 {
            let mut m = self.array.remove(idx);
            let ret = m.add_data_beginning(size as usize);
            self.array.insert(idx, m);
            proof {
                self.lemma_wf_after_replace(old(self).spec_packets(), idx as int);
            }
            if ret > 0 {
                Some(ret as isize)
            } else {
                None
            }
        } else {
            Some(0)
        }
    }

    /// Replacing one well-formed packet keeps the batch well formed and the
    /// other packets as they were.
    proof fn lemma_wf_after_replace(&self, before: Seq<MBuf>, idx: int)
        requires
            0 <= idx < before.len(),
            self.spec_packets().len() == before.len(),
            self.spec_packets()[idx].wf(),
            forall|i: int| 0 <= i < before.len() ==> #[trigger] before[i].wf(),
            forall|i: int| 0 <= i < before.len() && i != idx ==> #[trigger] self.spec_packets()[i] == before[i],
        ensures
            forall|i: int| 0 <= i < self.spec_packets().len() ==> #[trigger] self.spec_packets()[i].wf(),
    {
        assert forall|i: int| 0 <= i < self.spec_packets().len() implies #[trigger] self.spec_packets()[i].wf() by {
            if i != idx {
                assert(self.spec_packets()[i] == before[i]);
            }
        }
    }

    /// Drops the packets at the ordered indices `idxes`.
    pub fn drop_packets(&mut self, idxes: Vec<usize>) -> (r: Option<usize>)
        requires
            old(self).wf(),
            strictly_increasing(idxes@),
        ensures
            final(self).wf(),
            final(self).spec_cnt() == old(self).spec_cnt(),
            idxes@.len() == 0 ==> r == Some(0usize) && final(self).spec_packets() == old(self).spec_packets(),
            idxes@.len() > 0 && idxes@.last() < old(self).spec_packets().len() ==> r == Some(idxes@.len() as usize)
                && final(self).spec_packets() == remove_indices(old(self).spec_packets(), idxes@),
            idxes@.len() > 0 && idxes@.last() >= old(self).spec_packets().len() ==> r is None
                && final(self).spec_packets() == old(self).spec_packets(),
    {
        self.drop_packets_stable(&idxes)
    }
}

/// The packets that stay after dropping some are well formed where all were.
pub proof fn lemma_remove_indices_wf(s: Seq<MBuf>, idxes: Seq<usize>)
    requires
        forall|i: int| 0 <= i < s.len() ==> #[trigger] s[i].wf(),
    ensures
        forall|i: int| 0 <= i < remove_indices(s, idxes).len() ==> #[trigger] remove_indices(s, idxes)[i].wf(),
        remove_indices(s, idxes).len() <= s.len(),
    decreases s.len(),
{
    if s.len() > 0 {
        assert(forall|i: int| 0 <= i < s.drop_last().len() ==> #[trigger] s.drop_last()[i] == s[i]);
        lemma_remove_indices_wf(s.drop_last(), idxes);
    }
}

/// The descriptor of a packet of a base batch: its whole data.
pub open spec fn base_descriptor(m: MBuf) -> PacketDescriptor {
    PacketDescriptor { offset: 0, header: 0, payload: 0, payload_size: m.view().len() as usize }
}

// A packet batch is also a batch (just a special kind)
impl BatchIterator for PacketBatch {
    open spec fn spec_count(&self) -> nat {
        self.spec_packets().len()
    }

    open spec fn spec_start(&self) -> nat {
        0
    }

    open spec fn spec_descriptor(&self, idx: nat) -> PacketDescriptor {
        base_descriptor(self.spec_packets()[idx as int])
    }

    open spec fn spec_base_descriptor(&self, idx: nat) -> PacketDescriptor {
        base_descriptor(self.spec_packets()[idx as int])
    }

    /// The starting offset for packets in the current batch.
    #[inline]
    fn start(&mut self) -> (r: usize) {
        0
    }

    /// Payload for the next packet.
    #[inline]
    fn next_payload(&mut self, idx: usize) -> (r: Option<(PacketDescriptor, usize)>) {
        if idx < self.array.len() {
            let size = self.array[idx].data_len();
            Some((PacketDescriptor { offset: 0, header: 0, payload: 0, payload_size: size }, idx + 1))
        } else {
            None
        }
    }

    #[inline]
    fn next_base_payload(&mut self, idx: usize) -> (r: Option<(PacketDescriptor, usize)>) {
        self.next_payload(idx)
    }
}

} // verus!
