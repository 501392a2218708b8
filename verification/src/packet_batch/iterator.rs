//! Iteration over the packets of a batch.
use vstd::prelude::*;

verus! {

/// A struct containing all the packet related information passed around by iterators.
///
/// Positions are offsets into the packet's data.
#[derive(Debug, Copy, Clone, PartialEq, Eq, Structural)]
pub struct PacketDescriptor {
    pub offset: usize,
    /// Offset of the header.
    pub header: usize,
    /// Offset of the payload (this comes after the header).
    pub payload: usize,
    /// Payload size, useful for making bounded vectors into the packet.
    pub payload_size: usize,
}

/// An interface implemented by all batches for iterating through the set of packets in a batch.
pub trait BatchIterator: Sized {
    /// The number of packets the batch holds, counted from index 0.
    spec fn spec_count(&self) -> nat;

    /// The index of the first packet.
    spec fn spec_start(&self) -> nat;

    /// The descriptor of the packet at `idx`.
    spec fn spec_descriptor(&self, idx: nat) -> PacketDescriptor;

    /// The descriptor of the packet at `idx`, from the start of the packet.
    spec fn spec_base_descriptor(&self, idx: nat) -> PacketDescriptor;

    /// Returns the starting index for the packet batch. This allows for cases where the head of the batch is not at
    /// index 0.
    fn start(&mut self) -> (r: usize)
        ensures
            *final(self) == *old(self),
            r == old(self).spec_start(),
    ;

    /// If packets are available (i.e., `idx` is not past the end of the batch), returns the descriptor for the `idx`th
    /// packet and the next index. Otherwise returns None.
    fn next_payload(&mut self, idx: usize) -> (r: Option<(PacketDescriptor, usize)>)
        ensures
            *final(self) == *old(self),
            idx < old(self).spec_count() ==> idx + 1 <= usize::MAX && r == Some((old(self).spec_descriptor(idx as nat), (idx + 1) as usize)),
            idx >= old(self).spec_count() ==> r is None,
    ;

    /// Same as above, except return addresses from the start of the packet (offset 0).
    fn next_base_payload(&mut self, idx: usize) -> (r: Option<(PacketDescriptor, usize)>)
        ensures
            *final(self) == *old(self),
            idx < old(self).spec_count() ==> r == Some((old(self).spec_base_descriptor(idx as nat), (idx + 1) as usize)),
            idx >= old(self).spec_count() ==> r is None,
    ;
}

/// A struct containing the parsed information returned by the `PayloadEnumerator`.
#[derive(Debug, Copy, Clone, PartialEq, Eq, Structural)]
pub struct ParsedDescriptor {
    pub index: usize,
    /// Offset of the header.
    pub header: usize,
    /// Offset of the payload.
    pub payload: usize,
    pub payload_size: usize,
    /// Offset (from 0) at which the current payload resides.
    pub offset: usize,
}

/// An enumerator over both the header and the payload.
pub struct PayloadEnumerator {
    idx: usize,
}

impl PayloadEnumerator {
    /// The index of the next packet.
    pub closed spec fn spec_idx(&self) -> nat {
        self.idx as nat
    }

    /// Create a new iterator.
    #[inline]
    pub fn new<B: BatchIterator>(batch: &mut B) -> (r: PayloadEnumerator)
        ensures
            *final(batch) == *old(batch),
            r.spec_idx() == old(batch).spec_start(),
    {
        let start = batch.start();
        PayloadEnumerator { idx: start }
    }

    /// Used for looping over packets.
    #[inline]
    pub fn next<B: BatchIterator>(&mut self, batch: &mut B) -> (r: Option<ParsedDescriptor>)
        ensures
            *final(batch) == *old(batch),
            old(self).spec_idx() < old(batch).spec_count() ==> {
                let d = old(batch).spec_descriptor(old(self).spec_idx());
                &&& r == Some(
                    ParsedDescriptor {
                        index: old(self).spec_idx() as usize,
                        header: d.header,
                        payload: d.payload,
                        payload_size: d.payload_size,
                        offset: d.offset,
                    },
                )
                &&& final(self).spec_idx() == old(self).spec_idx() + 1
            },
            old(self).spec_idx() >= old(batch).spec_count() ==> r is None && final(self).spec_idx()
                == old(self).spec_idx(),
    {
        let original_idx = self.idx;
        match batch.next_payload(original_idx) {
            Some((d, next_idx)) => {
                self.idx = next_idx;
                Some(
                    ParsedDescriptor {
                        index: original_idx,
                        header: d.header,
                        payload: d.payload,
                        payload_size: d.payload_size,
                        offset: d.offset,
                    },
                )
            },
            None => None,
        }
    }
}

/// The descriptor of a layer parsed from the payload of `parent`: a header
/// of `header_len` bytes whose own accounting gives `payload_size` bytes of
/// payload; the payload is cut to what the parent's payload holds after the
/// header, none where the header reaches past it, so that a wrongly
/// reported size can do no harm.
pub fn parsed_descriptor(parent: PacketDescriptor, header_len: usize, payload_size: usize) -> (r:
    PacketDescriptor)
    requires
        parent.offset + header_len <= usize::MAX,
        parent.payload + header_len <= usize::MAX,
    ensures
        r.header == parent.payload,
        r.offset == parent.offset + header_len,
        r.payload == parent.payload + header_len,
        r.payload_size == if header_len > parent.payload_size {
            0
        } else if payload_size < parent.payload_size - header_len {
            payload_size
        } else {
            (parent.payload_size - header_len) as usize
        },
{
    let rest = parent.payload_size.saturating_sub(header_len);
    let size = if payload_size < rest {
        payload_size
    } else {
        rest
    };
    PacketDescriptor {
        header: parent.payload,
        offset: parent.offset + header_len,
        payload: parent.payload + header_len,
        payload_size: size,
    }
}

} // verus!
