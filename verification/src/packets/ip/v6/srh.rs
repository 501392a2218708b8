//! IPv6 segment routing header (draft-ietf-6man-segment-routing-header).
//!
//! ```text
//!  0                   1                   2                   3
//!  0 1 2 3 4 5 6 7 8 9 0 1 2 3 4 5 6 7 8 9 0 1 2 3 4 5 6 7 8 9 0 1
//! +-+-+-+-+-+-+-+-+-+-+-+-+-+-+-+-+-+-+-+-+-+-+-+-+-+-+-+-+-+-+-+-+
//! | Next Header   |  Hdr Ext Len  | Routing Type  | Segments Left |
//! +-+-+-+-+-+-+-+-+-+-+-+-+-+-+-+-+-+-+-+-+-+-+-+-+-+-+-+-+-+-+-+-+
//! |  Last Entry   |     Flags     |              Tag              |
//! +-+-+-+-+-+-+-+-+-+-+-+-+-+-+-+-+-+-+-+-+-+-+-+-+-+-+-+-+-+-+-+-+
//! |            Segment List[0] (128 bits IPv6 address)            |
//! |                              ...                              |
//! |            Segment List[n] (128 bits IPv6 address)            |
//! +-+-+-+-+-+-+-+-+-+-+-+-+-+-+-+-+-+-+-+-+-+-+-+-+-+-+-+-+-+-+-+-+
//! ```
//!
//! Hdr Ext Len is the length of the header in 8-octet units, not counting
//! the first 8 octets, so it is twice the number of segments. Last Entry
//! is the index of the last segment of the list.
use crate::packets::buffer::{dealloc_spec, read_spec, BufferError};
use crate::packets::checksum::PseudoHeader;
use crate::packets::ip::v6::{Ipv6, Ipv6Packet};
use crate::packets::buffer::{read_item, read_slice};
use crate::packets::ip::{
    ipv6_text, is_v6, lemma_v6_from_segments, protocol_number_text, lemma_v6_roundtrip, v6_bytes, v6_from_segments,
    v6_segments_at, IpAddr, IpAddrMismatchError, IpPacket, Ipv6Addr, ProtocolNumber,
};
use crate::packets::mbuf::{be16, be16_bytes, splice, u16_to_be, zeros, MBuf};
use crate::packets::{
    resize_fails, resize_spec, Fixed, Header, Packet, PacketError, ParseError, ParsedPacket,
};
use crate::text::{dec_text, push_dec, push_str};
use vstd::prelude::*;

verus! {

/// IPv6 segment routing header
///
/// The segment routing header contains only the fixed portion of the
/// header. `segment_list` and `tlv` are parsed separately.
#[derive(Debug, Copy, Clone)]
pub struct SegmentRoutingHeader {
    next_header: u8,
    hdr_ext_len: u8,
    routing_type: u8,
    segments_left: u8,
    last_entry: u8,
    flags: u8,
    tag: u16,
}

impl Default for SegmentRoutingHeader {
    fn default() -> (r: SegmentRoutingHeader)
        ensures
            r.spec_bytes() == seq![0u8, 2, 4, 0, 0, 0, 0, 0],
    {
        let r = SegmentRoutingHeader {
            next_header: 0,
            hdr_ext_len: 2,
            routing_type: 4,
            segments_left: 0,
            last_entry: 0,
            flags: 0,
            tag: 0,
        };
        assert(be16_bytes(0u16) =~= seq![0u8, 0]);
        assert(r.spec_bytes() =~= seq![0u8, 2, 4, 0, 0, 0, 0, 0]);
        r
    }
}

impl Fixed for SegmentRoutingHeader {
    open spec fn spec_size() -> nat {
        8
    }

    closed spec fn spec_bytes(&self) -> Seq<u8> {
        seq![
            self.next_header,
            self.hdr_ext_len,
            self.routing_type,
            self.segments_left,
            self.last_entry,
            self.flags,
        ] + be16_bytes(self.tag)
    }

    fn size() -> (r: usize) {
        8
    }

    fn to_bytes(&self) -> (r: Vec<u8>) {
        let t = u16_to_be(self.tag);
        let v = vec![
            self.next_header,
            self.hdr_ext_len,
            self.routing_type,
            self.segments_left,
            self.last_entry,
            self.flags,
            t[0],
            t[1],
        ];
        assert(v@ =~= self.spec_bytes());
        v
    }

    proof fn lemma_bytes_len(&self) {
    }
}

impl Header for SegmentRoutingHeader {

}

/// Type alias for a segment in segment routing header
pub type Segment = Ipv6Addr;

/// Error for a bad segment list
#[derive(Debug, Clone, Copy, PartialEq, Eq, Structural)]
pub struct BadSegmentsError;

impl BadSegmentsError {
    /// The error's message.
    pub fn to_string(&self) -> (r: String)
        ensures
            r@ == "Segment list length must be greater than 0"@,
    {
        String::from_str("Segment list length must be greater than 0")
    }
}

/// The `n` segments that start at `pos` in `s`.
pub open spec fn segments_at(s: Seq<u8>, pos: int, n: nat) -> Seq<Segment> {
    Seq::new(n, |k: int| v6_from_segments(v6_segments_at(s, pos + 16 * k)))
}

/// Segments read from bytes that agree over their whole span are the same.
pub proof fn lemma_segments_frame(a: Seq<u8>, b: Seq<u8>, pos: int, n: nat)
    requires
        forall|j: int| pos <= j < pos + 16 * n ==> a[j] == b[j],
    ensures
        segments_at(a, pos, n) == segments_at(b, pos, n),
{
    assert forall|k: int| 0 <= k < n implies #[trigger] v6_segments_at(a, pos + 16 * k) =~= v6_segments_at(
        b,
        pos + 16 * k,
    ) by {
        assert forall|j: int| 0 <= j < 8 implies #[trigger] v6_segments_at(a, pos + 16 * k)[j]
            == v6_segments_at(b, pos + 16 * k)[j] by {
            assert(pos <= pos + 16 * k + 2 * j && pos + 16 * k + 2 * j + 1 < pos + 16 * n) by (
                nonlinear_arith)
                requires
                    0 <= k < n,
                    0 <= j < 8,
            ;
        }
    }
    assert(segments_at(a, pos, n) =~= segments_at(b, pos, n));
}

/// Resizing the bytes at `pos` from a span of `old_w` bytes to one of `new_w`
/// bytes keeps what stands before `pos` and moves what stands after the span.
pub proof fn lemma_resize_shift(d: Seq<u8>, pos: nat, old_w: nat, new_w: nat)
    requires
        pos + old_w <= d.len(),
    ensures
        resize_spec(d, pos, new_w - old_w).len() == d.len() + new_w - old_w,
        forall|j: int| 0 <= j < pos ==> #[trigger] resize_spec(d, pos, new_w - old_w)[j] == d[j],
        forall|j: int|
            pos + new_w <= j < d.len() + new_w - old_w ==> #[trigger] resize_spec(
                d,
                pos,
                new_w - old_w,
            )[j] == d[j - new_w + old_w],
{
}

/// Writing the bytes of segment `i` right after the first `i` segments of
/// `segs` gives the first `i + 1`.
pub proof fn lemma_segments_push(before: Seq<u8>, after: Seq<u8>, pos: int, i: nat, segs: Seq<Segment>)
    requires
        0 <= pos,
        pos + 16 * i + 16 <= before.len(),
        i < segs.len(),
        after == splice(before, (pos + 16 * i) as nat, v6_bytes(segs[i as int].0@)),
        segments_at(before, pos, i) == segs.take(i as int),
    ensures
        segments_at(after, pos, i + 1) == segs.take(i + 1 as int),
{
    assert(segments_at(after, pos, i) == segs.take(i as int)) by {
        lemma_segments_frame(before, after, pos, i);
    }
    assert(v6_from_segments(v6_segments_at(after, pos + 16 * i)) == segs[i as int]) by {
        lemma_v6_roundtrip(before, (pos + 16 * i) as nat, segs[i as int].0@);
        lemma_v6_from_segments(segs[i as int]);
    }
    let a = segments_at(after, pos, i + 1);
    let b = segs.take(i + 1 as int);
    assert forall|k: int| 0 <= k < i + 1 implies a[k] == b[k] by {
        if k < i {
            assert(a[k] == segments_at(after, pos, i)[k]);
        }
    }
    assert(a =~= b);
}

/// Addresses in text form, separated by `", "`.
pub open spec fn segments_list_text(s: Seq<Segment>) -> Seq<char>
    decreases s.len(),
{
    if s.len() == 0 {
        Seq::empty()
    } else if s.len() == 1 {
        ipv6_text(s[0].0@)
    } else {
        segments_list_text(s.drop_last()) + ", "@ + ipv6_text(s.last().0@)
    }
}

/// A segment routing header in the payload of an IPv6 packet.
#[derive(Debug)]
pub struct SegmentRouting<E: Ipv6Packet> {
    envelope: E,
    offset: usize,
}

impl<E: Ipv6Packet> SegmentRouting<E> {
    /// The header octet at `i`.
    pub open spec fn spec_byte(&self, i: int) -> u8 {
        self.spec_mbuf().view()[self.spec_offset() + i]
    }

    pub open spec fn spec_next_header(&self) -> u8 {
        self.spec_byte(0)
    }

    pub open spec fn spec_hdr_ext_len(&self) -> u8 {
        self.spec_byte(1)
    }

    pub open spec fn spec_routing_type(&self) -> u8 {
        self.spec_byte(2)
    }

    pub open spec fn spec_segments_left(&self) -> u8 {
        self.spec_byte(3)
    }

    pub open spec fn spec_last_entry(&self) -> u8 {
        self.spec_byte(4)
    }

    pub open spec fn spec_flags(&self) -> u8 {
        self.spec_byte(5)
    }

    pub open spec fn spec_tag(&self) -> u16 {
        be16(self.spec_mbuf().view(), self.spec_offset() + 6int)
    }

    /// The number of segments in the list.
    pub open spec fn spec_segment_count(&self) -> nat {
        (self.spec_last_entry() + 1) as nat
    }

    /// The segment list.
    pub open spec fn spec_segments(&self) -> Seq<Segment> {
        segments_at(self.spec_mbuf().view(), self.spec_offset() + 8int, self.spec_segment_count())
    }

    fn read_u8(&self, i: usize) -> (r: u8)
        requires
            self.inv(),
            i < 8,
        ensures
            r == self.spec_byte(i as int),
    {
        proof {
            self.lemma_inv();
        }
        self.envelope.mbuf().read_u8(self.offset + i)
    }

    /// Writes `bytes` into the fixed portion of the header at `i`, away
    /// from the two octets that give the length of the segment list.
    fn write_header(&mut self, i: usize, bytes: &[u8])
        requires
            old(self).inv(),
            i + bytes@.len() <= 8,
            !(i <= 1 < i + bytes@.len()),
            !(i <= 4 < i + bytes@.len()),
        ensures
            final(self).inv(),
            final(self).spec_mbuf().view() == splice(
                old(self).spec_mbuf().view(),
                (old(self).spec_offset() + i) as nat,
                bytes@,
            ),
            final(self).spec_offset() == old(self).spec_offset(),
            final(self).spec_header_len() == old(self).spec_header_len(),
            final(self).spec_segments() == old(self).spec_segments(),
            final(self).spec_envelope().spec_src() == old(self).spec_envelope().spec_src(),
            final(self).spec_envelope().spec_dst() == old(self).spec_envelope().spec_dst(),
            final(self).spec_envelope().spec_offset() == old(self).spec_envelope().spec_offset(),
            final(self).spec_mbuf().spec_headroom() == old(self).spec_mbuf().spec_headroom(),
            final(self).spec_mbuf().spec_tailroom() == old(self).spec_mbuf().spec_tailroom(),
    {
        proof {
            self.lemma_inv();
            self.envelope.lemma_inv();
        }
        let pos = self.offset + i;
        self.envelope.write_payload(pos, bytes);
        proof {
            let a = old(self).spec_mbuf().view();
            let b = self.spec_mbuf().view();
            assert(b[self.offset + 1] == a[self.offset + 1]);
            assert(b[self.offset + 4] == a[self.offset + 4]);
            lemma_segments_frame(a, b, self.offset + 8, old(self).spec_segment_count());
        }
    }

    #[inline]
    pub fn next_header(&self) -> (r: ProtocolNumber)
        requires
            self.inv(),
        ensures
            r.0 == self.spec_next_header(),
    {
        ProtocolNumber::new(self.read_u8(0))
    }

    #[inline]
    pub fn set_next_header(&mut self, next_header: ProtocolNumber)
        requires
            old(self).inv(),
        ensures
            final(self).inv(),
            final(self).spec_mbuf().view() == splice(
                old(self).spec_mbuf().view(),
                old(self).spec_offset(),
                seq![next_header.0],
            ),
            final(self).spec_next_header() == next_header.0,
            final(self).spec_offset() == old(self).spec_offset(),
            final(self).spec_segments() == old(self).spec_segments(),
    {
        let b = [next_header.0];
        self.write_header(0, b.as_slice());
    }

    #[inline]
    pub fn hdr_ext_len(&self) -> (r: u8)
        requires
            self.inv(),
        ensures
            r == self.spec_hdr_ext_len(),
    {
        self.read_u8(1)
    }

    #[inline]
    pub fn routing_type(&self) -> (r: u8)
        requires
            self.inv(),
        ensures
            r == self.spec_routing_type(),
    {
        self.read_u8(2)
    }

    #[inline]
    pub fn segments_left(&self) -> (r: u8)
        requires
            self.inv(),
        ensures
            r == self.spec_segments_left(),
    {
        self.read_u8(3)
    }

    #[inline]
    pub fn set_segments_left(&mut self, segments_left: u8)
        requires
            old(self).inv(),
        ensures
            final(self).inv(),
            final(self).spec_mbuf().view() == splice(
                old(self).spec_mbuf().view(),
                old(self).spec_offset() + 3,
                seq![segments_left],
            ),
            final(self).spec_segments_left() == segments_left,
            final(self).spec_offset() == old(self).spec_offset(),
            final(self).spec_segments() == old(self).spec_segments(),
    {
        let b = [segments_left];
        self.write_header(3, b.as_slice());
    }

    #[inline]
    pub fn last_entry(&self) -> (r: u8)
        requires
            self.inv(),
        ensures
            r == self.spec_last_entry(),
    {
        self.read_u8(4)
    }

    #[inline]
    pub fn flags(&self) -> (r: u8)
        requires
            self.inv(),
        ensures
            r == self.spec_flags(),
    {
        self.read_u8(5)
    }

    #[inline]
    pub fn tag(&self) -> (r: u16)
        requires
            self.inv(),
        ensures
            r == self.spec_tag(),
    {
        proof {
            self.lemma_inv();
        }
        self.envelope.mbuf().read_be16(self.offset + 6)
    }

    #[inline]
    pub fn set_tag(&mut self, tag: u16)
        requires
            old(self).inv(),
        ensures
            final(self).inv(),
            final(self).spec_mbuf().view() == splice(
                old(self).spec_mbuf().view(),
                old(self).spec_offset() + 6,
                be16_bytes(tag),
            ),
            final(self).spec_tag() == tag,
            final(self).spec_offset() == old(self).spec_offset(),
            final(self).spec_segments() == old(self).spec_segments(),
    {
        let b = u16_to_be(tag);
        self.write_header(6, b.as_slice());
        proof {
            crate::packets::mbuf::lemma_be16_roundtrip(
                old(self).spec_mbuf().view(),
                old(self).spec_offset() + 6,
                tag,
            );
        }
    }

    /// Returns the segment list.
    #[inline]
    pub fn segments(&self) -> (r: Vec<Segment>)
        requires
            self.inv(),
        ensures
            r@ == self.spec_segments(),
    {
        proof {
            self.lemma_inv();
        }
        let n = self.last_entry() as usize + 1;
        let mut v: Vec<Segment> = Vec::new();
        let mut k: usize = 0;
        while k < n
            invariant
                self.inv(),
                n == self.spec_segment_count(),
                self.spec_offset() + 8 + 16 * n <= self.spec_mbuf().view().len(),
                k <= n,
                v@ == self.spec_segments().take(k as int),
            decreases n - k,
        {
            proof {
                self.lemma_inv();
            }
            assert(self.offset + 8 + 16 * k + 16 <= self.spec_mbuf().view().len()) by (
                nonlinear_arith)
                requires
                    k < n,
                    self.offset + 8 + 16 * n <= self.spec_mbuf().view().len(),
            ;
            let a = self.read_segment(self.offset + 8 + 16 * k);
            v.push(a);
            k = k + 1;
            assert(v@ =~= self.spec_segments().take(k as int));
        }
        assert(self.spec_segments().take(n as int) =~= self.spec_segments());
        v
    }

    /// Sets the segment list
    ///
    /// Be aware that when you call this function, it can affect Tcp and Udp
    /// checksum calculations, as the first segment is used as part of the
    /// pseudo header.
    pub fn set_segments(&mut self, segments: &[Segment]) -> (r: Result<(), PacketError>)
        requires
            old(self).inv(),
            segments@.len() < 128,
        ensures
            final(self).inv(),
            final(self).spec_offset() == old(self).spec_offset(),
            final(self).spec_envelope().spec_src() == old(self).spec_envelope().spec_src(),
            final(self).spec_envelope().spec_dst() == old(self).spec_envelope().spec_dst(),
            final(self).spec_envelope().spec_next_proto() == old(self).spec_envelope().spec_next_proto(),
            forall|d: IpAddr| #[trigger] final(self).spec_envelope().spec_dst_after(d) == old(
                self,
            ).spec_envelope().spec_dst_after(d),
            final(self).spec_mbuf().spec_headroom() == old(self).spec_mbuf().spec_headroom(),
            final(self).spec_mbuf().view().len() + final(self).spec_mbuf().spec_tailroom()
                == old(self).spec_mbuf().view().len() + old(self).spec_mbuf().spec_tailroom(),
            segments@.len() == 0 ==> (r matches Err(PacketError::BadSegments(_))
                && final(self).spec_mbuf() == old(self).spec_mbuf()),
            segments@.len() > 0 && resize_fails(
                old(self).spec_mbuf(),
                old(self).spec_offset() + 8,
                16 * segments@.len() - 16 * old(self).spec_segment_count(),
            ) ==> (r matches Err(PacketError::Buffer(BufferError::NotResized))
                && final(self).spec_mbuf().view() == old(self).spec_mbuf().view()),
            segments@.len() > 0 && !resize_fails(
                old(self).spec_mbuf(),
                old(self).spec_offset() + 8,
                16 * segments@.len() - 16 * old(self).spec_segment_count(),
            ) ==> {
                &&& r is Ok
                &&& final(self).spec_segments() == segments@
                &&& final(self).spec_hdr_ext_len() == 2 * segments@.len()
                &&& final(self).spec_last_entry() == segments@.len() - 1
                &&& final(self).spec_next_header() == old(self).spec_next_header()
                &&& final(self).spec_routing_type() == old(self).spec_routing_type()
                &&& final(self).spec_segments_left() == old(self).spec_segments_left()
                &&& final(self).spec_flags() == old(self).spec_flags()
                &&& final(self).spec_tag() == old(self).spec_tag()
                &&& final(self).spec_mbuf().view().take(old(self).spec_offset() as int) == old(
                    self,
                ).spec_mbuf().view().take(old(self).spec_offset() as int)
                &&& final(self).spec_mbuf().view().skip(
                    (final(self).spec_offset() + final(self).spec_header_len()) as int,
                ) == old(self).spec_mbuf().view().skip(
                    (old(self).spec_offset() + old(self).spec_header_len()) as int,
                )
            },
    {
        if segments.len() == 0 {
            return Err(PacketError::BadSegments(BadSegmentsError));
        }
        proof {
            self.lemma_inv();
            self.envelope.lemma_inv();
        }
        let ghost d0 = self.spec_mbuf().view();
        let ghost old_n = self.spec_segment_count();
        let ghost e_off = self.envelope.spec_offset();
        let ghost e_hl = self.envelope.spec_header_len();
        let ghost src = self.envelope.spec_src();
        let ghost dst = self.envelope.spec_dst();
        let ghost proto = self.envelope.spec_next_proto();
        let ghost env0 = self.envelope;
        let old_len = self.last_entry() as usize + 1;
        let new_len = segments.len();
        let offset = self.offset;
        let pos = offset + 8;
        let delta: isize = (new_len as isize - old_len as isize) * 16;
        match self.envelope.resize_payload(pos, delta) {
            Ok(_) => {},
            Err(e) => {
                return Err(PacketError::Buffer(e));
            },
        }
        let ghost d1 = self.envelope.spec_mbuf().view();
        let ghost head = self.envelope.spec_mbuf().spec_headroom();
        let ghost tail = self.envelope.spec_mbuf().spec_tailroom();
        proof {
            lemma_resize_shift(d0, pos as nat, 16 * old_n, 16 * new_len as nat);
            self.envelope.lemma_inv();
        }
        let mut i: usize = 0;
        while i < new_len
            invariant
                self.envelope.inv(),
                self.envelope.spec_offset() == e_off,
                self.envelope.spec_header_len() == e_hl,
                e_off + e_hl == offset,
                self.offset == offset,
                pos == offset + 8,
                i <= new_len,
                new_len == segments@.len(),
                0 < new_len < 128,
                self.envelope.spec_mbuf().view().len() == d1.len(),
                pos + 16 * new_len <= d1.len(),
                d1.len() <= crate::packets::mbuf::MBUF_BUF_LEN,
                forall|j: int|
                    0 <= j < pos ==> #[trigger] self.envelope.spec_mbuf().view()[j] == d1[j],
                forall|j: int|
                    pos + 16 * new_len <= j < d1.len() ==> #[trigger] self.envelope.spec_mbuf().view()[j]
                        == d1[j],
                segments_at(self.envelope.spec_mbuf().view(), pos as int, i as nat)
                    == segments@.take(i as int),
                self.envelope.spec_src() == src,
                self.envelope.spec_dst() == dst,
                self.envelope.spec_next_proto() == proto,
                forall|d: IpAddr| #[trigger] self.envelope.spec_dst_after(d) == env0.spec_dst_after(d),
                self.envelope.spec_mbuf().spec_headroom() == head,
                self.envelope.spec_mbuf().spec_tailroom() == tail,
            decreases new_len - i,
        {
            let b = segments[i].to_bytes();
            let ghost before_w = self.envelope.spec_mbuf().view();
            assert(pos + 16 * i + 16 <= d1.len()) by (nonlinear_arith)
                requires
                    i < new_len,
                    pos + 16 * new_len <= d1.len(),
            ;
            self.envelope.write_payload(pos + 16 * i, b.as_slice());
            proof {
                let after = self.envelope.spec_mbuf().view();
                lemma_segments_push(before_w, after, pos as int, i as nat, segments@);
                assert forall|j: int| pos + 16 * new_len <= j < d1.len() implies #[trigger] after[j]
                    == d1[j] by {
                    assert(after[j] == before_w[j]);
                }
            }
            i = i + 1;
        }
        let ghost d2 = self.envelope.spec_mbuf().view();
        let h = [(2 * new_len) as u8];
        self.envelope.write_payload(offset + 1, h.as_slice());
        let le = [(new_len - 1) as u8];
        self.envelope.write_payload(offset + 4, le.as_slice());
        proof {
            let d3 = self.envelope.spec_mbuf().view();
            assert(forall|j: int| pos <= j < d3.len() ==> #[trigger] d3[j] == d2[j]);
            lemma_segments_frame(d2, d3, pos as int, new_len as nat);
            assert(segments@.take(new_len as int) =~= segments@);
            assert(d3[offset + 1] == 2 * new_len);
            assert(d3[offset + 4] == new_len - 1);
            assert(self.spec_segments() == segments@);
            assert(self.spec_mbuf().view().take(offset as int) =~= d0.take(offset as int));
            assert(self.spec_mbuf().view().skip(pos + 16 * new_len) =~= d0.skip(pos + 16 * old_n))
                by {
                assert forall|j: int| 0 <= j < d3.len() - (pos + 16 * new_len) implies #[trigger] d3[pos
                    + 16 * new_len + j] == d0[pos + 16 * old_n + j] by {
                    assert(d3[pos + 16 * new_len + j] == d1[pos + 16 * new_len + j]);
                }
            }
            assert(self.spec_tag() == old(self).spec_tag());
        }
        Ok(())
    }

    /// The fields and the segment list, as text.
    pub fn to_string(&self) -> (r: String)
        requires
            self.inv(),
        ensures
            r@ == "next_header: "@ + protocol_number_text(self.spec_next_header())
                + ", hdr_ext_len: "@ + dec_text(self.spec_hdr_ext_len() as nat)
                + ", routing_type: "@ + dec_text(self.spec_routing_type() as nat)
                + ", segments_left: "@ + dec_text(self.spec_segments_left() as nat)
                + ", last_entry: "@ + dec_text(self.spec_last_entry() as nat) + ", flags: "@
                + dec_text(self.spec_flags() as nat) + ", tag: "@ + dec_text(self.spec_tag() as nat)
                + ", segments: ["@ + segments_list_text(self.spec_segments()) + "]"@,
    {
        let mut s = String::from_str("next_header: ");
        let nh = self.next_header().to_string();
        s.append(nh.as_str());
        push_str(&mut s, ", hdr_ext_len: ");
        push_dec(&mut s, self.hdr_ext_len() as u64);
        push_str(&mut s, ", routing_type: ");
        push_dec(&mut s, self.routing_type() as u64);
        push_str(&mut s, ", segments_left: ");
        push_dec(&mut s, self.segments_left() as u64);
        push_str(&mut s, ", last_entry: ");
        push_dec(&mut s, self.last_entry() as u64);
        push_str(&mut s, ", flags: ");
        push_dec(&mut s, self.flags() as u64);
        push_str(&mut s, ", tag: ");
        push_dec(&mut s, self.tag() as u64);
        push_str(&mut s, ", segments: [");
        let ghost head = s@;
        let segments = self.segments();
        let mut k: usize = 0;
        while k < segments.len()
            invariant
                k <= segments@.len(),
                s@ == head + segments_list_text(segments@.take(k as int)),
            decreases segments@.len() - k,
        {
            if k > 0 {
                push_str(&mut s, ", ");
            }
            let t = segments[k].to_string();
            s.append(t.as_str());
            proof {
                let u = segments@.take(k + 1);
                assert(u.drop_last() =~= segments@.take(k as int));
                if k == 0 {
                    assert(segments@.take(0) =~= Seq::<Segment>::empty());
                }
                assert(s@ =~= head + segments_list_text(u));
            }
            k = k + 1;
        }
        push_str(&mut s, "]");
        proof {
            reveal_strlit("next_header: ");
            assert(segments@.take(segments@.len() as int) =~= segments@);
        }
        s
    }

    /// The segment at buffer offset `pos`.
    fn read_segment(&self, pos: usize) -> (r: Segment)
        requires
            self.inv(),
            pos + 16 <= self.spec_mbuf().view().len(),
        ensures
            r == v6_from_segments(v6_segments_at(self.spec_mbuf().view(), pos as int)),
    {
        proof {
            self.lemma_inv();
        }
        let m = self.envelope.mbuf();
        let r = Ipv6Addr(
            [
                m.read_be16(pos),
                m.read_be16(pos + 2),
                m.read_be16(pos + 4),
                m.read_be16(pos + 6),
                m.read_be16(pos + 8),
                m.read_be16(pos + 10),
                m.read_be16(pos + 12),
                m.read_be16(pos + 14),
            ],
        );
        proof {
            lemma_v6_from_segments(r);
            assert(r.0@ =~= v6_segments_at(self.spec_mbuf().view(), pos as int));
        }
        r
    }
}

impl<E: Ipv6Packet> SegmentRouting<E> {
    /// The cascade of this layer is its envelope's cascade: it writes
    /// nothing of its own.
    pub proof fn lemma_cascade_view(&self)
        ensures
            forall|v: Seq<u8>| #[trigger] self.spec_cascade_view(v) == self.spec_envelope().spec_cascade_view(v),
    {
    }
}

impl<E: Ipv6Packet> Packet for SegmentRouting<E> {
    /// The routing header derives nothing: the envelope's cascade.
    closed spec fn spec_cascade_view(&self, v: Seq<u8>) -> Seq<u8> {
        self.envelope.spec_cascade_view(v)
    }

    closed spec fn spec_mbuf(&self) -> MBuf {
        self.envelope.spec_mbuf()
    }

    closed spec fn spec_offset(&self) -> nat {
        self.offset as nat
    }

    open spec fn spec_header_len(&self) -> nat {
        8 + 16 * self.spec_segment_count()
    }

    closed spec fn inv(&self) -> bool {
        let d = self.envelope.spec_mbuf().view();
        &&& self.envelope.inv()
        &&& self.offset == self.envelope.spec_offset() + self.envelope.spec_header_len()
        &&& self.offset + 8 <= d.len()
        &&& d[self.offset + 1] as int == 2 * (d[self.offset + 4] + 1)
        &&& self.offset + 8 + 16 * (d[self.offset + 4] + 1) <= d.len()
    }

    proof fn lemma_inv(&self) {
        self.envelope.lemma_inv();
        assert(self.spec_last_entry() == self.envelope.spec_mbuf().view()[self.offset + 4]);
        assert(self.spec_last_entry() < 127);
        assert(self.spec_segment_count() == self.spec_last_entry() + 1);
        assert(self.spec_header_len() == 8 + 16 * (self.spec_last_entry() + 1));
        assert(self.spec_offset() + self.spec_header_len() <= self.spec_mbuf().view().len());
    }

    fn mbuf(&self) -> (r: &MBuf) {
        self.envelope.mbuf()
    }

    fn offset(&self) -> (r: usize) {
        self.offset
    }

    fn header_len(&self) -> (r: usize) {
        proof {
            self.lemma_inv();
        }
        let le = self.last_entry() as usize;
        assert(le < 127) by {
            assert(self.spec_last_entry() == self.envelope.spec_mbuf().view()[self.offset + 4]);
        }
        8 + 16 * (le + 1)
    }

    fn write_bytes(&mut self, pos: usize, bytes: &[u8]) {
        proof {
            self.envelope.lemma_inv();
        }
        self.envelope.write_bytes(pos, bytes);
    }

    fn resize(&mut self, pos: usize, len: isize) -> (r: Result<(), BufferError>) {
        let ghost before = self.spec_mbuf().view();
        proof {
            self.envelope.lemma_inv();
        }
        let r = self.envelope.resize(pos, len);
        proof {
            if r is Ok && pos <= before.len() {
                crate::packets::lemma_resize_len(before, pos as nat, len as int);
            }
        }
        r
    }

    fn cascade(&mut self) {
        proof {
            self.envelope.lemma_inv();
        }
        self.envelope.cascade();
    }

    fn into_mbuf(self) -> (r: MBuf) {
        proof {
            self.envelope.lemma_inv();
        }
        self.envelope.into_mbuf()
    }
}

impl<E: Ipv6Packet> ParsedPacket for SegmentRouting<E> {
    type Envelope = E;

    /// The fixed part fits, the header length agrees with the last entry,
    /// and the segments fit.
    open spec fn spec_parses(envelope: E) -> bool {
        let d = envelope.spec_mbuf().view();
        let po = envelope.spec_offset() + envelope.spec_header_len();
        &&& read_spec(d.len(), po, 8) is Ok
        &&& d[po as int + 1] as int == 2 * (d[po as int + 4] + 1)
        &&& read_spec(d.len(), po + 8, 16 * (d[po as int + 4] + 1) as nat) is Ok
    }

    open spec fn spec_default_header(envelope: E) -> Seq<u8> {
        seq![0u8, 2, 4, 0, 0, 0, 0, 0] + zeros(16)
    }


    closed spec fn spec_envelope(&self) -> E {
        self.envelope
    }

    proof fn lemma_envelope(&self) {
    }

    fn envelope(&self) -> (r: &E) {
        &self.envelope
    }

    fn deparse(self) -> (r: E) {
        self.envelope
    }

    fn do_parse(envelope: E) -> (r: Result<Self, PacketError>)
        ensures
            ({
                let d = envelope.spec_mbuf().view();
                let po = envelope.spec_offset() + envelope.spec_header_len();
                match read_spec(d.len(), po, 8) {
                    Err(e) => r matches Err(PacketError::Buffer(e2)) && e2 == e,
                    Ok(_) => if d[po as int + 1] as int == 2 * (d[po as int + 4] + 1) {
                        match read_spec(d.len(), po + 8, 16 * (d[po as int + 4] + 1) as nat) {
                            Ok(_) => r matches Ok(p) && p.spec_offset() == po,
                            Err(e) => r matches Err(PacketError::Buffer(e2)) && e2 == e,
                        }
                    } else {
                        r matches Err(PacketError::Parse(pe)) && pe.message()
                            == "Packet has inconsistent segment list length"@
                    },
                }
            }),
    {
        proof {
            envelope.lemma_inv();
        }
        let offset = envelope.payload_offset();
        match read_item::<SegmentRoutingHeader>(envelope.mbuf(), offset) {
            Ok(_) => {},
            Err(e) => {
                return Err(PacketError::Buffer(e));
            },
        }
        let hdr_ext_len = envelope.mbuf().read_u8(offset + 1);
        let segments_len = envelope.mbuf().read_u8(offset + 4) as usize + 1;
        if 2 * segments_len == hdr_ext_len as usize {
            match read_slice::<Segment>(envelope.mbuf(), offset + 8, segments_len) {
                Ok(_) => Ok(SegmentRouting { envelope, offset }),
                Err(e) => Err(PacketError::Buffer(e)),
            }
        } else {
            Err(PacketError::Parse(ParseError::new("Packet has inconsistent segment list length")))
        }
    }

    fn do_push(envelope: E) -> (r: Result<Self, PacketError>)
        ensures
            ({
                let d = envelope.spec_mbuf().view();
                let po = envelope.spec_offset() + envelope.spec_header_len();
                &&& !resize_fails(envelope.spec_mbuf(), po, 24) ==> (r matches Ok(p)
                    && p.spec_mbuf().view() == splice(
                    resize_spec(d, po, 24),
                    po,
                    seq![0u8, 2, 4, 0, 0, 0, 0, 0] + zeros(16),
                ) && p.spec_envelope().spec_src() == envelope.spec_src()
                    && p.spec_envelope().spec_dst() == envelope.spec_dst())
                &&& resize_fails(envelope.spec_mbuf(), po, 24) ==> r matches Err(
                    PacketError::Buffer(BufferError::NotResized),
                )
            }),
    {
        let mut envelope = envelope;
        proof {
            envelope.lemma_inv();
        }
        let offset = envelope.payload_offset();
        let ghost before = envelope.spec_mbuf().view();
        match envelope.resize_payload(offset, 24) {
            Ok(_) => {},
            Err(e) => {
                return Err(PacketError::Buffer(e));
            },
        }
        proof {
            crate::packets::lemma_resize_len(before, offset as nat, 24);
        }
        let header = SegmentRoutingHeader::default();
        let mut bytes = header.to_bytes();
        let mut i: usize = 0;
        while i < 16
            invariant
                i <= 16,
                bytes@ == seq![0u8, 2, 4, 0, 0, 0, 0, 0] + zeros(i as nat),
            decreases 16 - i,
        {
            bytes.push(0);
            i = i + 1;
            assert(bytes@ =~= seq![0u8, 2, 4, 0, 0, 0, 0, 0] + zeros(i as nat));
        }
        envelope.write_payload(offset, bytes.as_slice());
        let r = SegmentRouting { envelope, offset };
        proof {
            let d = r.spec_mbuf().view();
            assert(d[offset + 1] == 2);
            assert(d[offset + 4] == 0);
        }
        Ok(r)
    }

    fn remove(self) -> (r: Result<E, PacketError>)
        ensures
            r matches Ok(e) && e.spec_mbuf().view() == dealloc_spec(
                self.spec_mbuf().view(),
                self.spec_offset(),
                self.spec_header_len(),
            ) && e.spec_src() == self.spec_envelope().spec_src() && e.spec_dst()
                == self.spec_envelope().spec_dst(),
    {
        proof {
            self.lemma_inv();
        }
        let len = self.header_len();
        let mut envelope = self.envelope;
        let offset = self.offset;
        proof {
            envelope.lemma_inv();
        }
        match envelope.resize_payload(offset, -(len as isize)) {
            Ok(_) => Ok(envelope),
            Err(e) => Err(PacketError::Buffer(e)),
        }
    }
}

/// The IPv6 address carried by `a`, or the unspecified address.
pub open spec fn v6_of(a: IpAddr) -> Ipv6Addr {
    match a {
        IpAddr::V6(x) => x,
        IpAddr::V4(_) => v6_from_segments(Seq::new(8, |i: int| 0u16)),
    }
}

impl<E: Ipv6Packet> IpPacket for SegmentRouting<E> {
    open spec fn spec_next_proto(&self) -> u8 {
        self.spec_next_header()
    }

    open spec fn spec_src(&self) -> IpAddr {
        self.spec_envelope().spec_src()
    }

    open spec fn spec_dst(&self) -> IpAddr {
        self.spec_envelope().spec_dst()
    }

    open spec fn spec_v6(&self) -> bool {
        true
    }

    /// The first segment is always rewritten; the IPv6 header's destination
    /// only where no segment is left to visit.
    open spec fn spec_dst_after(&self, dst: IpAddr) -> IpAddr {
        if self.spec_segments_left() == 0 {
            self.spec_envelope().spec_dst_after(dst)
        } else {
            self.spec_envelope().spec_dst()
        }
    }

    open spec fn spec_pseudo_header(&self, packet_len: u16, protocol: ProtocolNumber) -> PseudoHeader {
        PseudoHeader::V6 {
            src: v6_of(self.spec_envelope().spec_src()),
            dst: self.spec_segments()[0],
            packet_len,
            protocol,
        }
    }

    proof fn lemma_addr_version(&self) {
        self.envelope.lemma_v6();
        self.envelope.lemma_addr_version();
    }

    #[inline]
    fn next_proto(&self) -> (r: ProtocolNumber) {
        self.next_header()
    }

    #[inline]
    fn src(&self) -> (r: IpAddr) {
        self.envelope.src()
    }

    #[inline]
    fn set_src(&mut self, src: IpAddr) -> (r: Result<(), PacketError>) {
        proof {
            self.envelope.lemma_v6();
            self.envelope.lemma_inv();
        }
        let r = self.envelope.set_src(src);
        proof {
            let a = old(self).spec_mbuf().view();
            let b = self.spec_mbuf().view();
            lemma_segments_frame(a, b, self.offset + 8, old(self).spec_segment_count());
        }
        r
    }

    #[inline]
    fn dst(&self) -> (r: IpAddr) {
        proof {
            self.envelope.lemma_inv();
        }
        self.envelope.dst()
    }

    /// Sets the destination address: the first segment, and where no
    /// segment is left to visit, the destination of the IPv6 header too.
    #[inline]
    fn set_dst(&mut self, dst: IpAddr) -> (r: Result<(), PacketError>) {
        match dst {
            IpAddr::V6(v6_dst) => {
                let old_segments = self.segments();
                let mut segments: Vec<Segment> = Vec::new();
                segments.push(v6_dst);
                let mut k: usize = 1;
                while k < old_segments.len()
                    invariant
                        1 <= k <= old_segments@.len(),
                        old_segments@.len() < 128,
                        segments@ == seq![v6_dst] + old_segments@.subrange(1, k as int),
                    decreases old_segments@.len() - k,
                {
                    segments.push(old_segments[k]);
                    k = k + 1;
                    assert(segments@ =~= seq![v6_dst] + old_segments@.subrange(1, k as int));
                }
                let ghost mid = self.spec_mbuf().view();
                match self.set_segments(segments.as_slice()) {
                    Ok(_) => {},
                    Err(e) => {
                        return Err(e);
                    },
                }
                proof {
                    self.lemma_inv();
                    old(self).lemma_inv();
                    assert(segments@.len() == old(self).spec_segment_count());
                    assert(self.spec_header_len() == old(self).spec_header_len());
                    let po = old(self).spec_offset() + old(self).spec_header_len();
                    assert(self.spec_mbuf().view().skip(po as int).len() == old(self).spec_mbuf().view().skip(po as int).len());
                    assert(self.spec_mbuf().view().len() == old(self).spec_mbuf().view().len());
                    assert forall|i: int|
                        old(self).spec_offset() + old(self).spec_header_len() <= i < old(
                            self,
                        ).spec_mbuf().view().len() implies self.spec_mbuf().view()[i] == old(
                        self,
                    ).spec_mbuf().view()[i] by {
                        let po = old(self).spec_offset() + old(self).spec_header_len();
                        assert(self.spec_mbuf().view().skip(po as int)[i - po] == old(
                            self,
                        ).spec_mbuf().view().skip(po as int)[i - po]);
                    }
                }
                if self.segments_left() == 0 {
                    proof {
                        self.envelope.lemma_v6();
                        self.envelope.lemma_inv();
                    }
                    let ghost before_e = self.spec_mbuf().view();
                    let r = self.envelope.set_dst(dst);
                    proof {
                        let b = self.spec_mbuf().view();
                        lemma_segments_frame(before_e, b, self.offset + 8, self.spec_segment_count());
                    }
                    r
                } else {
                    Ok(())
                }
            },
            _ => Err(PacketError::IpAddrMismatch(IpAddrMismatchError)),
        }
    }

    #[inline]
    fn pseudo_header(&self, packet_len: u16, protocol: ProtocolNumber) -> (r: PseudoHeader) {
        proof {
            self.envelope.lemma_v6();
            self.envelope.lemma_addr_version();
            self.lemma_inv();
        }
        let src = match self.envelope.src() {
            IpAddr::V6(a) => a,
            IpAddr::V4(_) => Ipv6Addr::unspecified(),
        };
        let dst = self.read_segment(self.offset + 8);
        PseudoHeader::V6 { src, dst, packet_len, protocol }
    }

    fn write_payload(&mut self, pos: usize, bytes: &[u8]) {
        proof {
            self.envelope.lemma_inv();
        }
        self.envelope.write_payload(pos, bytes);
        proof {
            let a = old(self).spec_mbuf().view();
            let b = self.spec_mbuf().view();
            assert(b[self.offset + 0] == a[self.offset + 0]);
            lemma_segments_frame(a, b, self.offset + 8, old(self).spec_segment_count());
        }
    }

    fn resize_payload(&mut self, pos: usize, len: isize) -> (r: Result<(), BufferError>) {
        let ghost before = self.spec_mbuf().view();
        proof {
            self.envelope.lemma_inv();
            self.lemma_inv();
        }
        let r = self.envelope.resize_payload(pos, len);
        proof {
            if r is Ok && pos <= before.len() {
                crate::packets::lemma_resize_len(before, pos as nat, len as int);
            }
            let b = self.spec_mbuf().view();
            assert(b[self.offset + 0] == before[self.offset + 0]);
            lemma_segments_frame(before, b, self.offset + 8, old(self).spec_segment_count());
        }
        r
    }
}

impl<E: Ipv6Packet> Ipv6Packet for SegmentRouting<E> {
    proof fn lemma_v6(&self) {
    }
}

impl<E: Ipv6Packet> SegmentRouting<E> {
    /// The pseudo header of a packet that carries a segment routing header
    /// (RFC 8200, 8.1) has as destination the final one: the first entry of
    /// the segment list, as it stands in the octets after the fixed part of
    /// this header, not the next hop in the IPv6 header. Its source is the
    /// packet's source.
    pub proof fn law_pseudo_header_final_destination(&self, packet_len: u16, protocol: ProtocolNumber)
        ensures
            self.spec_pseudo_header(packet_len, protocol) == (PseudoHeader::V6 {
                src: v6_of(self.spec_src()),
                dst: v6_from_segments(v6_segments_at(self.spec_mbuf().view(), self.spec_offset() + 8int)),
                packet_len,
                protocol,
            }),
            self.spec_pseudo_header(packet_len, protocol) == (PseudoHeader::V6 {
                src: v6_of(self.spec_src()),
                dst: self.spec_segments()[0],
                packet_len,
                protocol,
            }),
    {
        assert(self.spec_segment_count() >= 1);
        assert(self.spec_segments()[0] == v6_from_segments(
            v6_segments_at(self.spec_mbuf().view(), self.spec_offset() + 8int + 16 * 0),
        ));
    }
}

impl SegmentRouting<Ipv6> {
    /// The pseudo header of a packet that carries a segment routing header
    /// does not depend on the destination field of its IPv6 header, the
    /// next hop: writing any address there leaves it as it was.
    pub proof fn law_pseudo_header_ignores_next_hop(
        before: SegmentRouting<Ipv6>,
        after: SegmentRouting<Ipv6>,
        hop: Ipv6Addr,
        packet_len: u16,
        protocol: ProtocolNumber,
    )
        requires
            before.inv(),
            after.inv(),
            after.spec_offset() == before.spec_offset(),
            after.spec_envelope().spec_offset() == before.spec_envelope().spec_offset(),
            after.spec_mbuf().view() == splice(
                before.spec_mbuf().view(),
                before.spec_envelope().spec_offset() + 24,
                v6_bytes(hop.0@),
            ),
        ensures
            after.spec_pseudo_header(packet_len, protocol) == before.spec_pseudo_header(packet_len, protocol),
    {
        before.lemma_envelope();
        after.lemma_envelope();
        before.lemma_inv();
        let e = before.spec_envelope().spec_offset();
        let a = before.spec_mbuf().view();
        let b = after.spec_mbuf().view();
        assert(before.spec_offset() == e + 40);
        assert(v6_segments_at(b, e + 8int) =~= v6_segments_at(a, e + 8int));
        assert(v6_segments_at(b, before.spec_offset() + 8int) =~= v6_segments_at(
            a,
            before.spec_offset() + 8int,
        ));
        assert(before.spec_segments()[0] =~= after.spec_segments()[0]);
    }
}

} // verus!
