//! UDP datagrams (RFC 768).
//!
//! ```text
//!  0      7 8     15 16    23 24    31
//! +--------+--------+--------+--------+
//! |     Source      |   Destination   |
//! |      Port       |      Port       |
//! +--------+--------+--------+--------+
//! |     Length      |    Checksum     |
//! +--------+--------+--------+--------+
//! |          data octets ...
//! ```
//!
//! A computed checksum of zero is sent as all ones; a checksum field of
//! zero means that the sender computed none.
use crate::packets::buffer::{dealloc_spec, read_item, read_spec, BufferError};
use crate::packets::checksum::{
    checksum_spec, compute, compute_with_ipaddr, fold16, inc_spec, ip_words, pseudo_header_raw_sum,
};
use crate::packets::ip::ProtocolNumbers;
use crate::packets::ip::{is_v6, Flow, IpAddr, IpPacket, ProtocolNumber};
use crate::packets::mbuf::{be16, be16_bytes, splice, u16_to_be, MBuf};
use crate::packets::{resize_fails, resize_spec, Fixed, Header, Packet, PacketError, ParsedPacket};
use crate::text::{dec_text, push_dec, push_str};
use vstd::prelude::*;

verus! {

/// UDP header
#[derive(Debug, Default, Copy, Clone)]
pub struct UdpHeader {
    src_port: u16,
    dst_port: u16,
    length: u16,
    checksum: u16,
}

impl Fixed for UdpHeader {
    open spec fn spec_size() -> nat {
        8
    }

    closed spec fn spec_bytes(&self) -> Seq<u8> {
        be16_bytes(self.src_port) + be16_bytes(self.dst_port) + be16_bytes(self.length)
            + be16_bytes(self.checksum)
    }

    fn size() -> (r: usize) {
        8
    }

    fn to_bytes(&self) -> (r: Vec<u8>) {
        let a = u16_to_be(self.src_port);
        let b = u16_to_be(self.dst_port);
        let c = u16_to_be(self.length);
        let d = u16_to_be(self.checksum);
        let v = vec![a[0], a[1], b[0], b[1], c[0], c[1], d[0], d[1]];
        assert(v@ =~= self.spec_bytes());
        v
    }

    proof fn lemma_bytes_len(&self) {
    }
}

impl Header for UdpHeader {

}

/// The checksum field for a computed checksum `c`: zero is sent as all ones.
pub open spec fn udp_checksum_field(c: u16) -> u16 {
    if c == 0 {
        0xffff
    } else {
        c
    }
}

/// UDP packet
#[derive(Debug)]
pub struct Udp<E: IpPacket> {
    envelope: E,
    offset: usize,
}

impl<E: IpPacket> Udp<E> {
    /// The header octet at `i`.
    pub open spec fn spec_byte(&self, i: int) -> u8 {
        self.spec_mbuf().view()[self.spec_offset() + i]
    }

    pub open spec fn spec_src_port(&self) -> u16 {
        be16(self.spec_mbuf().view(), self.spec_offset() as int)
    }

    pub open spec fn spec_dst_port(&self) -> u16 {
        be16(self.spec_mbuf().view(), self.spec_offset() + 2int)
    }

    pub open spec fn spec_length(&self) -> u16 {
        be16(self.spec_mbuf().view(), self.spec_offset() + 4int)
    }

    pub open spec fn spec_checksum(&self) -> u16 {
        be16(self.spec_mbuf().view(), self.spec_offset() + 6int)
    }

    /// The datagram, header and payload, with the checksum field taken as zero.
    pub open spec fn spec_zeroed_segment(&self) -> Seq<u8> {
        splice(self.spec_mbuf().view(), self.spec_offset() + 6, seq![0u8, 0]).skip(
            self.spec_offset() as int,
        )
    }

    fn read_be16(&self, i: usize) -> (r: u16)
        requires
            self.inv(),
            i + 2 <= 8,
        ensures
            r == be16(self.spec_mbuf().view(), self.spec_offset() + i),
    {
        proof {
            self.lemma_inv();
        }
        self.envelope.mbuf().read_be16(self.offset + i)
    }

    fn set_u16(&mut self, i: usize, v: u16)
        requires
            old(self).inv(),
            i + 2 <= 8,
        ensures
            forall|v: Seq<u8>| #[trigger] final(self).spec_envelope().spec_cascade_view(v) == old(self).spec_envelope().spec_cascade_view(v),
            final(self).inv(),
            final(self).spec_mbuf().view() == splice(
                old(self).spec_mbuf().view(),
                (old(self).spec_offset() + i) as nat,
                be16_bytes(v),
            ),
            be16(final(self).spec_mbuf().view(), final(self).spec_offset() + i) == v,
            final(self).spec_offset() == old(self).spec_offset(),
            final(self).spec_envelope().spec_src() == old(self).spec_envelope().spec_src(),
            final(self).spec_envelope().spec_dst() == old(self).spec_envelope().spec_dst(),
            forall|l: u16, p: ProtocolNumber| #[trigger] final(self).spec_envelope().spec_pseudo_header(l, p)
                == old(self).spec_envelope().spec_pseudo_header(l, p),
            final(self).spec_mbuf().spec_headroom() == old(self).spec_mbuf().spec_headroom(),
            final(self).spec_mbuf().spec_tailroom() == old(self).spec_mbuf().spec_tailroom(),
    {
        proof {
            self.lemma_inv();
            self.envelope.lemma_inv();
        }
        let b = u16_to_be(v);
        let pos = self.offset + i;
        self.envelope.write_payload(pos, b.as_slice());
        proof {
            crate::packets::mbuf::lemma_be16_roundtrip(
                old(self).spec_mbuf().view(),
                (old(self).spec_offset() + i) as nat,
                v,
            );
        }
    }

    #[inline]
    pub fn src_port(&self) -> (r: u16)
        requires
            self.inv(),
        ensures
            r == self.spec_src_port(),
    {
        self.read_be16(0)
    }

    #[inline]
    pub fn set_src_port(&mut self, src_port: u16)
        requires
            old(self).inv(),
        ensures
            final(self).inv(),
            final(self).spec_mbuf().view() == splice(
                old(self).spec_mbuf().view(),
                old(self).spec_offset() + 0,
                be16_bytes(src_port),
            ),
            final(self).spec_src_port() == src_port,
            final(self).spec_offset() == old(self).spec_offset(),
            final(self).spec_mbuf().spec_headroom() == old(self).spec_mbuf().spec_headroom(),
            final(self).spec_mbuf().spec_tailroom() == old(self).spec_mbuf().spec_tailroom(),
    {
        self.set_u16(0, src_port);
    }

    #[inline]
    pub fn dst_port(&self) -> (r: u16)
        requires
            self.inv(),
        ensures
            r == self.spec_dst_port(),
    {
        self.read_be16(2)
    }

    #[inline]
    pub fn set_dst_port(&mut self, dst_port: u16)
        requires
            old(self).inv(),
        ensures
            final(self).inv(),
            final(self).spec_mbuf().view() == splice(
                old(self).spec_mbuf().view(),
                old(self).spec_offset() + 2,
                be16_bytes(dst_port),
            ),
            final(self).spec_dst_port() == dst_port,
            final(self).spec_offset() == old(self).spec_offset(),
            final(self).spec_mbuf().spec_headroom() == old(self).spec_mbuf().spec_headroom(),
            final(self).spec_mbuf().spec_tailroom() == old(self).spec_mbuf().spec_tailroom(),
    {
        self.set_u16(2, dst_port);
    }

    #[inline]
    pub fn length(&self) -> (r: u16)
        requires
            self.inv(),
        ensures
            r == self.spec_length(),
    {
        self.read_be16(4)
    }

    #[inline]
    fn set_length(&mut self, length: u16)
        requires
            old(self).inv(),
        ensures
            final(self).inv(),
            final(self).spec_mbuf().view() == splice(
                old(self).spec_mbuf().view(),
                old(self).spec_offset() + 4,
                be16_bytes(length),
            ),
            final(self).spec_length() == length,
            final(self).spec_offset() == old(self).spec_offset(),
            final(self).spec_mbuf().spec_headroom() == old(self).spec_mbuf().spec_headroom(),
            final(self).spec_mbuf().spec_tailroom() == old(self).spec_mbuf().spec_tailroom(),
    {
        self.set_u16(4, length);
    }

    #[inline]
    pub fn checksum(&self) -> (r: u16)
        requires
            self.inv(),
        ensures
            r == self.spec_checksum(),
    {
        self.read_be16(6)
    }

    /// Sets the checksum field to `checksum`, or to all ones where
    /// `checksum` is zero: a zero field means that no checksum was computed,
    /// which `no_checksum` sets.
    #[inline]
    fn set_checksum(&mut self, checksum: u16)
        requires
            old(self).inv(),
        ensures
            forall|v: Seq<u8>| #[trigger] final(self).spec_envelope().spec_cascade_view(v) == old(self).spec_envelope().spec_cascade_view(v),
            final(self).inv(),
            final(self).spec_mbuf().view() == splice(
                old(self).spec_mbuf().view(),
                old(self).spec_offset() + 6,
                be16_bytes(udp_checksum_field(checksum)),
            ),
            final(self).spec_checksum() == udp_checksum_field(checksum),
            final(self).spec_offset() == old(self).spec_offset(),
            final(self).spec_envelope().spec_src() == old(self).spec_envelope().spec_src(),
            final(self).spec_envelope().spec_dst() == old(self).spec_envelope().spec_dst(),
            forall|l: u16, p: ProtocolNumber| #[trigger] final(self).spec_envelope().spec_pseudo_header(l, p)
                == old(self).spec_envelope().spec_pseudo_header(l, p),
            final(self).spec_mbuf().spec_headroom() == old(self).spec_mbuf().spec_headroom(),
            final(self).spec_mbuf().spec_tailroom() == old(self).spec_mbuf().spec_tailroom(),
    {
        if checksum == 0 {
            self.set_u16(6, 0xffff);
        } else {
            self.set_u16(6, checksum);
        }
    }

    /// Sets checksum to 0 indicating no checksum generated
    #[inline]
    pub fn no_checksum(&mut self)
        requires
            old(self).inv(),
        ensures
            forall|v: Seq<u8>| #[trigger] final(self).spec_envelope().spec_cascade_view(v) == old(self).spec_envelope().spec_cascade_view(v),
            final(self).inv(),
            final(self).spec_mbuf().view() == splice(
                old(self).spec_mbuf().view(),
                old(self).spec_offset() + 6,
                seq![0u8, 0],
            ),
            final(self).spec_checksum() == 0,
            final(self).spec_offset() == old(self).spec_offset(),
            final(self).spec_envelope().spec_src() == old(self).spec_envelope().spec_src(),
            final(self).spec_envelope().spec_dst() == old(self).spec_envelope().spec_dst(),
            forall|l: u16, p: ProtocolNumber| #[trigger] final(self).spec_envelope().spec_pseudo_header(l, p)
                == old(self).spec_envelope().spec_pseudo_header(l, p),
            final(self).spec_mbuf().spec_headroom() == old(self).spec_mbuf().spec_headroom(),
            final(self).spec_mbuf().spec_tailroom() == old(self).spec_mbuf().spec_tailroom(),
    {
        self.set_u16(6, 0);
        assert(be16_bytes(0u16) =~= seq![0u8, 0]);
    }

    /// The flow of the segment: addresses, ports and protocol.
    #[inline]
    pub fn flow(&self) -> (r: Flow)
        requires
            self.inv(),
        ensures
            r.spec_src_ip() == self.spec_envelope().spec_src(),
            r.spec_dst_ip() == self.spec_envelope().spec_dst(),
            r.spec_src_port() == self.spec_src_port(),
            r.spec_dst_port() == self.spec_dst_port(),
            r.spec_protocol().0 == 0x11,
    {
        proof {
            self.lemma_inv();
            self.envelope.lemma_inv();
        }
        Flow::new(
            self.envelope.src(),
            self.envelope.dst(),
            self.src_port(),
            self.dst_port(),
            ProtocolNumbers::Udp(),
        )
    }

    /// Sets the layer-3 source address and recomputes the checksum
    #[inline]
    pub fn set_src_ip(&mut self, src_ip: IpAddr) -> (r: Result<(), PacketError>)
        requires
            old(self).inv(),
        ensures
            final(self).inv(),
            final(self).spec_offset() == old(self).spec_offset(),
            (r is Ok) == (is_v6(src_ip) == is_v6(old(self).spec_envelope().spec_src())),
            r is Ok ==> {
                &&& final(self).spec_envelope().spec_src() == src_ip
                &&& final(self).spec_envelope().spec_dst() == old(self).spec_envelope().spec_dst()
                &&& final(self).spec_checksum() == udp_checksum_field(inc_spec(
                    old(self).spec_checksum(),
                    ip_words(old(self).spec_envelope().spec_src()),
                    ip_words(src_ip),
                ))
                &&& final(self).spec_mbuf().view().skip(final(self).spec_offset() as int) == splice(
                    old(self).spec_mbuf().view(),
                    old(self).spec_offset() + 6,
                    be16_bytes(final(self).spec_checksum()),
                ).skip(old(self).spec_offset() as int)
            },
            r is Err ==> (r matches Err(PacketError::IpAddrMismatch(_)) && final(self).spec_mbuf().view()
                == old(self).spec_mbuf().view()),
    {
        proof {
            self.lemma_inv();
            self.envelope.lemma_inv();
            self.envelope.lemma_addr_version();
        }
        let old_ip = self.envelope.src();
        let checksum = match compute_with_ipaddr(self.checksum(), &old_ip, &src_ip) {
            Ok(c) => c,
            Err(e) => {
                return Err(PacketError::IpAddrMismatch(e));
            },
        };
        let ghost mid = self.spec_mbuf().view();
        match self.envelope.set_src(src_ip) {
            Ok(_) => {},
            Err(e) => {
                return Err(e);
            },
        }
        self.set_checksum(checksum);
        proof {
            let a = old(self).spec_mbuf().view();
            let b = self.spec_mbuf().view();
            assert(b.skip(self.offset as int) =~= splice(a, (self.offset + 6) as nat, be16_bytes(udp_checksum_field(checksum))).skip(
                self.offset as int,
            ));
        }
        Ok(())
    }

    /// Sets the layer-3 destination address and recomputes the checksum
    #[inline]
    pub fn set_dst_ip(&mut self, dst_ip: IpAddr) -> (r: Result<(), PacketError>)
        requires
            old(self).inv(),
        ensures
            final(self).inv(),
            final(self).spec_offset() == old(self).spec_offset(),
            (r is Ok) == (is_v6(dst_ip) == is_v6(old(self).spec_envelope().spec_dst())),
            r is Ok ==> {
                &&& final(self).spec_envelope().spec_dst() == old(self).spec_envelope().spec_dst_after(dst_ip)
                &&& final(self).spec_envelope().spec_src() == old(self).spec_envelope().spec_src()
                &&& final(self).spec_checksum() == udp_checksum_field(inc_spec(
                    old(self).spec_checksum(),
                    ip_words(old(self).spec_envelope().spec_dst()),
                    ip_words(dst_ip),
                ))
                &&& final(self).spec_mbuf().view().skip(final(self).spec_offset() as int) == splice(
                    old(self).spec_mbuf().view(),
                    old(self).spec_offset() + 6,
                    be16_bytes(final(self).spec_checksum()),
                ).skip(old(self).spec_offset() as int)
            },
            r is Err ==> (r matches Err(PacketError::IpAddrMismatch(_)) && final(self).spec_mbuf().view()
                == old(self).spec_mbuf().view()),
    {
        proof {
            self.lemma_inv();
            self.envelope.lemma_inv();
            self.envelope.lemma_addr_version();
        }
        let old_ip = self.envelope.dst();
        let checksum = match compute_with_ipaddr(self.checksum(), &old_ip, &dst_ip) {
            Ok(c) => c,
            Err(e) => {
                return Err(PacketError::IpAddrMismatch(e));
            },
        };
        match self.envelope.set_dst(dst_ip) {
            Ok(_) => {},
            Err(e) => {
                return Err(e);
            },
        }
        self.set_checksum(checksum);
        proof {
            let a = old(self).spec_mbuf().view();
            let b = self.spec_mbuf().view();
            assert(b.skip(self.offset as int) =~= splice(a, (self.offset + 6) as nat, be16_bytes(udp_checksum_field(checksum))).skip(
                self.offset as int,
            ));
        }
        Ok(())
    }

    /// The checksum of the segment as it stands, with the checksum field
    /// taken as zero, under the envelope's pseudo header.
    pub open spec fn spec_computed_checksum(&self) -> u16 {
        checksum_spec(
            fold16(
                pseudo_header_raw_sum(
                    self.spec_envelope().spec_pseudo_header(
                        (self.spec_mbuf().view().len() - self.spec_offset()) as u16,
                        ProtocolNumber(0x11),
                    ),
                ),
            ) as u16,
            self.spec_zeroed_segment(),
        )
    }

    /// The checksum field for the datagram in the bytes `v`: the checksum
    /// over it, with the checksum field taken as zero, under the envelope's
    /// pseudo header, with zero sent as all ones.
    pub closed spec fn checksum_field_of(&self, v: Seq<u8>) -> u16 {
        udp_checksum_field(
            checksum_spec(
                fold16(
                    pseudo_header_raw_sum(
                        self.envelope.spec_pseudo_header(
                            (v.len() - self.offset) as u16,
                            ProtocolNumber(0x11),
                        ),
                    ),
                ) as u16,
                splice(v, (self.offset + 6) as nat, seq![0u8, 0]).skip(self.offset as int),
            ),
        )
    }

    /// Recomputes the checksum over the pseudo header and the datagram.
    fn compute_checksum(&mut self)
        requires
            old(self).inv(),
        ensures
            forall|v: Seq<u8>| #[trigger] final(self).spec_envelope().spec_cascade_view(v) == old(self).spec_envelope().spec_cascade_view(v),
            final(self).inv(),
            final(self).spec_offset() == old(self).spec_offset(),
            final(self).spec_mbuf().view() == splice(
                old(self).spec_mbuf().view(),
                old(self).spec_offset() + 6,
                be16_bytes(udp_checksum_field(old(self).spec_computed_checksum())),
            ),
            final(self).spec_mbuf().spec_headroom() == old(self).spec_mbuf().spec_headroom(),
            final(self).spec_mbuf().spec_tailroom() == old(self).spec_mbuf().spec_tailroom(),
    {
        proof {
            self.lemma_inv();
        }
        self.no_checksum();
        proof {
            self.lemma_inv();
        }
        let len = self.len();
        let data = self.envelope.mbuf().read_bytes(self.offset, len);
        let ph = self.envelope.pseudo_header(len as u16, ProtocolNumbers::Udp());
        let sum = ph.sum();
        proof {
            crate::packets::checksum::lemma_fold16(
                pseudo_header_raw_sum(
                    old(self).spec_envelope().spec_pseudo_header(len as u16, ProtocolNumber(0x11)),
                ),
            );
            assert(data@ =~= old(self).spec_zeroed_segment());
        }
        let c = compute(sum, data.as_slice());
        self.set_checksum(c);
        proof {
            assert(self.spec_mbuf().view() =~= splice(
                old(self).spec_mbuf().view(),
                old(self).spec_offset() + 6,
                be16_bytes(udp_checksum_field(c)),
            ));
        }
    }

    /// The fields of the header, as text.
    pub fn to_string(&self) -> (r: String)
        requires
            self.inv(),
        ensures
            r@ == "src_port: "@ + dec_text(self.spec_src_port() as nat) + ", dst_port: "@
                + dec_text(self.spec_dst_port() as nat) + ", length: "@ + dec_text(
                self.spec_length() as nat,
            ) + ", checksum: "@ + dec_text(self.spec_checksum() as nat),
    {
        let mut s = String::from_str("src_port: ");
        push_dec(&mut s, self.src_port() as u64);
        push_str(&mut s, ", dst_port: ");
        push_dec(&mut s, self.dst_port() as u64);
        push_str(&mut s, ", length: ");
        push_dec(&mut s, self.length() as u64);
        push_str(&mut s, ", checksum: ");
        push_dec(&mut s, self.checksum() as u64);
        proof {
            reveal_strlit("src_port: ");
        }
        s
    }
}

impl<E: IpPacket> Udp<E> {
    /// A UDP datagram's cascade writes its length into the length field,
    /// then the checksum field computed over the datagram so changed, then
    /// runs the envelope's cascade; over the bytes the buffer holds, that
    /// field is the one that `spec_computed_checksum` gives.
    pub proof fn lemma_cascade_view(&self)
        ensures
            forall|v: Seq<u8>| #[trigger] self.spec_cascade_view(v) == self.spec_envelope().spec_cascade_view(
                splice(
                    splice(v, self.spec_offset() + 4, be16_bytes((v.len() - self.spec_offset()) as u16)),
                    self.spec_offset() + 6,
                    be16_bytes(self.checksum_field_of(
                        splice(v, self.spec_offset() + 4, be16_bytes((v.len() - self.spec_offset()) as u16)),
                    )),
                ),
            ),
            self.checksum_field_of(self.spec_mbuf().view()) == udp_checksum_field(self.spec_computed_checksum()),
    {
    }
}

impl<E: IpPacket> Packet for Udp<E> {
    /// The length set to the bytes from the header on, the checksum field
    /// computed over the datagram so changed, then the envelope's cascade.
    closed spec fn spec_cascade_view(&self, v: Seq<u8>) -> Seq<u8> {
        let v1 = splice(v, (self.offset + 4) as nat, be16_bytes((v.len() - self.offset) as u16));
        self.envelope.spec_cascade_view(
            splice(v1, (self.offset + 6) as nat, be16_bytes(self.checksum_field_of(v1))),
        )
    }

    closed spec fn spec_mbuf(&self) -> MBuf {
        self.envelope.spec_mbuf()
    }

    closed spec fn spec_offset(&self) -> nat {
        self.offset as nat
    }

    open spec fn spec_header_len(&self) -> nat {
        8
    }

    closed spec fn inv(&self) -> bool {
        &&& self.envelope.inv()
        &&& self.offset == self.envelope.spec_offset() + self.envelope.spec_header_len()
        &&& self.offset + 8 <= self.envelope.spec_mbuf().view().len()
    }

    proof fn lemma_inv(&self) {
        self.envelope.lemma_inv();
        assert(self.spec_header_len() == 8);
        assert(self.spec_offset() + self.spec_header_len() <= self.spec_mbuf().view().len());
    }

    fn mbuf(&self) -> (r: &MBuf) {
        self.envelope.mbuf()
    }

    fn offset(&self) -> (r: usize) {
        self.offset
    }

    fn header_len(&self) -> (r: usize) {
        8
    }

    fn write_bytes(&mut self, pos: usize, bytes: &[u8]) {
        proof {
            self.envelope.lemma_inv();
        }
        self.envelope.write_bytes(pos, bytes);
    }

    fn resize(&mut self, pos: usize, len: isize) -> (r: Result<(), BufferError>) {
        let ghost before = self.spec_mbuf().view();
        proof {
            self.envelope.lemma_inv();
        }
        let r = self.envelope.resize(pos, len);
        proof {
            if r is Ok && pos <= before.len() {
                crate::packets::lemma_resize_len(before, pos as nat, len as int);
            }
        }
        r
    }

    /// Sets the length field, recomputes the checksum, then cascades to
    /// the envelope.
    fn cascade(&mut self)
        ensures
            final(self).spec_length() == (old(self).spec_mbuf().view().len() - old(self).spec_offset()) as u16,
            final(self).spec_checksum() == udp_checksum_field(checksum_spec(
                fold16(
                    pseudo_header_raw_sum(
                        old(self).spec_envelope().spec_pseudo_header(
                            (old(self).spec_mbuf().view().len() - old(self).spec_offset()) as u16,
                            ProtocolNumber(0x11),
                        ),
                    ),
                ) as u16,
                splice(
                    splice(
                        old(self).spec_mbuf().view(),
                        old(self).spec_offset() + 4,
                        be16_bytes((old(self).spec_mbuf().view().len() - old(self).spec_offset()) as u16),
                    ),
                    old(self).spec_offset() + 6,
                    seq![0u8, 0],
                ).skip(old(self).spec_offset() as int),
            )),
    {
        proof {
            self.lemma_inv();
            self.spec_mbuf().lemma_len_bound();
        }
        let len = self.len() as u16;
        self.set_u16(4, len);
        let ghost st1 = *self;
        let ghost s1 = self.spec_mbuf().view();
        proof {
            self.lemma_inv();
        }
        self.compute_checksum();
        let ghost mid = self.spec_mbuf().view();
        proof {
            let v0 = old(self).spec_mbuf().view();
            let n = (v0.len() - self.offset) as u16;
            assert(st1.spec_envelope().spec_pseudo_header(n, ProtocolNumber(0x11))
                == old(self).spec_envelope().spec_pseudo_header(n, ProtocolNumber(0x11)));
            assert(old(self).checksum_field_of(s1) == udp_checksum_field(st1.spec_computed_checksum()));
            assert(old(self).spec_cascade_view(v0) == old(self).envelope.spec_cascade_view(mid));
            assert(st1.spec_envelope().spec_cascade_view(mid) == old(self).spec_envelope().spec_cascade_view(mid));
            assert(self.spec_envelope().spec_cascade_view(mid) == st1.spec_envelope().spec_cascade_view(mid));
            self.envelope.lemma_inv();
            crate::packets::mbuf::lemma_be16_roundtrip(s1, self.offset as nat + 6, udp_checksum_field(
                st1.spec_computed_checksum(),
            ));
            assert(be16(mid, self.offset + 4) == len) by {
                assert(mid[self.offset + 4] == s1[self.offset + 4]);
                assert(mid[self.offset + 5] == s1[self.offset + 5]);
            }
        }
        self.envelope.cascade();
        proof {
            let f = self.spec_mbuf().view();
            assert(forall|i: int| self.offset <= i < f.len() ==> f[i] == mid[i]);
            assert(self.spec_checksum() == be16(mid, self.offset + 6));
            assert(self.spec_length() == be16(mid, self.offset + 4));
        }
    }

    fn into_mbuf(self) -> (r: MBuf) {
        proof {
            self.envelope.lemma_inv();
        }
        self.envelope.into_mbuf()
    }
}

impl<E: IpPacket> ParsedPacket for Udp<E> {
    type Envelope = E;

    open spec fn spec_parses(envelope: E) -> bool {
        read_spec(
            envelope.spec_mbuf().view().len(),
            envelope.spec_offset() + envelope.spec_header_len(),
            8,
        ) is Ok
    }

    open spec fn spec_default_header(envelope: E) -> Seq<u8> {
        crate::packets::mbuf::zeros(8)
    }


    closed spec fn spec_envelope(&self) -> E {
        self.envelope
    }

    proof fn lemma_envelope(&self) {
    }

    fn envelope(&self) -> (r: &E) {
        &self.envelope
    }

    fn deparse(self) -> (r: E) {
        self.envelope
    }

    fn do_parse(envelope: E) -> (r: Result<Self, PacketError>)
        ensures
            match read_spec(
                envelope.spec_mbuf().view().len(),
                envelope.spec_offset() + envelope.spec_header_len(),
                8,
            ) {
                Ok(_) => r matches Ok(p) && p.spec_offset() == envelope.spec_offset()
                    + envelope.spec_header_len(),
                Err(e) => r matches Err(PacketError::Buffer(e2)) && e2 == e,
            },
    {
        proof {
            envelope.lemma_inv();
        }
        let offset = envelope.payload_offset();
        match read_item::<UdpHeader>(envelope.mbuf(), offset) {
            Ok(_) => Ok(Udp { envelope, offset }),
            Err(e) => Err(PacketError::Buffer(e)),
        }
    }

    fn do_push(envelope: E) -> (r: Result<Self, PacketError>)
        ensures
            ({
                let d = envelope.spec_mbuf().view();
                let po = envelope.spec_offset() + envelope.spec_header_len();
                &&& !resize_fails(envelope.spec_mbuf(), po, 8) ==> (r matches Ok(p)
                    && p.spec_mbuf().view() == splice(resize_spec(d, po, 8), po, crate::packets::mbuf::zeros(8))
                    && p.spec_envelope().spec_src() == envelope.spec_src()
                    && p.spec_envelope().spec_dst() == envelope.spec_dst())
                &&& resize_fails(envelope.spec_mbuf(), po, 8) ==> r matches Err(
                    PacketError::Buffer(BufferError::NotResized),
                )
            }),
    {
        let mut envelope = envelope;
        proof {
            envelope.lemma_inv();
        }
        let offset = envelope.payload_offset();
        let ghost before = envelope.spec_mbuf().view();
        match envelope.resize_payload(offset, 8) {
            Ok(_) => {},
            Err(e) => {
                return Err(PacketError::Buffer(e));
            },
        }
        proof {
            crate::packets::lemma_resize_len(before, offset as nat, 8);
        }
        let header = UdpHeader { src_port: 0, dst_port: 0, length: 0, checksum: 0 };
        let bytes = header.to_bytes();
        assert(bytes@ =~= crate::packets::mbuf::zeros(8));
        envelope.write_payload(offset, bytes.as_slice());
        Ok(Udp { envelope, offset })
    }

    fn remove(self) -> (r: Result<E, PacketError>)
        ensures
            r matches Ok(e) && e.spec_mbuf().view() == dealloc_spec(
                self.spec_mbuf().view(),
                self.spec_offset(),
                8,
            ) && e.spec_src() == self.spec_envelope().spec_src() && e.spec_dst()
                == self.spec_envelope().spec_dst(),
    {
        proof {
            self.lemma_inv();
        }
        let mut envelope = self.envelope;
        let offset = self.offset;
        proof {
            envelope.lemma_inv();
        }
        match envelope.resize_payload(offset, -8) {
            Ok(_) => Ok(envelope),
            Err(e) => Err(PacketError::Buffer(e)),
        }
    }
}

} // verus!
