//! Internet protocol numbers, addresses and flows.
use crate::packets::checksum::PseudoHeader;
use crate::packets::buffer::BufferError;
use crate::packets::mbuf::splice;
use crate::packets::{resize_fails, resize_spec, Fixed, Packet, PacketError};
use crate::text::{dec_text, hex_min_text, hex_text, push_dec, push_hex, push_str};
use vstd::prelude::*;

pub mod v4;
pub mod v6;

#[allow(non_snake_case)]
pub mod ProtocolNumbers;

verus! {

/// An IPv4 address, held as its four octets in network order.
#[derive(Clone, Copy, Debug, PartialEq, Eq, Hash)]
pub struct Ipv4Addr(pub [u8; 4]);

/// An IPv6 address, held as its eight 16-bit segments in network order.
#[derive(Clone, Copy, Debug, PartialEq, Eq, Hash)]
pub struct Ipv6Addr(pub [u16; 8]);

/// An IPv4 or an IPv6 address.
#[derive(Clone, Copy, Debug, PartialEq, Eq, Hash)]
pub enum IpAddr {
    V4(Ipv4Addr),
    V6(Ipv6Addr),
}

impl Ipv4Addr {
    /// The unspecified address `0.0.0.0`.
    pub fn unspecified() -> (r: Ipv4Addr)
        ensures
            r.0@ == seq![0u8, 0, 0, 0],
    {
        let r = Ipv4Addr([0, 0, 0, 0]);
        assert(r.0@ =~= seq![0u8, 0, 0, 0]);
        r
    }

    /// The address as one 32-bit number, the first octet most significant.
    pub open spec fn spec_to_u32(self) -> nat {
        (self.0[0] as nat) * 0x100_0000 + (self.0[1] as nat) * 0x1_0000 + (self.0[2] as nat) * 0x100
            + self.0[3] as nat
    }

    /// The address as one 32-bit number, the first octet most significant.
    pub fn to_u32(&self) -> (r: u32)
        ensures
            r == self.spec_to_u32(),
    {
        (self.0[0] as u32) * 0x100_0000 + (self.0[1] as u32) * 0x1_0000 + (self.0[2] as u32) * 0x100
            + self.0[3] as u32
    }

    /// The four octets of the address.
    pub fn octets(&self) -> (r: [u8; 4])
        ensures
            r@ == self.0@,
    {
        self.0
    }
}

/// The dotted decimal text of an IPv4 address.
pub open spec fn ipv4_text(o: Seq<u8>) -> Seq<char> {
    dec_text(o[0] as nat) + "."@ + dec_text(o[1] as nat) + "."@ + dec_text(o[2] as nat) + "."@
        + dec_text(o[3] as nat)
}

impl Ipv4Addr {
    /// The address in dotted decimal notation.
    pub fn to_string(&self) -> (r: String)
        ensures
            r@ == ipv4_text(self.0@),
    {
        let mut s = String::new();
        push_dec(&mut s, self.0[0] as u64);
        push_str(&mut s, ".");
        push_dec(&mut s, self.0[1] as u64);
        push_str(&mut s, ".");
        push_dec(&mut s, self.0[2] as u64);
        push_str(&mut s, ".");
        push_dec(&mut s, self.0[3] as u64);
        assert(s@ =~= ipv4_text(self.0@));
        s
    }
}

impl Ipv6Addr {
    /// The unspecified address `::`.
    pub fn unspecified() -> (r: Ipv6Addr)
        ensures
            r.0@ == Seq::new(8, |i: int| 0u16),
    {
        let r = Ipv6Addr([0, 0, 0, 0, 0, 0, 0, 0]);
        assert(r.0@ =~= Seq::new(8, |i: int| 0u16));
        r
    }

    /// The eight 16-bit segments of the address.
    pub fn segments(&self) -> (r: [u16; 8])
        ensures
            r@ == self.0@,
    {
        self.0
    }
}

/// The number of zero segments in a row from `i` on.
pub open spec fn zero_run(s: Seq<u16>, i: int) -> nat
    decreases s.len() - i,
{
    if 0 <= i < s.len() && s[i] == 0 {
        1 + zero_run(s, i + 1)
    } else {
        0
    }
}

/// The start and length of the first of the longest runs of zero segments
/// that start before `i`; `(0, 0)` where there is none.
pub open spec fn longest_zero_run(s: Seq<u16>, i: int) -> (int, nat)
    decreases i,
{
    if i <= 0 {
        (0, 0)
    } else {
        let best = longest_zero_run(s, i - 1);
        if zero_run(s, i - 1) > best.1 {
            (i - 1, zero_run(s, i - 1))
        } else {
            best
        }
    }
}

/// Segments in minimal hexadecimal, separated by colons.
pub open spec fn segments_text(s: Seq<u16>) -> Seq<char>
    decreases s.len(),
{
    if s.len() == 0 {
        Seq::empty()
    } else if s.len() == 1 {
        hex_min_text(s[0] as nat)
    } else {
        segments_text(s.drop_last()) + ":"@ + hex_min_text(s.last() as nat)
    }
}

/// The text of an IPv6 address (RFC 5952): an IPv4-mapped address as
/// `::ffff:` and the dotted IPv4 address; otherwise the segments in
/// hexadecimal, the first of the longest runs of two or more zero segments
/// written as `::`.
pub open spec fn ipv6_text(s: Seq<u16>) -> Seq<char> {
    if s[0] == 0 && s[1] == 0 && s[2] == 0 && s[3] == 0 && s[4] == 0 && s[5] == 0xffff {
        "::ffff:"@ + ipv4_text(
            seq![(s[6] / 256) as u8, (s[6] % 256) as u8, (s[7] / 256) as u8, (s[7] % 256) as u8],
        )
    } else {
        let run = longest_zero_run(s, 8);
        if run.1 > 1 {
            segments_text(s.subrange(0, run.0)) + "::"@ + segments_text(
                s.subrange(run.0 + run.1, 8),
            )
        } else {
            segments_text(s)
        }
    }
}

/// A run of zeros never reaches past the end.
proof fn lemma_zero_run_bound(s: Seq<u16>, i: int)
    requires
        0 <= i <= s.len(),
    ensures
        i + zero_run(s, i) <= s.len(),
    decreases s.len() - i,
{
    if i < s.len() {
        lemma_zero_run_bound(s, i + 1);
    }
}

/// The longest run found before `i` lies within the segments.
proof fn lemma_longest_zero_run_bound(s: Seq<u16>, i: int)
    requires
        0 <= i <= s.len(),
    ensures
        0 <= longest_zero_run(s, i).0,
        longest_zero_run(s, i).0 + longest_zero_run(s, i).1 <= s.len(),
    decreases i,
{
    if i > 0 {
        lemma_longest_zero_run_bound(s, i - 1);
        lemma_zero_run_bound(s, i - 1);
    }
}

/// Appends the segments `s[from..to]` in minimal hexadecimal, separated by
/// colons.
fn push_segments(out: &mut String, s: &[u16; 8], from: usize, to: usize)
    requires
        from <= to <= 8,
    ensures
        final(out)@ == old(out)@ + segments_text(s@.subrange(from as int, to as int)),
{
    let mut i: usize = from;
    while i < to
        invariant
            from <= i <= to <= 8,
            out@ == old(out)@ + segments_text(s@.subrange(from as int, i as int)),
        decreases to - i,
    {
        let ghost prev = out@;
        if i > from {
            push_str(out, ":");
        }
        crate::text::push_hex_min(out, s[i] as u64);
        proof {
            let t = s@.subrange(from as int, i + 1);
            assert(t.drop_last() =~= s@.subrange(from as int, i as int));
            if i == from {
                assert(s@.subrange(from as int, i as int) =~= Seq::<u16>::empty());
                assert(out@ =~= old(out)@ + segments_text(t));
            } else {
                assert(out@ =~= old(out)@ + segments_text(t));
            }
        }
        i = i + 1;
    }
}

impl Ipv6Addr {
    /// The address in the text form of RFC 5952.
    pub fn to_string(&self) -> (r: String)
        ensures
            r@ == ipv6_text(self.0@),
    {
        let s = &self.0;
        if s[0] == 0 && s[1] == 0 && s[2] == 0 && s[3] == 0 && s[4] == 0 && s[5] == 0xffff {
            let v4 = Ipv4Addr(
                [(s[6] / 256) as u8, (s[6] % 256) as u8, (s[7] / 256) as u8, (s[7] % 256) as u8],
            );
            let mut out = String::from_str("::ffff:");
            let t = v4.to_string();
            out.append(t.as_str());
            proof {
                reveal_strlit("::ffff:");
                assert(v4.0@ =~= seq![
                    (s[6] / 256) as u8,
                    (s[6] % 256) as u8,
                    (s[7] / 256) as u8,
                    (s[7] % 256) as u8,
                ]);
            }
            return out;
        }
        let mut best_start: usize = 0;
        let mut best_len: usize = 0;
        let mut i: usize = 0;
        while i < 8
            invariant
                i <= 8,
                s@.len() == 8,
                (best_start as int, best_len as nat) == longest_zero_run(s@, i as int),
                best_start + best_len <= 8,
            decreases 8 - i,
        {
            let mut j: usize = i;
            while j < 8 && s[j] == 0
                invariant
                    i <= j <= 8,
                    s@.len() == 8,
                    zero_run(s@, i as int) == (j - i) + zero_run(s@, j as int),
                decreases 8 - j,
            {
                j = j + 1;
            }
            proof {
                lemma_longest_zero_run_bound(s@, i as int + 1);
            }
            if j - i > best_len {
                best_start = i;
                best_len = j - i;
            }
            i = i + 1;
        }
        let mut out = String::new();
        if best_len > 1 {
            push_segments(&mut out, s, 0, best_start);
            push_str(&mut out, "::");
            push_segments(&mut out, s, best_start + best_len, 8);
        } else {
            push_segments(&mut out, s, 0, 8);
            assert(s@.subrange(0, 8) =~= s@);
        }
        proof {
            assert(out@ =~= ipv6_text(self.0@));
        }
        out
    }
}

/// Assigned internet protocol number
///
/// From https://www.iana.org/assignments/protocol-numbers/protocol-numbers.xhtml
#[derive(Default, Debug, Copy, Clone, PartialEq, Eq, Hash)]
pub struct ProtocolNumber(pub u8);

/// The text of a protocol number: its name where it is one of the supported
/// protocols, its value in hexadecimal otherwise.
pub open spec fn protocol_number_text(p: u8) -> Seq<char> {
    if p == 0x06 {
        "TCP"@
    } else if p == 0x11 {
        "UDP"@
    } else if p == 0x2B {
        "IPv6 Route"@
    } else if p == 0x3A {
        "ICMPv6"@
    } else {
        "0x"@ + hex_text(p as nat, 2)
    }
}

impl ProtocolNumber {
    pub fn new(value: u8) -> (r: Self)
        ensures
            r.0 == value,
    {
        ProtocolNumber(value)
    }

    /// The name of the protocol, or its number as `0x..` when it is not one
    /// of the supported protocols.
    pub fn to_string(&self) -> (r: String)
        ensures
            r@ == protocol_number_text(self.0),
    {
        if self.0 == 0x06 {
            String::from_str("TCP")
        } else if self.0 == 0x11 {
            String::from_str("UDP")
        } else if self.0 == 0x2B {
            String::from_str("IPv6 Route")
        } else if self.0 == 0x3A {
            String::from_str("ICMPv6")
        } else {
            let mut s = String::from_str("0x");
            push_hex(&mut s, self.0 as u64, 2);
            s
        }
    }
}

/// 5-tuple IP connection identifier
#[derive(Clone, Copy, Debug, PartialEq, Eq, Hash)]
pub struct Flow {
    src_ip: IpAddr,
    dst_ip: IpAddr,
    src_port: u16,
    dst_port: u16,
    protocol: ProtocolNumber,
}

impl Flow {
    pub closed spec fn spec_src_ip(self) -> IpAddr {
        self.src_ip
    }

    pub closed spec fn spec_dst_ip(self) -> IpAddr {
        self.dst_ip
    }

    pub closed spec fn spec_src_port(self) -> u16 {
        self.src_port
    }

    pub closed spec fn spec_dst_port(self) -> u16 {
        self.dst_port
    }

    pub closed spec fn spec_protocol(self) -> ProtocolNumber {
        self.protocol
    }

    pub fn new(
        src_ip: IpAddr,
        dst_ip: IpAddr,
        src_port: u16,
        dst_port: u16,
        protocol: ProtocolNumber,
    ) -> (r: Self)
        ensures
            r.spec_src_ip() == src_ip,
            r.spec_dst_ip() == dst_ip,
            r.spec_src_port() == src_port,
            r.spec_dst_port() == dst_port,
            r.spec_protocol() == protocol,
    {
        Flow { src_ip, dst_ip, src_port, dst_port, protocol }
    }

    pub fn src_ip(&self) -> (r: IpAddr)
        ensures
            r == self.spec_src_ip(),
    {
        self.src_ip
    }

    pub fn dst_ip(&self) -> (r: IpAddr)
        ensures
            r == self.spec_dst_ip(),
    {
        self.dst_ip
    }

    pub fn src_port(&self) -> (r: u16)
        ensures
            r == self.spec_src_port(),
    {
        self.src_port
    }

    pub fn dst_port(&self) -> (r: u16)
        ensures
            r == self.spec_dst_port(),
    {
        self.dst_port
    }

    pub fn protocol(&self) -> (r: ProtocolNumber)
        ensures
            r == self.spec_protocol(),
    {
        self.protocol
    }

    /// `src_ip: .., src_port: .., dst_ip: .., dst_port: .., proto: ..`
    pub fn to_string(&self) -> (r: String)
        ensures
            r@ == "src_ip: "@ + ip_text(self.spec_src_ip()) + ", src_port: "@ + dec_text(
                self.spec_src_port() as nat,
            ) + ", dst_ip: "@ + ip_text(self.spec_dst_ip()) + ", dst_port: "@ + dec_text(
                self.spec_dst_port() as nat,
            ) + ", proto: "@ + protocol_number_text(self.spec_protocol().0),
    {
        let mut s = String::from_str("src_ip: ");
        let a = self.src_ip.to_string();
        push_str(&mut s, a.as_str());
        push_str(&mut s, ", src_port: ");
        push_dec(&mut s, self.src_port as u64);
        push_str(&mut s, ", dst_ip: ");
        let b = self.dst_ip.to_string();
        push_str(&mut s, b.as_str());
        push_str(&mut s, ", dst_port: ");
        push_dec(&mut s, self.dst_port as u64);
        push_str(&mut s, ", proto: ");
        let p = self.protocol.to_string();
        push_str(&mut s, p.as_str());
        proof {
            reveal_strlit("src_ip: ");
        }
        s
    }
}

/// The text of an address.
pub open spec fn ip_text(a: IpAddr) -> Seq<char> {
    match a {
        IpAddr::V4(x) => ipv4_text(x.0@),
        IpAddr::V6(x) => ipv6_text(x.0@),
    }
}

impl IpAddr {
    /// The address in dotted decimal or RFC 5952 text.
    pub fn to_string(&self) -> (r: String)
        ensures
            r@ == ip_text(*self),
    {
        match self {
            IpAddr::V4(x) => x.to_string(),
            IpAddr::V6(x) => x.to_string(),
        }
    }
}

/// Error when an IPv4 and an IPv6 address are mixed.
#[derive(Debug, Clone, Copy, PartialEq, Eq)]
pub struct IpAddrMismatchError;

impl IpAddrMismatchError {
    /// The error's message.
    pub fn to_string(&self) -> (r: String)
        ensures
            r@ == "Cannot mix IPv4 and IPv6 addresses"@,
    {
        String::from_str("Cannot mix IPv4 and IPv6 addresses")
    }
}


/// Whether `a` is an IPv6 address.
pub open spec fn is_v6(a: IpAddr) -> bool {
    a matches IpAddr::V6(_)
}

/// Common behaviors shared by IPv4 and IPv6 packets
pub trait IpPacket: Packet {
    /// The protocol number of the header that follows.
    spec fn spec_next_proto(&self) -> u8;

    /// The source address.
    spec fn spec_src(&self) -> IpAddr;

    /// The destination address.
    spec fn spec_dst(&self) -> IpAddr;

    /// Whether the packet carries IPv6 addresses.
    spec fn spec_v6(&self) -> bool;

    /// The destination address that `set_dst(dst)` leaves on the packet.
    spec fn spec_dst_after(&self, dst: IpAddr) -> IpAddr;

    /// The pseudo header for a layer 4 packet of `packet_len` bytes.
    spec fn spec_pseudo_header(&self, packet_len: u16, protocol: ProtocolNumber) -> PseudoHeader;

    /// The addresses are of the packet's version.
    proof fn lemma_addr_version(&self)
        requires
            self.inv(),
        ensures
            is_v6(self.spec_src()) == self.spec_v6(),
            is_v6(self.spec_dst()) == self.spec_v6(),
    ;

    /// Returns the assigned protocol number of the header immediately follows
    ///
    /// For IPv4 headers, this should be the `protocol` field.
    /// For IPv6 and extension headers, this should be the `next header` field.
    fn next_proto(&self) -> (r: ProtocolNumber)
        requires
            self.inv(),
        ensures
            r.0 == self.spec_next_proto(),
    ;

    /// Returns the source IP address
    fn src(&self) -> (r: IpAddr)
        requires
            self.inv(),
        ensures
            r == self.spec_src(),
    ;

    /// Sets the source IP address
    ///
    /// This lets an upper layer packet like TCP set the source IP address
    /// on a lower layer packet.
    fn set_src(&mut self, src: IpAddr) -> (r: Result<(), PacketError>)
        requires
            old(self).inv(),
        ensures
            final(self).inv(),
            final(self).spec_offset() == old(self).spec_offset(),
            final(self).spec_header_len() == old(self).spec_header_len(),
            final(self).spec_v6() == old(self).spec_v6(),
            final(self).spec_mbuf().view().len() == old(self).spec_mbuf().view().len(),
            forall|i: int|
                old(self).spec_offset() + old(self).spec_header_len() <= i < old(
                    self,
                ).spec_mbuf().view().len() ==> final(self).spec_mbuf().view()[i] == old(
                    self,
                ).spec_mbuf().view()[i],
            final(self).spec_mbuf().spec_headroom() == old(self).spec_mbuf().spec_headroom(),
            final(self).spec_mbuf().spec_tailroom() == old(self).spec_mbuf().spec_tailroom(),
            (r is Ok) == (is_v6(src) == old(self).spec_v6()),
            r is Ok ==> final(self).spec_src() == src && final(self).spec_dst() == old(
                self,
            ).spec_dst() && final(self).spec_next_proto() == old(self).spec_next_proto(),
            r is Err ==> (r matches Err(PacketError::IpAddrMismatch(_)) && final(self).spec_mbuf()
                == old(self).spec_mbuf()),
    ;

    /// Returns the destination IP address
    fn dst(&self) -> (r: IpAddr)
        requires
            self.inv(),
        ensures
            r == self.spec_dst(),
    ;

    /// Sets the destination IP address
    ///
    /// This lets an upper layer packet like TCP set the destination IP address
    /// on a lower layer packet.
    fn set_dst(&mut self, dst: IpAddr) -> (r: Result<(), PacketError>)
        requires
            old(self).inv(),
        ensures
            final(self).inv(),
            final(self).spec_offset() == old(self).spec_offset(),
            final(self).spec_header_len() == old(self).spec_header_len(),
            final(self).spec_v6() == old(self).spec_v6(),
            final(self).spec_mbuf().view().len() == old(self).spec_mbuf().view().len(),
            forall|i: int|
                old(self).spec_offset() + old(self).spec_header_len() <= i < old(
                    self,
                ).spec_mbuf().view().len() ==> final(self).spec_mbuf().view()[i] == old(
                    self,
                ).spec_mbuf().view()[i],
            final(self).spec_mbuf().spec_headroom() == old(self).spec_mbuf().spec_headroom(),
            final(self).spec_mbuf().spec_tailroom() == old(self).spec_mbuf().spec_tailroom(),
            (r is Ok) == (is_v6(dst) == old(self).spec_v6()),
            r is Ok ==> final(self).spec_dst() == old(self).spec_dst_after(dst),
            r is Ok ==> final(self).spec_src() == old(self).spec_src(),
            r is Ok ==> final(self).spec_next_proto() == old(self).spec_next_proto(),
            r is Err ==> (r matches Err(PacketError::IpAddrMismatch(_)) && final(self).spec_mbuf()
                == old(self).spec_mbuf()),
    ;

    /// Returns the pseudo-header for layer 4 checksum computation
    fn pseudo_header(&self, packet_len: u16, protocol: ProtocolNumber) -> (r: PseudoHeader)
        requires
            self.inv(),
        ensures
            r == self.spec_pseudo_header(packet_len, protocol),
    ;

    /// Writes `bytes` into the payload at `pos`, as `write_bytes` does; the
    /// addresses and the next protocol stay as they were.
    fn write_payload(&mut self, pos: usize, bytes: &[u8])
        requires
            old(self).inv(),
            (old(self).spec_offset() + old(self).spec_header_len()) <= pos,
            pos + bytes@.len() <= old(self).spec_mbuf().view().len(),
        ensures
            final(self).inv(),
            final(self).spec_mbuf().view() == splice(old(self).spec_mbuf().view(), pos as nat, bytes@),
            final(self).spec_offset() == old(self).spec_offset(),
            final(self).spec_header_len() == old(self).spec_header_len(),
            final(self).spec_mbuf().spec_headroom() == old(self).spec_mbuf().spec_headroom(),
            final(self).spec_mbuf().spec_tailroom() == old(self).spec_mbuf().spec_tailroom(),
            final(self).spec_src() == old(self).spec_src(),
            final(self).spec_dst() == old(self).spec_dst(),
            final(self).spec_next_proto() == old(self).spec_next_proto(),
            final(self).spec_v6() == old(self).spec_v6(),
            forall|l: u16, p: ProtocolNumber| #[trigger] final(self).spec_pseudo_header(l, p) == old(self).spec_pseudo_header(l, p),
            forall|d: IpAddr| #[trigger] final(self).spec_dst_after(d) == old(self).spec_dst_after(d),
            forall|v: Seq<u8>| #[trigger] final(self).spec_cascade_view(v) == old(self).spec_cascade_view(v),
    ;

    /// Resizes the payload at `pos`, as `resize` does; the addresses and
    /// the next protocol stay as they were.
    fn resize_payload(&mut self, pos: usize, len: isize) -> (r: Result<(), BufferError>)
        requires
            old(self).inv(),
            (old(self).spec_offset() + old(self).spec_header_len()) <= pos,
            len != isize::MIN,
            len < 0 ==> pos - len <= usize::MAX,
        ensures
            final(self).inv(),
            final(self).spec_offset() == old(self).spec_offset(),
            final(self).spec_header_len() == old(self).spec_header_len(),
            resize_fails(old(self).spec_mbuf(), pos as nat, len as int) ==> r
                == Err::<(), BufferError>(BufferError::NotResized) && final(self).spec_mbuf().view()
                == old(self).spec_mbuf().view(),
            !resize_fails(old(self).spec_mbuf(), pos as nat, len as int) ==> r is Ok && final(self).spec_mbuf().view() == resize_spec(old(self).spec_mbuf().view(), pos as nat, len as int),
            final(self).spec_mbuf().spec_headroom() == old(self).spec_mbuf().spec_headroom(),
            final(self).spec_mbuf().view().len() + final(self).spec_mbuf().spec_tailroom() == old(self).spec_mbuf().view().len() + old(self).spec_mbuf().spec_tailroom(),
            final(self).spec_src() == old(self).spec_src(),
            final(self).spec_dst() == old(self).spec_dst(),
            final(self).spec_next_proto() == old(self).spec_next_proto(),
            final(self).spec_v6() == old(self).spec_v6(),
            forall|l: u16, p: ProtocolNumber| #[trigger] final(self).spec_pseudo_header(l, p) == old(self).spec_pseudo_header(l, p),
            forall|d: IpAddr| #[trigger] final(self).spec_dst_after(d) == old(self).spec_dst_after(d),
            forall|v: Seq<u8>| #[trigger] final(self).spec_cascade_view(v) == old(self).spec_cascade_view(v),
    ;
}


/// Inserts `n` zero bytes at the payload offset of `envelope`.
pub fn insert_zeros<E: IpPacket>(envelope: &mut E, n: usize) -> (r: Result<(), BufferError>)
    requires
        old(envelope).inv(),
    ensures
        final(envelope).inv(),
        final(envelope).spec_offset() == old(envelope).spec_offset(),
        final(envelope).spec_header_len() == old(envelope).spec_header_len(),
        final(envelope).spec_src() == old(envelope).spec_src(),
        final(envelope).spec_dst() == old(envelope).spec_dst(),
        final(envelope).spec_mbuf().spec_headroom() == old(envelope).spec_mbuf().spec_headroom(),
        ({
            let d = old(envelope).spec_mbuf().view();
            let po = old(envelope).spec_offset() + old(envelope).spec_header_len();
            &&& !resize_fails(old(envelope).spec_mbuf(), po, n as int) ==> (r is Ok
                && final(envelope).spec_mbuf().view() == splice(resize_spec(d, po, n as int), po, crate::packets::mbuf::zeros(n as nat)))
            &&& resize_fails(old(envelope).spec_mbuf(), po, n as int) ==> (r == Err::<(), BufferError>(BufferError::NotResized)
                && final(envelope).spec_mbuf().view() == d)
        }),
{
    proof {
        envelope.lemma_inv();
        envelope.spec_mbuf().lemma_len_bound();
    }
    let offset = envelope.payload_offset();
    let ghost before = envelope.spec_mbuf().view();
    if n > 2176 {
        return Err(BufferError::NotResized);
    }
    match envelope.resize_payload(offset, n as isize) {
        Ok(_) => {},
        Err(e) => {
            return Err(e);
        },
    }
    proof {
        crate::packets::lemma_resize_len(before, offset as nat, n as int);
    }
    let mut bytes: Vec<u8> = Vec::new();
    let mut i: usize = 0;
    while i < n
        invariant
            i <= n,
            bytes@ == crate::packets::mbuf::zeros(i as nat),
        decreases n - i,
    {
        bytes.push(0);
        i = i + 1;
        assert(bytes@ =~= crate::packets::mbuf::zeros(i as nat));
    }
    envelope.write_payload(offset, bytes.as_slice());
    Ok(())
}

/// The IPv4 address with the four octets `s`.
pub open spec fn v4_from_octets(s: Seq<u8>) -> Ipv4Addr {
    Ipv4Addr([s[0], s[1], s[2], s[3]])
}

/// An IPv4 address is determined by its octets.
pub proof fn lemma_v4_from_octets(a: Ipv4Addr)
    ensures
        v4_from_octets(a.0@) == a,
{
    broadcast use vstd::array::group_array_axioms;

    assert(v4_from_octets(a.0@).0 =~= a.0);
}

/// The IPv6 address with the eight segments `s`.
pub open spec fn v6_from_segments(s: Seq<u16>) -> Ipv6Addr {
    Ipv6Addr([s[0], s[1], s[2], s[3], s[4], s[5], s[6], s[7]])
}

/// An IPv6 address is determined by its segments.
pub proof fn lemma_v6_from_segments(a: Ipv6Addr)
    ensures
        v6_from_segments(a.0@) == a,
{
    broadcast use vstd::array::group_array_axioms;

    assert(v6_from_segments(a.0@).0 =~= a.0);
}


/// The sixteen octets of an IPv6 address, each segment high octet first.
pub open spec fn v6_bytes(segments: Seq<u16>) -> Seq<u8> {
    Seq::new(
        16,
        |i: int|
            if i % 2 == 0 {
                (segments[i / 2] / 256) as u8
            } else {
                (segments[i / 2] % 256) as u8
            },
    )
}

/// The eight big-endian segments of the sixteen octets at `pos`.
pub open spec fn v6_segments_at(s: Seq<u8>, pos: int) -> Seq<u16> {
    Seq::new(8, |j: int| crate::packets::mbuf::be16(s, pos + 2 * j))
}

/// Reading back the octets of an address gives its segments.
pub proof fn lemma_v6_roundtrip(s: Seq<u8>, pos: nat, segments: Seq<u16>)
    requires
        pos + 16 <= s.len(),
        segments.len() == 8,
    ensures
        v6_segments_at(crate::packets::mbuf::splice(s, pos, v6_bytes(segments)), pos as int)
            == segments,
{
    let t = crate::packets::mbuf::splice(s, pos, v6_bytes(segments));
    assert forall|j: int| 0 <= j < 8 implies #[trigger] v6_segments_at(t, pos as int)[j]
        == segments[j] by {
        assert(t[pos + 2 * j] == (segments[j] / 256) as u8);
        assert(t[pos + 2 * j + 1] == (segments[j] % 256) as u8);
    }
    assert(v6_segments_at(t, pos as int) =~= segments);
}

impl Fixed for Ipv6Addr {
    open spec fn spec_size() -> nat {
        16
    }

    open spec fn spec_bytes(&self) -> Seq<u8> {
        v6_bytes(self.0@)
    }

    fn size() -> (r: usize) {
        16
    }

    fn to_bytes(&self) -> (r: Vec<u8>) {
        let mut v: Vec<u8> = Vec::new();
        let mut j: usize = 0;
        while j < 8
            invariant
                j <= 8,
                v@ == v6_bytes(self.0@).take(2 * j),
            decreases 8 - j,
        {
            v.push((self.0[j] / 256) as u8);
            v.push((self.0[j] % 256) as u8);
            j = j + 1;
            assert(v@ =~= v6_bytes(self.0@).take(2 * j));
        }
        assert(v6_bytes(self.0@).take(16) =~= v6_bytes(self.0@));
        assert(v@ == self.spec_bytes());
        v
    }

    proof fn lemma_bytes_len(&self) {
    }
}

} // verus!
