//! Ethernet Type II frames.
//!
//! ```text
//! +-+-+-+-+-+-+-+-+-+-+-+-+-+-+-+-+-+-+-+-+-+-+-+-+-+-+-+-+-+-+-+-+
//! |  Dst MAC  |  Src MAC  |Typ|             Payload               |
//! +-+-+-+-+-+-+-+-+-+-+-+-+-+-+                                   +
//! ```
//!
//! Destination MAC: 48-bit MAC address of the originator of the packet.
//! Source MAC: 48-bit MAC address of the intended recipient of the packet.
//! Ether Type: 16-bit indicator of the protocol encapsulated in the payload.
use crate::packets::buffer::{read_item, read_spec, BufferError};
use crate::packets::mbuf::{be16, be16_bytes, splice, u16_to_be, MBuf};
use crate::packets::raw::RawPacket;
use crate::packets::{
    bytes_of, payload_offset_of, resize_fails, resize_spec, Fixed, Header, Packet, PacketError,
    ParsedPacket,
};
use crate::text::{hex_digit, hex_text, push_hex, push_str};
use vstd::utf8::{encode_utf8, is_ascii_chars, is_ascii_chars_encode_utf8};
use vstd::prelude::*;
use vstd::string::StringSliceAdditionalSpecFns;

#[allow(non_snake_case)]
pub mod EtherTypes;

verus! {

/// MAC address
#[derive(Default, Debug, Copy, Clone, PartialEq, Eq)]
pub struct MacAddr([u8; 6]);

/// The text of a MAC address: six two-digit hexadecimal octets separated
/// by colons.
pub open spec fn mac_text(o: Seq<u8>) -> Seq<char> {
    hex_text(o[0] as nat, 2) + ":"@ + hex_text(o[1] as nat, 2) + ":"@ + hex_text(o[2] as nat, 2)
        + ":"@ + hex_text(o[3] as nat, 2) + ":"@ + hex_text(o[4] as nat, 2) + ":"@ + hex_text(
        o[5] as nat,
        2,
    )
}

impl MacAddr {
    /// The six octets of the address.
    pub closed spec fn spec_octets(self) -> Seq<u8> {
        self.0@
    }

    /// The unspecified address `00:00:00:00:00:00`.
    pub fn unspecified() -> (r: Self)
        ensures
            r.spec_octets() == seq![0u8, 0, 0, 0, 0, 0],
    {
        let r = MacAddr([0, 0, 0, 0, 0, 0]);
        assert(r.0@ =~= seq![0u8, 0, 0, 0, 0, 0]);
        r
    }

    pub fn new(a: u8, b: u8, c: u8, d: u8, e: u8, f: u8) -> (r: Self)
        ensures
            r.spec_octets() == seq![a, b, c, d, e, f],
    {
        let r = MacAddr([a, b, c, d, e, f]);
        assert(r.0@ =~= seq![a, b, c, d, e, f]);
        r
    }

    /// Returns the six bytes the MAC address consists of
    pub fn octets(&self) -> (r: [u8; 6])
        ensures
            r@ == self.spec_octets(),
    {
        self.0
    }

    /// Builds the address from its six octets.
    pub fn from_octets(octets: [u8; 6]) -> (r: Self)
        ensures
            r.spec_octets() == octets@,
    {
        MacAddr(octets)
    }

    /// Parses six octets of two hexadecimal digits each, separated by `:`,
    /// `-` or nothing: the separators are dropped and the rest must be
    /// exactly twelve hexadecimal digits.
    pub fn from_str(s: &str) -> (r: Result<MacAddr, MacParseError>)
        ensures
            ({
                let h = strip_separators(s.spec_bytes());
                &&& (r is Ok) == (hex_decodable(h) && h.len() == 12)
                &&& r matches Ok(m) ==> m.spec_octets() == hex_decoded(h)
                &&& r matches Err(e) ==> e.text() == s@
            }),
    {
        let bytes = s.as_bytes();
        let mut digits: Vec<u8> = Vec::new();
        let mut i: usize = 0;
        while i < bytes.len()
            invariant
                i <= bytes@.len(),
                bytes@ == s.spec_bytes(),
                digits@ == strip_separators(bytes@.take(i as int)),
            decreases bytes@.len() - i,
        {
            let c = bytes[i];
            if c != 0x3a && c != 0x2d {
                digits.push(c);
            }
            proof {
                assert(bytes@.take(i + 1).drop_last() =~= bytes@.take(i as int));
            }
            i = i + 1;
        }
        proof {
            assert(bytes@.take(bytes@.len() as int) =~= bytes@);
        }
        match hex_decode(digits.as_slice()) {
            Ok(v) => {
                if v.len() == 6 {
                    Ok(MacAddr([v[0], v[1], v[2], v[3], v[4], v[5]]))
                } else {
                    Err(MacParseError(s.to_owned()))
                }
            },
            Err(_) => Err(MacParseError(s.to_owned())),
        }
    }

    /// The address as six two-digit hexadecimal octets separated by colons.
    pub fn to_string(&self) -> (r: String)
        ensures
            r@ == mac_text(self.spec_octets()),
    {
        let mut s = String::new();
        push_hex(&mut s, self.0[0] as u64, 2);
        push_str(&mut s, ":");
        push_hex(&mut s, self.0[1] as u64, 2);
        push_str(&mut s, ":");
        push_hex(&mut s, self.0[2] as u64, 2);
        push_str(&mut s, ":");
        push_hex(&mut s, self.0[3] as u64, 2);
        push_str(&mut s, ":");
        push_hex(&mut s, self.0[4] as u64, 2);
        push_str(&mut s, ":");
        push_hex(&mut s, self.0[5] as u64, 2);
        assert(s@ =~= mac_text(self.0@));
        s
    }
}

/// Error when a text is not a MAC address.
#[derive(Debug)]
pub struct MacParseError(String);

impl MacParseError {
    /// The text that failed to parse.
    pub closed spec fn text(&self) -> Seq<char> {
        self.0@
    }

    /// The error's message.
    pub fn to_string(&self) -> (r: String)
        ensures
            r@ == "Failed to parse '"@ + self.text() + "' as MAC address."@,
    {
        let mut s = String::from_str("Failed to parse '");
        push_str(&mut s, self.0.as_str());
        push_str(&mut s, "' as MAC address.");
        proof {
            reveal_strlit("Failed to parse '");
        }
        s
    }
}

#[verifier::external_type_specification]
#[verifier::external_body]
pub struct ExFromHexError(hex::FromHexError);

/// Whether `c` is an ASCII hexadecimal digit, of either case.
pub open spec fn is_hex_digit(c: u8) -> bool {
    (0x30 <= c <= 0x39) || (0x41 <= c <= 0x46) || (0x61 <= c <= 0x66)
}

/// The value of the hexadecimal digit `c`.
pub open spec fn hex_value(c: u8) -> u8 {
    if 0x30 <= c <= 0x39 {
        (c - 0x30) as u8
    } else if 0x41 <= c <= 0x46 {
        (c - 0x41 + 10) as u8
    } else {
        (c - 0x61 + 10) as u8
    }
}

/// Whether `d` is an even number of hexadecimal digits.
pub open spec fn hex_decodable(d: Seq<u8>) -> bool {
    d.len() % 2 == 0 && forall|i: int| 0 <= i < d.len() ==> #[trigger] is_hex_digit(d[i])
}

/// The bytes of the hexadecimal digits `d`, two digits to a byte, the high
/// half first.
pub open spec fn hex_decoded(d: Seq<u8>) -> Seq<u8> {
    Seq::new(d.len() / 2, |i: int| (hex_value(d[2 * i]) * 16 + hex_value(d[2 * i + 1])) as u8)
}

/// `hex::decode`: decodes an even number of hexadecimal digits, of either
/// case, into bytes, two digits to a byte with the high half first; any
/// other input is an error.
#[verifier::external_body]
fn hex_decode(data: &[u8]) -> (r: Result<Vec<u8>, hex::FromHexError>)
    ensures
        r is Ok <==> hex_decodable(data@),
        r matches Ok(v) ==> v@ == hex_decoded(data@),
{
    hex::decode(data)
}

/// The bytes of `b` without the separators `:` and `-`.
pub open spec fn strip_separators(b: Seq<u8>) -> Seq<u8>
    decreases b.len(),
{
    if b.len() == 0 {
        Seq::empty()
    } else if b.last() == 0x3a || b.last() == 0x2d {
        strip_separators(b.drop_last())
    } else {
        strip_separators(b.drop_last()).push(b.last())
    }
}

/// A lower-case hexadecimal digit, as a byte, is a hexadecimal digit with
/// its value, and no separator.
proof fn lemma_hex_digit_byte(d: nat)
    requires
        d < 16,
    ensures
        is_hex_digit(hex_digit(d) as u8),
        hex_value(hex_digit(d) as u8) == d,
        hex_digit(d) as u8 != 0x3a,
        hex_digit(d) as u8 != 0x2d,
        '\0' <= hex_digit(d) <= '\u{7f}',
{
    if d == 0 {} else if d == 1 {} else if d == 2 {} else if d == 3 {} else if d == 4 {
    } else if d == 5 {} else if d == 6 {} else if d == 7 {} else if d == 8 {} else if d == 9 {
    } else if d == 10 {} else if d == 11 {} else if d == 12 {} else if d == 13 {
    } else if d == 14 {} else {}
}

/// Dropping separators works piece by piece.
proof fn lemma_strip_concat(a: Seq<u8>, b: Seq<u8>)
    ensures
        strip_separators(a + b) == strip_separators(a) + strip_separators(b),
    decreases b.len(),
{
    if b.len() == 0 {
        assert(a + b =~= a);
        assert(strip_separators(a) + strip_separators(b) =~= strip_separators(a));
    } else {
        assert((a + b).drop_last() =~= a + b.drop_last());
        assert((a + b).last() == b.last());
        lemma_strip_concat(a, b.drop_last());
        if !(b.last() == 0x3a || b.last() == 0x2d) {
            assert(strip_separators(a) + strip_separators(b.drop_last()).push(b.last()) =~= (
            strip_separators(a) + strip_separators(b.drop_last())).push(b.last()));
        }
    }
}

/// An octet's two digits, as bytes.
spec fn octet_digit_bytes(v: u8) -> Seq<u8> {
    seq![hex_digit(v as nat / 16) as u8, hex_digit(v as nat % 16) as u8]
}

/// The bytes of ASCII characters, one to a character.
spec fn ascii_bytes(c: Seq<char>) -> Seq<u8> {
    Seq::new(c.len(), |i: int| c[i] as u8)
}

/// ASCII bytes of joined characters are the joined bytes.
proof fn lemma_ascii_bytes_concat(a: Seq<char>, b: Seq<char>)
    ensures
        ascii_bytes(a + b) == ascii_bytes(a) + ascii_bytes(b),
{
    assert(ascii_bytes(a + b) =~= ascii_bytes(a) + ascii_bytes(b));
}

/// An octet's two hexadecimal characters: ASCII, and as bytes its digit
/// bytes.
proof fn lemma_octet_text(v: u8)
    ensures
        is_ascii_chars(hex_text(v as nat, 2)),
        ascii_bytes(hex_text(v as nat, 2)) == octet_digit_bytes(v),
{
    reveal_with_fuel(hex_text, 3);
    lemma_hex_digit_byte(v as nat / 16);
    lemma_hex_digit_byte(v as nat % 16);
    let t = hex_text(v as nat, 2);
    assert(t =~= seq![hex_digit(v as nat / 16), hex_digit(v as nat % 16)]);
    assert(ascii_bytes(t) =~= octet_digit_bytes(v));
}

/// The colon: ASCII, and as bytes `0x3a`.
proof fn lemma_colon_text()
    ensures
        is_ascii_chars(":"@),
        ascii_bytes(":"@) == seq![0x3au8],
{
    reveal_strlit(":");
    assert(ascii_bytes(":"@) =~= seq![0x3au8]);
}

/// Two octets' digit bytes, then more: the digits of the `k` first octets.
spec fn digit_pairs(o: Seq<u8>, k: nat) -> Seq<u8>
    decreases k,
{
    if k == 0 {
        Seq::empty()
    } else {
        digit_pairs(o, (k - 1) as nat) + octet_digit_bytes(o[k - 1])
    }
}

/// The digits of the `k` first octets, two to an octet, high digit first.
proof fn lemma_digit_pairs(o: Seq<u8>, k: nat)
    requires
        k <= o.len(),
    ensures
        digit_pairs(o, k).len() == 2 * k,
        forall|j: int|
            0 <= j < k ==> #[trigger] digit_pairs(o, k)[2 * j] == octet_digit_bytes(o[j])[0]
                && digit_pairs(o, k)[2 * j + 1] == octet_digit_bytes(o[j])[1],
    decreases k,
{
    if k > 0 {
        lemma_digit_pairs(o, (k - 1) as nat);
    }
}

/// An octet's digits hold no separator.
proof fn lemma_octet_digits_kept(v: u8)
    ensures
        strip_separators(octet_digit_bytes(v)) == octet_digit_bytes(v),
        is_hex_digit(octet_digit_bytes(v)[0]),
        is_hex_digit(octet_digit_bytes(v)[1]),
        hex_value(octet_digit_bytes(v)[0]) * 16 + hex_value(octet_digit_bytes(v)[1]) == v,
{
    lemma_hex_digit_byte(v as nat / 16);
    lemma_hex_digit_byte(v as nat % 16);
    reveal_with_fuel(strip_separators, 3);
    let p = octet_digit_bytes(v);
    assert(p.drop_last().drop_last() =~= Seq::<u8>::empty());
    assert(p.drop_last() =~= seq![p[0]]);
    assert(strip_separators(p) =~= p);
}

/// The bytes of an address's text: each octet's two digits, a colon
/// between octets.
spec fn mac_text_bytes(o: Seq<u8>) -> Seq<u8> {
    let colon = seq![0x3au8];
    octet_digit_bytes(o[0]) + colon + octet_digit_bytes(o[1]) + colon + octet_digit_bytes(o[2])
        + colon + octet_digit_bytes(o[3]) + colon + octet_digit_bytes(o[4]) + colon
        + octet_digit_bytes(o[5])
}

/// The text of an address is ASCII, and its bytes are `mac_text_bytes`.
#[verifier::spinoff_prover]
#[verifier::rlimit(50)]
proof fn lemma_mac_text_encoding(o: Seq<u8>)
    requires
        o.len() == 6,
    ensures
        encode_utf8(mac_text(o)) == mac_text_bytes(o),
{
    let c = ":"@;
    let t0 = hex_text(o[0] as nat, 2);
    let t1 = hex_text(o[1] as nat, 2);
    let t2 = hex_text(o[2] as nat, 2);
    let t3 = hex_text(o[3] as nat, 2);
    let t4 = hex_text(o[4] as nat, 2);
    let t5 = hex_text(o[5] as nat, 2);
    lemma_octet_text(o[0]);
    lemma_octet_text(o[1]);
    lemma_octet_text(o[2]);
    lemma_octet_text(o[3]);
    lemma_octet_text(o[4]);
    lemma_octet_text(o[5]);
    lemma_colon_text();
    let x1 = t0 + c;
    let x2 = x1 + t1;
    let x3 = x2 + c;
    let x4 = x3 + t2;
    let x5 = x4 + c;
    let x6 = x5 + t3;
    let x7 = x6 + c;
    let x8 = x7 + t4;
    let x9 = x8 + c;
    let text = x9 + t5;
    assert(text == mac_text(o));
    vstd::utf8::is_ascii_chars_concat(x1, t0, c);
    vstd::utf8::is_ascii_chars_concat(x2, x1, t1);
    vstd::utf8::is_ascii_chars_concat(x3, x2, c);
    vstd::utf8::is_ascii_chars_concat(x4, x3, t2);
    vstd::utf8::is_ascii_chars_concat(x5, x4, c);
    vstd::utf8::is_ascii_chars_concat(x6, x5, t3);
    vstd::utf8::is_ascii_chars_concat(x7, x6, c);
    vstd::utf8::is_ascii_chars_concat(x8, x7, t4);
    vstd::utf8::is_ascii_chars_concat(x9, x8, c);
    vstd::utf8::is_ascii_chars_concat(text, x9, t5);
    is_ascii_chars_encode_utf8(text);
    assert(encode_utf8(text) =~= ascii_bytes(text));
    lemma_ascii_bytes_concat(t0, c);
    lemma_ascii_bytes_concat(x1, t1);
    lemma_ascii_bytes_concat(x2, c);
    lemma_ascii_bytes_concat(x3, t2);
    lemma_ascii_bytes_concat(x4, c);
    lemma_ascii_bytes_concat(x5, t3);
    lemma_ascii_bytes_concat(x6, c);
    lemma_ascii_bytes_concat(x7, t4);
    lemma_ascii_bytes_concat(x8, c);
    lemma_ascii_bytes_concat(x9, t5);
}

/// With the colons dropped, an address's text bytes are its octets' digit
/// pairs.
#[verifier::spinoff_prover]
#[verifier::rlimit(50)]
proof fn lemma_mac_text_digits(o: Seq<u8>)
    requires
        o.len() == 6,
    ensures
        strip_separators(mac_text_bytes(o)) == digit_pairs(o, 6),
{
    let colon = seq![0x3au8];
    let p0 = octet_digit_bytes(o[0]);
    let p1 = octet_digit_bytes(o[1]);
    let p2 = octet_digit_bytes(o[2]);
    let p3 = octet_digit_bytes(o[3]);
    let p4 = octet_digit_bytes(o[4]);
    let p5 = octet_digit_bytes(o[5]);
    lemma_octet_digits_kept(o[0]);
    lemma_octet_digits_kept(o[1]);
    lemma_octet_digits_kept(o[2]);
    lemma_octet_digits_kept(o[3]);
    lemma_octet_digits_kept(o[4]);
    lemma_octet_digits_kept(o[5]);
    assert(strip_separators(colon) == Seq::<u8>::empty()) by {
        reveal_with_fuel(strip_separators, 2);
        assert(colon.drop_last() =~= Seq::<u8>::empty());
    }
    let y1 = p0 + colon;
    let y2 = y1 + p1;
    let y3 = y2 + colon;
    let y4 = y3 + p2;
    let y5 = y4 + colon;
    let y6 = y5 + p3;
    let y7 = y6 + colon;
    let y8 = y7 + p4;
    let y9 = y8 + colon;
    assert(mac_text_bytes(o) == y9 + p5);
    lemma_strip_concat(p0, colon);
    lemma_strip_concat(y1, p1);
    lemma_strip_concat(y2, colon);
    lemma_strip_concat(y3, p2);
    lemma_strip_concat(y4, colon);
    lemma_strip_concat(y5, p3);
    lemma_strip_concat(y6, colon);
    lemma_strip_concat(y7, p4);
    lemma_strip_concat(y8, colon);
    lemma_strip_concat(y9, p5);
    let e = Seq::<u8>::empty();
    assert(p0 + e =~= p0);
    assert(e + p0 =~= p0);
    reveal_with_fuel(digit_pairs, 7);
}

/// An address read back from its own text is the address: with the
/// separators dropped, the text is twelve hexadecimal digits, and they
/// decode to its octets. `MacAddr::from_str` therefore gives back the
/// address that `to_string` wrote.
#[verifier::spinoff_prover]
pub proof fn law_mac_text_round_trip(m: MacAddr)
    ensures
        ({
            let h = strip_separators(encode_utf8(mac_text(m.spec_octets())));
            &&& hex_decodable(h)
            &&& h.len() == 12
            &&& hex_decoded(h) == m.spec_octets()
        }),
{
    let o = m.spec_octets();
    assert(o.len() == 6);
    lemma_mac_text_encoding(o);
    lemma_mac_text_digits(o);
    let h = strip_separators(encode_utf8(mac_text(o)));
    lemma_digit_pairs(o, 6);
    assert(hex_decodable(h)) by {
        assert forall|i: int| 0 <= i < h.len() implies #[trigger] is_hex_digit(h[i]) by {
            let j = i / 2;
            if i % 2 == 0 {
                assert(h[2 * j] == octet_digit_bytes(o[j])[0]);
            } else {
                assert(h[2 * j] == octet_digit_bytes(o[j])[0]);
                assert(h[2 * j + 1] == octet_digit_bytes(o[j])[1]);
            }
            lemma_octet_digits_kept(o[j]);
        }
    }
    assert forall|k: int| 0 <= k < 6 implies #[trigger] hex_decoded(h)[k] == o[k] by {
        lemma_octet_digits_kept(o[k]);
    }
    assert(hex_decoded(h) =~= o);
}

/// The protocol type in the ethernet packet payload
#[derive(Default, Debug, Copy, Clone, PartialEq, Eq, Hash)]
pub struct EtherType(pub u16);

/// The text of an ether type: its name when it is IPv4 or IPv6, its value
/// as four hexadecimal digits otherwise.
pub open spec fn ether_type_text(v: u16) -> Seq<char> {
    if v == 0x0800 {
        "IPv4"@
    } else if v == 0x86DD {
        "IPv6"@
    } else {
        "0x"@ + hex_text(v as nat, 4)
    }
}

impl EtherType {
    pub fn new(value: u16) -> (r: Self)
        ensures
            r.0 == value,
    {
        EtherType(value)
    }

    /// The protocol's name, or its number as `0x....`.
    pub fn to_string(&self) -> (r: String)
        ensures
            r@ == ether_type_text(self.0),
    {
        if self.0 == 0x0800 {
            String::from_str("IPv4")
        } else if self.0 == 0x86DD {
            String::from_str("IPv6")
        } else {
            let mut s = String::from_str("0x");
            push_hex(&mut s, self.0 as u64, 4);
            s
        }
    }
}

/// Ethernet header
#[derive(Debug, Clone, Copy)]
pub struct EthernetHeader {
    dst: MacAddr,
    src: MacAddr,
    ether_type: u16,
}

impl EthernetHeader {
    /// A header with both addresses unspecified and ether type zero.
    pub fn new() -> (r: Self)
        ensures
            r.spec_bytes() == Seq::new(14, |i: int| 0u8),
    {
        let r = EthernetHeader {
            dst: MacAddr::unspecified(),
            src: MacAddr::unspecified(),
            ether_type: 0,
        };
        assert(r.spec_bytes() =~= Seq::new(14, |i: int| 0u8));
        r
    }
}

impl Fixed for EthernetHeader {
    open spec fn spec_size() -> nat {
        14
    }

    closed spec fn spec_bytes(&self) -> Seq<u8> {
        self.dst.0@ + self.src.0@ + be16_bytes(self.ether_type)
    }

    fn size() -> (r: usize) {
        14
    }

    fn to_bytes(&self) -> (r: Vec<u8>) {
        let mut v: Vec<u8> = Vec::new();
        let mut i: usize = 0;
        while i < 6
            invariant
                i <= 6,
                v@ == self.dst.0@.take(i as int),
            decreases 6 - i,
        {
            v.push(self.dst.0[i]);
            i = i + 1;
            assert(v@ =~= self.dst.0@.take(i as int));
        }
        let mut j: usize = 0;
        while j < 6
            invariant
                j <= 6,
                v@ == self.dst.0@ + self.src.0@.take(j as int),
            decreases 6 - j,
        {
            v.push(self.src.0[j]);
            j = j + 1;
            assert(v@ =~= self.dst.0@ + self.src.0@.take(j as int));
        }
        let t = u16_to_be(self.ether_type);
        v.push(t[0]);
        v.push(t[1]);
        assert(self.dst.0@.take(6) =~= self.dst.0@);
        assert(v@ =~= self.dst.0@ + self.src.0@ + be16_bytes(self.ether_type));
        v
    }

    proof fn lemma_bytes_len(&self) {
    }
}

impl Header for EthernetHeader {

}

/// Size of the ethernet header.
pub const ETHERNET_HEADER_LEN: usize = 14;

/// Ethernet packet
#[derive(Debug)]
pub struct Ethernet {
    envelope: RawPacket,
    offset: usize,
}

impl Ethernet {
    /// The destination address as it stands in the header.
    pub open spec fn spec_dst(&self) -> Seq<u8> {
        self.spec_mbuf().view().subrange(self.spec_offset() as int, self.spec_offset() + 6int)
    }

    /// The source address as it stands in the header.
    pub open spec fn spec_src(&self) -> Seq<u8> {
        self.spec_mbuf().view().subrange(self.spec_offset() + 6int, self.spec_offset() + 12int)
    }

    /// The ether type as it stands in the header.
    pub open spec fn spec_ether_type(&self) -> u16 {
        be16(self.spec_mbuf().view(), self.spec_offset() + 12int)
    }

    fn read_mac(&self, pos: usize) -> (r: MacAddr)
        requires
            self.inv(),
            self.spec_offset() <= pos,
            pos + 6 <= self.spec_offset() + 14,
        ensures
            r.spec_octets() == self.spec_mbuf().view().subrange(pos as int, pos + 6),
    {
        proof {
            self.lemma_inv();
        }
        let m = self.envelope.mbuf();
        let r = MacAddr::new(
            m.read_u8(pos),
            m.read_u8(pos + 1),
            m.read_u8(pos + 2),
            m.read_u8(pos + 3),
            m.read_u8(pos + 4),
            m.read_u8(pos + 5),
        );
        assert(r.spec_octets() =~= self.spec_mbuf().view().subrange(pos as int, pos + 6));
        r
    }

    /// Writes header bytes in front of the payload.
    fn write_header(&mut self, pos: usize, bytes: &[u8])
        requires
            old(self).inv(),
            old(self).spec_offset() <= pos,
            pos + bytes@.len() <= old(self).spec_offset() + 14,
        ensures
            final(self).inv(),
            final(self).spec_mbuf().view() == splice(old(self).spec_mbuf().view(), pos as nat, bytes@),
            final(self).spec_offset() == old(self).spec_offset(),
            final(self).spec_mbuf().spec_headroom() == old(self).spec_mbuf().spec_headroom(),
            final(self).spec_mbuf().spec_tailroom() == old(self).spec_mbuf().spec_tailroom(),
    {
        proof {
            self.envelope.lemma_inv();
        }
        self.envelope.write_bytes(pos, bytes);
    }

    pub fn src(&self) -> (r: MacAddr)
        requires
            self.inv(),
        ensures
            r.spec_octets() == self.spec_src(),
    {
        self.read_mac(self.offset + 6)
    }

    pub fn set_src(&mut self, src: MacAddr)
        requires
            old(self).inv(),
        ensures
            final(self).inv(),
            final(self).spec_src() == src.spec_octets(),
            final(self).spec_dst() == old(self).spec_dst(),
            final(self).spec_ether_type() == old(self).spec_ether_type(),
            final(self).spec_offset() == old(self).spec_offset(),
            final(self).spec_mbuf().view() == splice(old(self).spec_mbuf().view(), old(self).spec_offset() + 6, src.spec_octets()),
            final(self).spec_mbuf().spec_tailroom() == old(self).spec_mbuf().spec_tailroom(),
    {
        let o = src.octets();
        let pos = self.offset + 6;
        self.write_header(pos, o.as_slice());
        proof {
            assert(self.spec_src() =~= src.spec_octets());
            assert(self.spec_dst() =~= old(self).spec_dst());
        }
    }

    pub fn dst(&self) -> (r: MacAddr)
        requires
            self.inv(),
        ensures
            r.spec_octets() == self.spec_dst(),
    {
        self.read_mac(self.offset)
    }

    pub fn set_dst(&mut self, dst: MacAddr)
        requires
            old(self).inv(),
        ensures
            final(self).inv(),
            final(self).spec_dst() == dst.spec_octets(),
            final(self).spec_src() == old(self).spec_src(),
            final(self).spec_ether_type() == old(self).spec_ether_type(),
            final(self).spec_offset() == old(self).spec_offset(),
            final(self).spec_mbuf().view() == splice(old(self).spec_mbuf().view(), old(self).spec_offset(), dst.spec_octets()),
            final(self).spec_mbuf().spec_tailroom() == old(self).spec_mbuf().spec_tailroom(),
    {
        let o = dst.octets();
        let pos = self.offset;
        self.write_header(pos, o.as_slice());
        proof {
            assert(self.spec_dst() =~= dst.spec_octets());
            assert(self.spec_src() =~= old(self).spec_src());
        }
    }

    pub fn ether_type(&self) -> (r: EtherType)
        requires
            self.inv(),
        ensures
            r.0 == self.spec_ether_type(),
    {
        proof {
            self.lemma_inv();
        }
        EtherType::new(self.envelope.mbuf().read_be16(self.offset + 12))
    }

    pub fn set_ether_type(&mut self, ether_type: EtherType)
        requires
            old(self).inv(),
        ensures
            final(self).inv(),
            final(self).spec_ether_type() == ether_type.0,
            final(self).spec_dst() == old(self).spec_dst(),
            final(self).spec_src() == old(self).spec_src(),
            final(self).spec_offset() == old(self).spec_offset(),
            final(self).spec_mbuf().view() == splice(old(self).spec_mbuf().view(), old(self).spec_offset() + 12, be16_bytes(ether_type.0)),
            final(self).spec_mbuf().spec_tailroom() == old(self).spec_mbuf().spec_tailroom(),
    {
        let t = u16_to_be(ether_type.0);
        let pos = self.offset + 12;
        self.write_header(pos, t.as_slice());
        proof {
            crate::packets::mbuf::lemma_be16_roundtrip(old(self).spec_mbuf().view(), pos as nat, ether_type.0);
            assert(self.spec_dst() =~= old(self).spec_dst());
            assert(self.spec_src() =~= old(self).spec_src());
        }
    }

    /// Swaps the source and the destination address.
    pub fn swap_addresses(&mut self)
        requires
            old(self).inv(),
        ensures
            final(self).inv(),
            final(self).spec_src() == old(self).spec_dst(),
            final(self).spec_dst() == old(self).spec_src(),
            final(self).spec_ether_type() == old(self).spec_ether_type(),
            final(self).spec_offset() == old(self).spec_offset(),
            final(self).spec_mbuf().view().len() == old(self).spec_mbuf().view().len(),
            forall|i: int|
                old(self).spec_offset() + 12 <= i < old(self).spec_mbuf().view().len() ==> final(self).spec_mbuf().view()[i]
                    == old(self).spec_mbuf().view()[i],
    {
        let src = self.src();
        let dst = self.dst();
        self.set_src(dst);
        self.set_dst(src);
    }

    /// `src > dst, ether_type: type`
    pub fn to_string(&self) -> (r: String)
        requires
            self.inv(),
        ensures
            r@ == mac_text(self.spec_src()) + " > "@ + mac_text(self.spec_dst())
                + ", ether_type: "@ + ether_type_text(self.spec_ether_type()),
    {
        let mut s = self.src().to_string();
        push_str(&mut s, " > ");
        let d = self.dst().to_string();
        push_str(&mut s, d.as_str());
        push_str(&mut s, ", ether_type: ");
        let t = self.ether_type().to_string();
        push_str(&mut s, t.as_str());
        s
    }
}

impl Ethernet {
    /// An Ethernet packet's cascade leaves the bytes as they are.
    pub proof fn lemma_cascade_view(&self)
        ensures
            forall|v: Seq<u8>| #[trigger] self.spec_cascade_view(v) == v,
    {
    }
}

impl Packet for Ethernet {
    /// The Ethernet header derives nothing: the envelope's cascade.
    closed spec fn spec_cascade_view(&self, v: Seq<u8>) -> Seq<u8> {
        self.envelope.spec_cascade_view(v)
    }

    closed spec fn spec_mbuf(&self) -> MBuf {
        self.envelope.spec_mbuf()
    }

    closed spec fn spec_offset(&self) -> nat {
        self.offset as nat
    }

    open spec fn spec_header_len(&self) -> nat {
        14
    }

    closed spec fn inv(&self) -> bool {
        &&& self.envelope.inv()
        &&& self.offset == payload_offset_of(&self.envelope)
        &&& self.offset + 14 <= bytes_of(&self.envelope).len()
    }

    proof fn lemma_inv(&self) {
        self.envelope.lemma_inv();
        assert(self.spec_offset() == self.offset);
        assert(self.spec_mbuf() == self.envelope.spec_mbuf());
        assert(self.offset + 14 <= bytes_of(&self.envelope).len());
        assert(self.spec_header_len() == 14);
    }

    fn mbuf(&self) -> (r: &MBuf) {
        self.envelope.mbuf()
    }

    fn offset(&self) -> (r: usize) {
        self.offset
    }

    fn header_len(&self) -> (r: usize) {
        14
    }

    fn write_bytes(&mut self, pos: usize, bytes: &[u8]) {
        proof {
            self.envelope.lemma_inv();
        }
        self.envelope.write_bytes(pos, bytes);
    }

    fn resize(&mut self, pos: usize, len: isize) -> (r: Result<(), BufferError>) {
        proof {
            self.envelope.lemma_inv();
        }
        let r = self.envelope.resize(pos, len);
        proof {
            if r is Ok && pos <= bytes_of(&old(self).envelope).len() {
                crate::packets::lemma_resize_len(bytes_of(&old(self).envelope), pos as nat, len as int);
            }
        }
        r
    }

    fn cascade(&mut self) {
        self.envelope.cascade();
    }

    fn into_mbuf(self) -> (r: MBuf) {
        proof {
            self.envelope.lemma_inv();
        }
        self.envelope.into_mbuf()
    }
}

impl ParsedPacket for Ethernet {
    type Envelope = RawPacket;

    open spec fn spec_parses(envelope: RawPacket) -> bool {
        read_spec(bytes_of(&envelope).len(), payload_offset_of(&envelope), 14) is Ok
    }

    open spec fn spec_default_header(envelope: RawPacket) -> Seq<u8> {
        Seq::new(14, |i: int| 0u8)
    }


    closed spec fn spec_envelope(&self) -> RawPacket {
        self.envelope
    }

    proof fn lemma_envelope(&self) {
    }

    fn envelope(&self) -> (r: &RawPacket) {
        &self.envelope
    }

    fn deparse(self) -> (r: RawPacket) {
        self.envelope
    }

    fn do_parse(envelope: RawPacket) -> (r: Result<Self, PacketError>)
        ensures
            match read_spec(bytes_of(&envelope).len(), payload_offset_of(&envelope), 14) {
                Ok(_) => r matches Ok(p) && p.spec_offset() == payload_offset_of(&envelope),
                Err(e) => r matches Err(PacketError::Buffer(e2)) && e2 == e,
            },
    {
        let offset = envelope.payload_offset();
        match read_item::<EthernetHeader>(envelope.mbuf(), offset) {
            Ok(_) => Ok(Ethernet { envelope, offset }),
            Err(e) => Err(PacketError::Buffer(e)),
        }
    }

    fn do_push(envelope: RawPacket) -> (r: Result<Self, PacketError>)
        ensures
            !resize_fails(envelope.spec_mbuf(), payload_offset_of(&envelope), 14) ==> (r matches Ok(
                p,
            ) && bytes_of(&p) == splice(
                resize_spec(bytes_of(&envelope), payload_offset_of(&envelope), 14),
                payload_offset_of(&envelope),
                Seq::new(14, |i: int| 0u8),
            )),
            resize_fails(envelope.spec_mbuf(), payload_offset_of(&envelope), 14) ==> r matches Err(
                PacketError::Buffer(BufferError::NotResized),
            ),
    {
        let mut envelope = envelope;
        proof {
            envelope.lemma_inv();
        }
        let offset = envelope.payload_offset();
        let ghost before = bytes_of(&envelope);
        match envelope.resize(offset, 14) {
            Ok(_) => {},
            Err(e) => {
                return Err(PacketError::Buffer(e));
            },
        }
        proof {
            crate::packets::lemma_resize_len(before, offset as nat, 14);
        }
        let header = EthernetHeader::new();
        let bytes = header.to_bytes();
        envelope.write_bytes(offset, bytes.as_slice());
        Ok(Ethernet { envelope, offset })
    }

    fn remove(self) -> (r: Result<RawPacket, PacketError>)
        ensures
            r matches Ok(e) && bytes_of(&e) == crate::packets::buffer::dealloc_spec(
                bytes_of(&self),
                self.spec_offset(),
                14,
            ),
    {
        let mut envelope = self.envelope;
        let offset = self.offset;
        proof {
            envelope.lemma_inv();
        }
        match envelope.resize(offset, -14) {
            Ok(_) => Ok(envelope),
            Err(e) => Err(PacketError::Buffer(e)),
        }
    }
}

} // verus!
