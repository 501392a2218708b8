//! The internet checksum (RFC 1071) and its incremental update (RFC 1624).
use vstd::prelude::*;
use vstd::arithmetic::div_mod::*;
use crate::packets::ip::{is_v6, v6_bytes, IpAddr, IpAddrMismatchError, Ipv4Addr, Ipv6Addr, ProtocolNumber};
use crate::packets::mbuf::splice;

verus! {

/// The `j`-th 16-bit word of `s`, its first octet most significant.
pub open spec fn be_word(s: Seq<u8>, j: int) -> nat {
    (s[2 * j] as nat) * 256 + s[2 * j + 1] as nat
}

/// Sum of the first `n` big-endian 16-bit words of `s`.
pub open spec fn words_sum(s: Seq<u8>, n: nat) -> nat
    decreases n,
{
    if n == 0 {
        0
    } else {
        words_sum(s, (n - 1) as nat) + be_word(s, n - 1)
    }
}

/// Sum of the octets paired into 16-bit words; an odd last octet is padded
/// on the right with zero.
pub open spec fn octets_sum(s: Seq<u8>) -> nat {
    words_sum(s, s.len() / 2) + if s.len() % 2 == 1 {
        (s[s.len() - 1] as nat) * 256
    } else {
        0
    }
}

/// Folds the carries of a sum back into its low 16 bits until none is left
/// (the end-around carry of ones' complement addition).
pub open spec fn fold16(x: nat) -> nat
    decreases x,
{
    if x < 0x10000 {
        x
    } else {
        fold16(x / 0x10000 + x % 0x10000)
    }
}

/// Sum of the elements of `s`.
pub open spec fn seq_sum(s: Seq<u16>) -> nat
    decreases s.len(),
{
    if s.len() == 0 {
        0
    } else {
        seq_sum(s.drop_last()) + s.last() as nat
    }
}

/// The checksum over `payload` when the pseudo header sums to `pseudo_header_sum`:
/// the ones' complement of the folded ones' complement sum.
pub open spec fn checksum_spec(pseudo_header_sum: u16, payload: Seq<u8>) -> u16 {
    (0xffff - fold16(pseudo_header_sum as nat + octets_sum(payload))) as u16
}

/// The sum that `compute_inc` folds: `~HC` plus, for each replaced field,
/// `~m + m'`.
pub open spec fn inc_sum(old_checksum: u16, old_value: Seq<u16>, new_value: Seq<u16>) -> nat
    decreases old_value.len(),
{
    if old_value.len() == 0 || new_value.len() == 0 {
        (0xffff - old_checksum) as nat
    } else {
        let n = if old_value.len() <= new_value.len() { old_value.len() } else { new_value.len() };
        inc_sum(old_checksum, old_value.take(n - 1), new_value.take(n - 1)) + (0xffff
            - old_value[n - 1]) as nat + new_value[n - 1] as nat
    }
}

/// The checksum after replacing the fields `old_value` by `new_value`
/// (as many pairs as the shorter of the two holds), given the old checksum.
pub open spec fn inc_spec(old_checksum: u16, old_value: Seq<u16>, new_value: Seq<u16>) -> u16 {
    (0xffff - fold16(inc_sum(old_checksum, old_value, new_value))) as u16
}

/// `fold16(x)` fits in 16 bits, is congruent to `x` modulo 0xffff, and is
/// zero exactly when `x` is.
pub proof fn lemma_fold16(x: nat)
    ensures
        fold16(x) < 0x10000,
        fold16(x) % 0xffff == x % 0xffff,
        (fold16(x) == 0) == (x == 0),
    decreases x,
{
    if x >= 0x10000 {
        let q = x / 0x10000;
        let r = x % 0x10000;
        lemma_fundamental_div_mod(x as int, 0x10000);
        assert(x == 0x10000 * q + r);
        assert(q >= 1);
        let y = q + r;
        assert(x == 0xffff * q + y);
        lemma_mod_multiples_vanish(q as int, y as int, 0xffff);
        lemma_fold16(y);
    }
}

/// A value below 0x10000 that is positive and a multiple of 0xffff is 0xffff.
proof fn lemma_positive_multiple(f: nat)
    requires
        f < 0x10000,
        f > 0,
        f % 0xffff == 0,
    ensures
        f == 0xffff,
{
    lemma_fundamental_div_mod(f as int, 0xffff);
}

/// Two folded values that agree modulo 0xffff and are both positive are equal.
proof fn lemma_fold16_eq(x: nat, y: nat)
    requires
        x % 0xffff == y % 0xffff,
        x > 0,
        y > 0,
    ensures
        fold16(x) == fold16(y),
{
    lemma_fold16(x);
    lemma_fold16(y);
    let a = fold16(x);
    let b = fold16(y);
    lemma_fundamental_div_mod(a as int, 0xffff);
    lemma_fundamental_div_mod(b as int, 0xffff);
    // both lie in 1..=0xffff and share their residue
    if a == 0xffff || b == 0xffff {
        assert(a % 0xffff == 0 || b % 0xffff == 0);
        if a == 0xffff {
            lemma_positive_multiple(b);
        } else {
            lemma_positive_multiple(a);
        }
    } else {
        lemma_small_mod(a, 0xffff);
        lemma_small_mod(b, 0xffff);
    }
}

/// Each word is at most 0xffff, so `n` words sum to at most `0xffff * n`.
pub proof fn lemma_words_sum_bound(s: Seq<u8>, n: nat)
    requires
        2 * n <= s.len(),
    ensures
        words_sum(s, n) <= 0xffff * n,
    decreases n,
{
    if n > 0 {
        lemma_words_sum_bound(s, (n - 1) as nat);
    }
}

/// Folds a 32-bit running sum; returns `fold16(sum)`.
fn fold_u32(sum: u32) -> (r: u32)
    ensures
        r == fold16(sum as nat),
        r < 0x10000,
{
    let mut checksum = sum;
    while checksum >> 16 != 0
        invariant
            fold16(checksum as nat) == fold16(sum as nat),
        decreases checksum,
    {
        let c = checksum;
        assert(c >> 16 == c / 0x10000 && c & 0xffff == c % 0x10000 && (c >> 16 != 0 ==> c
            >= 0x10000)) by (bit_vector);
        checksum = (checksum >> 16) + (checksum & 0xFFFF);
    }
    let c = checksum;
    assert(c >> 16 == 0 ==> c < 0x10000) by (bit_vector);
    proof {
        lemma_fold16(sum as nat);
    }
    checksum
}

/// The ones' complement of a 16-bit value, as `0xffff - v`.
fn complement16(v: u32) -> (r: u16)
    requires
        v < 0x10000,
    ensures
        r == 0xffff - v,
{
    assert(v < 0x10000 ==> !(v as u16) == (0xffff - v) as u16) by (bit_vector);
    !(v as u16)
}

/// Computes the internet checksum (RFC 1071): the octets, paired into 16-bit
/// words (an odd last octet padded with zero), are added in ones' complement
/// arithmetic to the pseudo-header sum, and the complement of that sum is
/// returned.
pub fn compute(pseudo_header_sum: u16, payload: &[u8]) -> (r: u16)
    requires
        payload.len() <= 131072,
    ensures
        r == checksum_spec(pseudo_header_sum, payload@),
{
    let len = payload.len();
    let mut checksum: u32 = pseudo_header_sum as u32;
    let ghost odd: nat = 0;
    if len % 2 > 0 {
        checksum = checksum + (payload[len - 1] as u32) * 256;
        proof {
            odd = (payload@[len - 1] as nat) * 256;
        }
    }
    let n = len / 2;
    let mut i: usize = 0;
    while i < n
        invariant
            i <= n,
            n == len / 2,
            len == payload@.len(),
            len <= 131072,
            odd <= 0xff00,
            odd == (if len % 2 == 1 {
                (payload@[len - 1] as nat) * 256
            } else {
                0
            }),
            checksum as nat == pseudo_header_sum as nat + odd + words_sum(payload@, i as nat),
        decreases n - i,
    {
        proof {
            lemma_words_sum_bound(payload@, i as nat);
        }
        let w = (payload[2 * i] as u32) * 256 + payload[2 * i + 1] as u32;
        checksum = checksum + w;
        i = i + 1;
    }
    let folded = fold_u32(checksum);
    complement16(folded)
}

/// Computes the checksum by incremental update (RFC 1624): given the old
/// checksum `HC`, the old field values `m` and the new ones `m'`, returns
/// `~(~HC + ~m + m')` in ones' complement arithmetic. Pairs are taken up to
/// the length of the shorter slice.
pub fn compute_inc(old_checksum: u16, old_value: &[u16], new_value: &[u16]) -> (r: u16)
    requires
        old_value.len() <= 32768 || new_value.len() <= 32768,
    ensures
        r == inc_spec(old_checksum, old_value@, new_value@),
{
    let n = if old_value.len() <= new_value.len() {
        old_value.len()
    } else {
        new_value.len()
    };
    let mut checksum: u32 = (0xffff - old_checksum) as u32;
    let mut i: usize = 0;
    while i < n
        invariant
            i <= n,
            n <= 32768,
            n == (if old_value@.len() <= new_value@.len() {
                old_value@.len()
            } else {
                new_value@.len()
            }),
            checksum as nat == inc_sum(old_checksum, old_value@.take(i as int), new_value@.take(i as int)),
            checksum <= 0xffff + 0x1fffe * i,
        decreases n - i,
    {
        proof {
            let o = old_value@.take(i + 1);
            let w = new_value@.take(i + 1);
            assert(o.take(i as int) =~= old_value@.take(i as int));
            assert(w.take(i as int) =~= new_value@.take(i as int));
            assert(o[i as int] == old_value@[i as int]);
            assert(w[i as int] == new_value@[i as int]);
        }
        checksum = checksum + (0xffff - old_value[i]) as u32 + new_value[i] as u32;
        i = i + 1;
    }
    proof {
        if n == old_value@.len() {
            assert(old_value@.take(n as int) =~= old_value@);
        }
        if n == new_value@.len() {
            assert(new_value@.take(n as int) =~= new_value@);
        }
        lemma_inc_sum_prefix(old_checksum, old_value@, new_value@);
    }
    let folded = fold_u32(checksum);
    complement16(folded)
}

/// `inc_sum` only looks at as many pairs as the shorter sequence holds.
proof fn lemma_inc_sum_prefix(hc: u16, o: Seq<u16>, w: Seq<u16>)
    ensures
        ({
            let n = if o.len() <= w.len() { o.len() } else { w.len() };
            inc_sum(hc, o, w) == inc_sum(hc, o.take(n as int), w.take(n as int))
        }),
{
    let n = if o.len() <= w.len() { o.len() } else { w.len() };
    if n > 0 {
        let o2 = o.take(n as int);
        let w2 = w.take(n as int);
        assert(o2.take(n - 1) =~= o.take(n - 1));
        assert(w2.take(n - 1) =~= w.take(n - 1));
    }
}


/// `data` with the 16-bit words `ws` written, high octet first, from the
/// octet offset `k` on.
pub open spec fn replace_words(data: Seq<u8>, k: nat, ws: Seq<u16>) -> Seq<u8> {
    Seq::new(
        data.len(),
        |i: int|
            if k <= i < k + 2 * ws.len() {
                if (i - k) % 2 == 0 {
                    (ws[(i - k) / 2] / 256) as u8
                } else {
                    (ws[(i - k) / 2] % 256) as u8
                }
            } else {
                data[i]
            },
    )
}

/// The words of `data` from word index `k / 2` on, `n` of them.
pub open spec fn words_at(data: Seq<u8>, k: nat, n: nat) -> Seq<u16> {
    Seq::new(n, |j: int| be_word(data, k / 2 + j) as u16)
}

proof fn lemma_be_word_replaced(d: Seq<u8>, k: nat, ws: Seq<u16>, w: int)
    requires
        k % 2 == 0,
        k + 2 * ws.len() <= d.len(),
        0 <= w,
        2 * w + 1 < d.len(),
    ensures
        be_word(replace_words(d, k, ws), w) == if k / 2 <= w < k / 2 + ws.len() {
            ws[w - k / 2] as nat
        } else {
            be_word(d, w)
        },
{
    let r = replace_words(d, k, ws);
    let lo = k / 2;
    if lo <= w < lo + ws.len() {
        let i = 2 * w;
        assert(k <= i < k + 2 * ws.len());
        assert((i - k) % 2 == 0);
        assert((i - k) / 2 == w - lo);
        assert((i + 1 - k) % 2 == 1);
        assert((i + 1 - k) / 2 == w - lo);
        let v = ws[w - lo];
        assert(r[i] == (v / 256) as u8);
        assert(r[i + 1] == (v % 256) as u8);
        assert((v / 256) * 256 + v % 256 == v);
    } else {
        assert(2 * w < k || 2 * w >= k + 2 * ws.len());
    }
}

proof fn lemma_words_sum_replaced(d: Seq<u8>, k: nat, ws: Seq<u16>, m: nat)
    requires
        k % 2 == 0,
        k + 2 * ws.len() <= d.len(),
        2 * m <= d.len(),
    ensures
        ({
            let lo = k / 2;
            let c: int = if m <= lo { 0 } else if m >= lo + ws.len() { ws.len() as int } else { m - lo };
            words_sum(replace_words(d, k, ws), m) + seq_sum(words_at(d, k, ws.len()).take(c))
                == words_sum(d, m) + seq_sum(ws.take(c))
        }),
    decreases m,
{
    let lo = k / 2;
    let n = ws.len();
    let olds = words_at(d, k, n);
    if m == 0 {
        assert(olds.take(0) =~= Seq::<u16>::empty());
        assert(ws.take(0) =~= Seq::<u16>::empty());
    } else {
        lemma_words_sum_replaced(d, k, ws, (m - 1) as nat);
        lemma_be_word_replaced(d, k, ws, m - 1);
        let c0: int = if m - 1 <= lo { 0 } else if m - 1 >= lo + n { n as int } else { m - 1 - lo };
        let c1: int = if m <= lo { 0 } else if m >= lo + n { n as int } else { m - lo };
        if lo <= m - 1 < lo + n {
            assert(c1 == c0 + 1);
            assert(olds.take(c1).drop_last() =~= olds.take(c0));
            assert(ws.take(c1).drop_last() =~= ws.take(c0));
            assert(olds[m - 1 - lo] == be_word(d, m - 1) as u16);
            assert(be_word(d, m - 1) < 0x10000);
        } else {
            assert(c1 == c0);
        }
    }
}

/// The octet sum after the replacement differs from the one before by the
/// new words minus the old ones.
pub proof fn lemma_octets_sum_replaced(d: Seq<u8>, k: nat, ws: Seq<u16>)
    requires
        k % 2 == 0,
        k + 2 * ws.len() <= d.len(),
    ensures
        octets_sum(replace_words(d, k, ws)) + seq_sum(words_at(d, k, ws.len())) == octets_sum(d)
            + seq_sum(ws),
{
    let n = ws.len();
    let m = d.len() / 2;
    lemma_words_sum_replaced(d, k, ws, m);
    assert(k / 2 + n <= m);
    assert(words_at(d, k, n).take(n as int) =~= words_at(d, k, n));
    assert(ws.take(n as int) =~= ws);
    if d.len() % 2 == 1 {
        assert(replace_words(d, k, ws)[d.len() - 1] == d[d.len() - 1]);
    }
}

proof fn lemma_seq_sum_bound(s: Seq<u16>)
    ensures
        seq_sum(s) <= 0xffff * s.len(),
    decreases s.len(),
{
    if s.len() > 0 {
        lemma_seq_sum_bound(s.drop_last());
    }
}

proof fn lemma_inc_sum_closed(hc: u16, o: Seq<u16>, w: Seq<u16>)
    requires
        o.len() == w.len(),
    ensures
        inc_sum(hc, o, w) + seq_sum(o) == (0xffff - hc) + 0xffff * o.len() + seq_sum(w),
    decreases o.len(),
{
    let n = o.len();
    if n > 0 {
        lemma_inc_sum_closed(hc, o.take(n - 1), w.take(n - 1));
        assert(o.drop_last() =~= o.take(n - 1));
        assert(w.drop_last() =~= w.take(n - 1));
    }
}

/// Placing the computed checksum into a zeroed 16-bit field of the data
/// makes the folded ones' complement sum over pseudo header and data all
/// ones, so the check of RFC 1071 succeeds.
pub proof fn law_checksum_verifies(pseudo_header_sum: u16, data: Seq<u8>, k: nat)
    requires
        k % 2 == 0,
        k + 2 <= data.len(),
        data[k as int] == 0,
        data[k + 1 as int] == 0,
    ensures
        fold16(
            pseudo_header_sum as nat + octets_sum(
                replace_words(data, k, seq![checksum_spec(pseudo_header_sum, data)]),
            ),
        ) == 0xffff,
{
    let s = pseudo_header_sum as nat + octets_sum(data);
    lemma_fold16(s);
    let f = fold16(s);
    let c = checksum_spec(pseudo_header_sum, data);
    assert(c == 0xffff - f);
    let ws = seq![c];
    lemma_octets_sum_replaced(data, k, ws);
    let olds = words_at(data, k, 1);
    assert(olds[0] == 0);
    reveal_with_fuel(seq_sum, 2);
    assert(olds.drop_last() =~= Seq::<u16>::empty());
    assert(seq_sum(olds) == 0);
    assert(ws.drop_last() =~= Seq::<u16>::empty());
    assert(seq_sum(ws) == c);
    let s2: nat = s + c as nat;
    assert(pseudo_header_sum as nat + octets_sum(replace_words(data, k, ws)) == s2);
    // s2 = s - f + 0xffff, and s is congruent to f
    lemma_fundamental_div_mod(s as int, 0xffff);
    lemma_fundamental_div_mod(f as int, 0xffff);
    assert(s2 == (s - f) + 0xffff);
    assert((s - f) % 0xffff == 0) by {
        lemma_sub_mod_noop(s as int, f as int, 0xffff);
    }
    assert(s2 % 0xffff == 0) by {
        lemma_mod_multiples_vanish(1, (s - f) as int, 0xffff);
    }
    assert(s2 > 0);
    lemma_fold16(s2);
    lemma_positive_multiple(fold16(s2));
}

/// Updating the checksum incrementally (RFC 1624) after the words at octet
/// offset `k` change from their old values to `new_value` gives the checksum
/// computed afresh over the changed data. The one exception is the changed
/// data summing to zero with the pseudo header, where a fresh computation
/// gives 0xffff and the update its other representation of zero, 0x0000.
pub proof fn law_incremental_update(
    pseudo_header_sum: u16,
    data: Seq<u8>,
    k: nat,
    new_value: Seq<u16>,
)
    requires
        k % 2 == 0,
        k + 2 * new_value.len() <= data.len(),
        pseudo_header_sum as nat + octets_sum(replace_words(data, k, new_value)) > 0,
    ensures
        inc_spec(
            checksum_spec(pseudo_header_sum, data),
            words_at(data, k, new_value.len()),
            new_value,
        ) == checksum_spec(pseudo_header_sum, replace_words(data, k, new_value)),
{
    let n = new_value.len();
    let olds = words_at(data, k, n);
    let s = pseudo_header_sum as nat + octets_sum(data);
    let s2 = pseudo_header_sum as nat + octets_sum(replace_words(data, k, new_value));
    lemma_fold16(s);
    let f = fold16(s);
    let hc = checksum_spec(pseudo_header_sum, data);
    assert(0xffff - hc == f);
    lemma_octets_sum_replaced(data, k, new_value);
    lemma_inc_sum_closed(hc, olds, new_value);
    lemma_seq_sum_bound(olds);
    let t = inc_sum(hc, olds, new_value);
    assert(t == f + (0xffff * n - seq_sum(olds)) + seq_sum(new_value));
    assert(s2 == s - seq_sum(olds) + seq_sum(new_value));
    // t and s2 agree modulo 0xffff
    let x: int = s2 as int;
    let y: int = f + seq_sum(new_value) - seq_sum(olds);
    assert(t == y + 0xffff * n);
    assert(x == (s as int) + seq_sum(new_value) - seq_sum(olds));
    assert(x % 0xffff == y % 0xffff) by {
        let e: int = seq_sum(new_value) - seq_sum(olds);
        lemma_add_mod_noop(s as int, e, 0xffff);
        lemma_add_mod_noop(f as int, e, 0xffff);
    }
    assert(t % 0xffff == y % 0xffff) by {
        lemma_mod_multiples_vanish(n as int, y, 0xffff);
    }
    // t is positive
    if f == 0 {
        assert(s == 0);
        assert(t >= seq_sum(new_value));
        assert(seq_sum(new_value) >= s2);
    }
    assert(t > 0);
    lemma_fold16_eq(t, s2);
}


/// Generic pseudo header used for checksumming purposes.
#[derive(Clone, Copy, Debug)]
pub enum PseudoHeader {
    V4 { src: Ipv4Addr, dst: Ipv4Addr, packet_len: u16, protocol: ProtocolNumber },
    V6 { src: Ipv6Addr, dst: Ipv6Addr, packet_len: u16, protocol: ProtocolNumber },
}

/// The two 16-bit words of an IPv4 address.
pub open spec fn v4_words(a: Ipv4Addr) -> Seq<u16> {
    seq![((a.0[0] as nat) * 256 + a.0[1] as nat) as u16, ((a.0[2] as nat) * 256 + a.0[3] as nat) as u16]
}

/// The 16-bit words an address contributes to a checksum.
pub open spec fn ip_words(a: IpAddr) -> Seq<u16> {
    match a {
        IpAddr::V4(x) => v4_words(x),
        IpAddr::V6(x) => x.0@,
    }
}

/// The unfolded sum of the pseudo header's 16-bit words.
pub open spec fn pseudo_header_raw_sum(ph: PseudoHeader) -> nat {
    match ph {
        PseudoHeader::V4 { src, dst, packet_len, protocol } => seq_sum(v4_words(src)) + seq_sum(
            v4_words(dst),
        ) + protocol.0 as nat + packet_len as nat,
        PseudoHeader::V6 { src, dst, packet_len, protocol } => seq_sum(src.0@) + seq_sum(dst.0@)
            + packet_len as nat + protocol.0 as nat,
    }
}

/// Sum of the eight segments of an IPv6 address.
fn segments_sum(a: &Ipv6Addr) -> (r: u32)
    ensures
        r == seq_sum(a.0@),
        r <= 0xffff * 8,
{
    let mut acc: u32 = 0;
    let mut i: usize = 0;
    while i < 8
        invariant
            i <= 8,
            acc == seq_sum(a.0@.take(i as int)),
            acc <= 0xffff * i,
        decreases 8 - i,
    {
        proof {
            assert(a.0@.take(i + 1).drop_last() =~= a.0@.take(i as int));
        }
        acc = acc + a.0[i] as u32;
        i = i + 1;
    }
    assert(a.0@.take(8) =~= a.0@);
    acc
}

impl PseudoHeader {
    /// The folded ones' complement sum of the pseudo header.
    pub fn sum(&self) -> (r: u16)
        ensures
            r == fold16(pseudo_header_raw_sum(*self)),
    {
        let sum: u32 = match *self {
            PseudoHeader::V4 { src, dst, packet_len, protocol } => self.v4_sum(
                src,
                dst,
                packet_len,
                protocol,
            ),
            PseudoHeader::V6 { src, dst, packet_len, protocol } => self.v6_sum(
                src,
                dst,
                packet_len,
                protocol,
            ),
        };
        let folded = fold_u32(sum);
        folded as u16
    }

    fn v4_sum(&self, src: Ipv4Addr, dst: Ipv4Addr, packet_len: u16, protocol: ProtocolNumber) -> (r:
        u32)
        ensures
            r == seq_sum(v4_words(src)) + seq_sum(v4_words(dst)) + protocol.0 as nat
                + packet_len as nat,
    {
        reveal_with_fuel(seq_sum, 3);
        let src_hi = (src.0[0] as u32) * 256 + src.0[1] as u32;
        let src_lo = (src.0[2] as u32) * 256 + src.0[3] as u32;
        let dst_hi = (dst.0[0] as u32) * 256 + dst.0[1] as u32;
        let dst_lo = (dst.0[2] as u32) * 256 + dst.0[3] as u32;
        assert(v4_words(src).drop_last().drop_last() =~= Seq::<u16>::empty());
        assert(v4_words(dst).drop_last().drop_last() =~= Seq::<u16>::empty());
        src_hi + src_lo + dst_hi + dst_lo + protocol.0 as u32 + packet_len as u32
    }

    fn v6_sum(&self, src: Ipv6Addr, dst: Ipv6Addr, packet_len: u16, protocol: ProtocolNumber) -> (r:
        u32)
        ensures
            r == seq_sum(src.0@) + seq_sum(dst.0@) + packet_len as nat + protocol.0 as nat,
    {
        let a = segments_sum(&src);
        let b = segments_sum(&dst);
        a + b + packet_len as u32 + protocol.0 as u32
    }
}

/// The two 16-bit words of an IPv4 address.
fn v4_word_array(a: &Ipv4Addr) -> (r: [u16; 2])
    ensures
        r@ == v4_words(*a),
{
    let r = [
        (a.0[0] as u16) * 256 + a.0[1] as u16,
        (a.0[2] as u16) * 256 + a.0[3] as u16,
    ];
    assert(r@ =~= v4_words(*a));
    r
}

/// Incrementally computes the new checksum for an IP address change.
/// Both addresses must be of the same version.
pub fn compute_with_ipaddr(old_checksum: u16, old_value: &IpAddr, new_value: &IpAddr) -> (r: Result<
    u16,
    IpAddrMismatchError,
>)
    ensures
        match (*old_value, *new_value) {
            (IpAddr::V4(_), IpAddr::V4(_)) | (IpAddr::V6(_), IpAddr::V6(_)) => r == Ok::<
                u16,
                IpAddrMismatchError,
            >(inc_spec(old_checksum, ip_words(*old_value), ip_words(*new_value))),
            _ => r == Err::<u16, IpAddrMismatchError>(IpAddrMismatchError),
        },
{
    match (old_value, new_value) {
        (IpAddr::V4(old), IpAddr::V4(new)) => {
            let o = v4_word_array(old);
            let n = v4_word_array(new);
            Ok(compute_inc(old_checksum, o.as_slice(), n.as_slice()))
        },
        (IpAddr::V6(old), IpAddr::V6(new)) => {
            let o = old.segments();
            let n = new.segments();
            Ok(compute_inc(old_checksum, o.as_slice(), n.as_slice()))
        },
        _ => Err(IpAddrMismatchError),
    }
}

/// `x` and `y` agree modulo 0xffff where `x` does with `u` and `y` with
/// `v`, and `u` with `v`, once `e` is added to `u` and `v`.
proof fn lemma_mod_shift(x: int, y: int, u: int, v: int, e: int)
    requires
        x % 0xffff == (u + e) % 0xffff,
        y % 0xffff == (v + e) % 0xffff,
        u % 0xffff == v % 0xffff,
    ensures
        x % 0xffff == y % 0xffff,
{
    lemma_add_mod_noop(u, e, 0xffff);
    lemma_add_mod_noop(v, e, 0xffff);
}

/// Folding a sum before adding more to it leaves its residue modulo 0xffff.
proof fn lemma_fold_then_add(r: nat, s: nat)
    ensures
        (fold16(r) + s) % 0xffff == (r + s) % 0xffff,
{
    lemma_fold16(r);
    lemma_add_mod_noop(fold16(r) as int, s as int, 0xffff);
    lemma_add_mod_noop(r as int, s as int, 0xffff);
}

/// The checksum over data that sums to `s` under a pseudo header that sums
/// to `a` plus the words `o`, updated incrementally from `o` to `w`, is the
/// checksum under the pseudo header that sums to `a` plus `w`, but where
/// that new sum with the data is zero.
proof fn lemma_pseudo_header_update(a: nat, s: nat, o: Seq<u16>, w: Seq<u16>)
    requires
        o.len() == w.len(),
        a + seq_sum(w) + s > 0,
    ensures
        ({
            let hc = (0xffff - fold16(fold16(a + seq_sum(o)) + s)) as u16;
            (0xffff - fold16(inc_sum(hc, o, w))) as u16 == (0xffff - fold16(fold16(a + seq_sum(w)) + s)) as u16
        }),
{
    let n = o.len();
    let so = seq_sum(o);
    let sw = seq_sum(w);
    let r = a + so;
    let f1 = fold16(r);
    lemma_fold16(r);
    lemma_fold16(f1 + s);
    let f = fold16(f1 + s);
    let hc = (0xffff - f) as u16;
    assert(0xffff - hc == f);
    lemma_inc_sum_closed(hc, o, w);
    lemma_seq_sum_bound(o);
    let t = inc_sum(hc, o, w);
    assert(t == f + (0xffff * n - so) + sw);
    let f2 = fold16(a + sw);
    lemma_fold16(a + sw);
    let x = f2 + s;
    let e: int = sw - so;
    // t agrees with r + s + e, and so does x
    lemma_fold_then_add(r, s);
    assert(f % 0xffff == (r + s) % 0xffff);
    assert(t % 0xffff == (f + e) % 0xffff) by {
        lemma_mod_multiples_vanish(n as int, f + e, 0xffff);
        assert(t == (f + e) + 0xffff * n);
    }
    lemma_fold_then_add(a + sw, s);
    assert(x % 0xffff == ((r + s) + e) % 0xffff);
    lemma_mod_shift(t as int, x as int, f as int, (r + s) as int, e);
    // both are positive
    if f == 0 {
        assert(f1 + s == 0);
        assert(r == 0);
        assert(so == 0);
        assert(t >= sw);
        assert(a == 0);
        assert(sw + s > 0);
    }
    assert(t > 0);
    if s == 0 {
        assert(a + sw > 0);
        assert(f2 > 0);
    }
    assert(x > 0);
    lemma_fold16_eq(t, x);
}

/// Rewriting the destination of an IPv6 pseudo header, and updating the
/// checksum incrementally from the old address's words to the new one's,
/// as `compute_with_ipaddr` does, gives the checksum computed afresh under
/// the rewritten pseudo header. The one exception is the new pseudo header
/// and data summing to zero, where the two differ in their representation
/// of zero.
pub proof fn law_v6_dst_update(
    src: Ipv6Addr,
    dst: Ipv6Addr,
    new_dst: Ipv6Addr,
    packet_len: u16,
    protocol: ProtocolNumber,
    data: Seq<u8>,
)
    requires
        pseudo_header_raw_sum(PseudoHeader::V6 { src, dst: new_dst, packet_len, protocol }) + octets_sum(data) > 0,
    ensures
        inc_spec(
            checksum_spec(
                fold16(pseudo_header_raw_sum(PseudoHeader::V6 { src, dst, packet_len, protocol })) as u16,
                data,
            ),
            ip_words(IpAddr::V6(dst)),
            ip_words(IpAddr::V6(new_dst)),
        ) == checksum_spec(
            fold16(pseudo_header_raw_sum(PseudoHeader::V6 { src, dst: new_dst, packet_len, protocol })) as u16,
            data,
        ),
{
    let a = seq_sum(src.0@) + packet_len as nat + protocol.0 as nat;
    lemma_fold16(pseudo_header_raw_sum(PseudoHeader::V6 { src, dst, packet_len, protocol }));
    lemma_fold16(pseudo_header_raw_sum(PseudoHeader::V6 { src, dst: new_dst, packet_len, protocol }));
    lemma_pseudo_header_update(a, octets_sum(data), dst.0@, new_dst.0@);
}

/// Rewriting the source of an IPv6 pseudo header, and updating the checksum
/// incrementally from the old address's words to the new one's, gives the
/// checksum computed afresh under the rewritten pseudo header, but where the
/// new pseudo header and data sum to zero.
pub proof fn law_v6_src_update(
    src: Ipv6Addr,
    new_src: Ipv6Addr,
    dst: Ipv6Addr,
    packet_len: u16,
    protocol: ProtocolNumber,
    data: Seq<u8>,
)
    requires
        pseudo_header_raw_sum(PseudoHeader::V6 { src: new_src, dst, packet_len, protocol }) + octets_sum(data) > 0,
    ensures
        inc_spec(
            checksum_spec(
                fold16(pseudo_header_raw_sum(PseudoHeader::V6 { src, dst, packet_len, protocol })) as u16,
                data,
            ),
            ip_words(IpAddr::V6(src)),
            ip_words(IpAddr::V6(new_src)),
        ) == checksum_spec(
            fold16(pseudo_header_raw_sum(PseudoHeader::V6 { src: new_src, dst, packet_len, protocol })) as u16,
            data,
        ),
{
    let a = seq_sum(dst.0@) + packet_len as nat + protocol.0 as nat;
    lemma_fold16(pseudo_header_raw_sum(PseudoHeader::V6 { src, dst, packet_len, protocol }));
    lemma_fold16(pseudo_header_raw_sum(PseudoHeader::V6 { src: new_src, dst, packet_len, protocol }));
    lemma_pseudo_header_update(a, octets_sum(data), src.0@, new_src.0@);
}

/// The octets of an address as they stand in a header, in network order.
pub open spec fn ip_bytes(a: IpAddr) -> Seq<u8> {
    match a {
        IpAddr::V4(x) => x.0@,
        IpAddr::V6(x) => v6_bytes(x.0@),
    }
}

/// A 16-bit value split into its high and low octet and put together again
/// is the value, and two octets put together and split again are the
/// octets.
proof fn lemma_word_octets(v: u16, hi: u8, lo: u8)
    ensures
        ((v / 256) as u8 as nat) * 256 + ((v % 256) as u8 as nat) == v,
        (((hi as nat) * 256 + lo as nat) as u16 / 256) as u8 == hi,
        (((hi as nat) * 256 + lo as nat) as u16 % 256) as u8 == lo,
{
    lemma_fundamental_div_mod(v as int, 256);
    let w = (hi as nat) * 256 + lo as nat;
    assert(w < 0x10000);
    lemma_fundamental_div_mod(w as int, 256);
    lemma_div_multiples_vanish_fancy(hi as int, lo as int, 256);
    lemma_mod_multiples_vanish(hi as int, lo as int, 256);
    lemma_small_mod(lo as nat, 256);
}

/// Rewriting an address that stands at the even octet offset `k` of the
/// data, and updating the checksum incrementally from the old address's
/// words to the new one's, as `compute_with_ipaddr` does, gives the checksum
/// computed afresh over the data with the new address's octets in place:
/// every octet of the address counts. The one exception is the new data
/// summing to zero with the pseudo header, where the two differ in their
/// representation of zero.
pub proof fn law_address_rewrite(
    pseudo_header_sum: u16,
    data: Seq<u8>,
    k: nat,
    old_addr: IpAddr,
    new_addr: IpAddr,
)
    requires
        k % 2 == 0,
        is_v6(old_addr) == is_v6(new_addr),
        k + ip_bytes(old_addr).len() <= data.len(),
        data.subrange(k as int, (k + ip_bytes(old_addr).len()) as int) == ip_bytes(old_addr),
        pseudo_header_sum as nat + octets_sum(splice(data, k, ip_bytes(new_addr))) > 0,
    ensures
        inc_spec(checksum_spec(pseudo_header_sum, data), ip_words(old_addr), ip_words(new_addr))
            == checksum_spec(pseudo_header_sum, splice(data, k, ip_bytes(new_addr))),
{
    let ob = ip_bytes(old_addr);
    let nb = ip_bytes(new_addr);
    let ow = ip_words(old_addr);
    let nw = ip_words(new_addr);
    let n = nw.len();
    assert(ow.len() == n);
    assert(nb.len() == 2 * n);
    assert(ob.len() == 2 * n);
    // the old words are the ones that stand in the data
    assert forall|j: int| 0 <= j < n implies #[trigger] words_at(data, k, n)[j] == ow[j] by {
        assert(k / 2 + j == (k + 2 * j) / 2);
        assert(2 * (k / 2 + j) == k + 2 * j);
        assert(data[k + 2 * j] == ob[2 * j]);
        assert(data[k + 2 * j + 1] == ob[2 * j + 1]);
        match old_addr {
            IpAddr::V4(x) => {
                if j == 0 {
                    lemma_word_octets(0, x.0[0], x.0[1]);
                } else {
                    lemma_word_octets(0, x.0[2], x.0[3]);
                }
            },
            IpAddr::V6(x) => {
                assert((2 * j) / 2 == j);
                assert((2 * j + 1) / 2 == j);
                assert((2 * j + 1) % 2 == 1);
                lemma_word_octets(x.0[j], 0, 0);
            },
        }
    }
    assert(words_at(data, k, n) =~= ow);
    // writing the new words is writing the new octets
    assert forall|i: int| 0 <= i < data.len() implies #[trigger] replace_words(data, k, nw)[i] == splice(
        data,
        k,
        nb,
    )[i] by {
        if k <= i < k + 2 * n {
            let x = i - k;
            match new_addr {
                IpAddr::V4(a) => {
                    lemma_word_octets(0, a.0[0], a.0[1]);
                    lemma_word_octets(0, a.0[2], a.0[3]);
                    if x == 0 {
                    } else if x == 1 {
                    } else if x == 2 {
                        assert(x / 2 == 1);
                    } else {
                        assert(x / 2 == 1);
                    }
                },
                IpAddr::V6(a) => {},
            }
        }
    }
    assert(replace_words(data, k, nw) =~= splice(data, k, nb));
    law_incremental_update(pseudo_header_sum, data, k, nw);
}

} // verus!
