//! Rendering numbers as text, for the human-readable forms of addresses,
//! protocol numbers and headers.
use vstd::prelude::*;

verus! {

/// The lower-case hexadecimal digit for `d < 16`.
pub open spec fn hex_digit(d: nat) -> char {
    seq!['0', '1', '2', '3', '4', '5', '6', '7', '8', '9', 'a', 'b', 'c', 'd', 'e', 'f'][d as int]
}

/// The decimal digit for `d < 10`.
pub open spec fn dec_digit(d: nat) -> char {
    seq!['0', '1', '2', '3', '4', '5', '6', '7', '8', '9'][d as int]
}

/// `v` as exactly `width` lower-case hexadecimal digits, most significant first.
pub open spec fn hex_text(v: nat, width: nat) -> Seq<char>
    decreases width,
{
    if width == 0 {
        Seq::empty()
    } else {
        hex_text(v / 16, (width - 1) as nat).push(hex_digit(v % 16))
    }
}

/// `v` in decimal without leading zeros ("0" for zero).
pub open spec fn dec_text(v: nat) -> Seq<char>
    decreases v,
{
    if v < 10 {
        seq![dec_digit(v)]
    } else {
        dec_text(v / 10).push(dec_digit(v % 10))
    }
}

/// `v` in lower-case hexadecimal with no leading zeros.
pub open spec fn hex_min_text(v: nat) -> Seq<char>
    decreases v,
{
    if v < 16 {
        seq![hex_digit(v)]
    } else {
        hex_min_text(v / 16).push(hex_digit(v % 16))
    }
}

/// Appends one hexadecimal digit.
fn push_hex_digit(s: &mut String, d: u64)
    requires
        d < 16,
    ensures
        final(s)@ == old(s)@.push(hex_digit(d as nat)),
{
    let digits = "0123456789abcdef";
    proof {
        reveal_strlit("0123456789abcdef");
    }
    let one = digits.substring_char(d as usize, d as usize + 1);
    assert(one@ =~= seq![hex_digit(d as nat)]);
    s.append(one);
}

/// Appends one decimal digit.
fn push_dec_digit(s: &mut String, d: u64)
    requires
        d < 10,
    ensures
        final(s)@ == old(s)@.push(dec_digit(d as nat)),
{
    let digits = "0123456789";
    proof {
        reveal_strlit("0123456789");
    }
    let one = digits.substring_char(d as usize, d as usize + 1);
    assert(one@ =~= seq![dec_digit(d as nat)]);
    s.append(one);
}

/// Appends `v` as `width` hexadecimal digits.
pub fn push_hex(s: &mut String, v: u64, width: u64)
    requires
        width <= 16,
    ensures
        final(s)@ == old(s)@ + hex_text(v as nat, width as nat),
    decreases width,
{
    if width > 0 {
        push_hex(s, v / 16, width - 1);
        push_hex_digit(s, v % 16);
        proof {
            assert(old(s)@ + hex_text(v as nat, width as nat) =~= old(s)@ + hex_text(
                (v / 16) as nat,
                (width - 1) as nat,
            ) + seq![hex_digit((v % 16) as nat)]);
        }
    } else {
        assert(old(s)@ + hex_text(v as nat, 0) =~= old(s)@);
    }
}

/// Appends `v` in decimal.
pub fn push_dec(s: &mut String, v: u64)
    ensures
        final(s)@ == old(s)@ + dec_text(v as nat),
    decreases v,
{
    if v < 10 {
        push_dec_digit(s, v);
        assert(old(s)@ + dec_text(v as nat) =~= old(s)@.push(dec_digit(v as nat)));
    } else {
        push_dec(s, v / 10);
        push_dec_digit(s, v % 10);
        assert(old(s)@ + dec_text(v as nat) =~= old(s)@ + dec_text((v / 10) as nat) + seq![
            dec_digit((v % 10) as nat),
        ]);
    }
}

/// Appends `v` in hexadecimal, with no leading zeros.
pub fn push_hex_min(s: &mut String, v: u64)
    ensures
        final(s)@ == old(s)@ + hex_min_text(v as nat),
    decreases v,
{
    if v < 16 {
        push_hex_digit(s, v);
        assert(old(s)@ + hex_min_text(v as nat) =~= old(s)@.push(hex_digit(v as nat)));
    } else {
        push_hex_min(s, v / 16);
        push_hex_digit(s, v % 16);
        assert(old(s)@ + hex_min_text(v as nat) =~= old(s)@ + hex_min_text((v / 16) as nat) + seq![
            hex_digit((v % 16) as nat),
        ]);
    }
}

/// The text of a boolean.
pub open spec fn bool_text(b: bool) -> Seq<char> {
    if b {
        "true"@
    } else {
        "false"@
    }
}

/// Appends `true` or `false`.
pub fn push_bool(s: &mut String, b: bool)
    ensures
        final(s)@ == old(s)@ + bool_text(b),
{
    if b {
        push_str(s, "true");
    } else {
        push_str(s, "false");
    }
}

/// `v` in decimal.
pub open spec fn dec8(v: u8) -> Seq<char> {
    dec_text(v as nat)
}

/// `v` in decimal.
pub open spec fn dec16(v: u16) -> Seq<char> {
    dec_text(v as nat)
}

/// `v` in decimal.
pub open spec fn dec32(v: u32) -> Seq<char> {
    dec_text(v as nat)
}

/// `v` as four hexadecimal digits.
pub open spec fn hex16(v: u16) -> Seq<char> {
    hex_text(v as nat, 4)
}

/// Appends `v` in decimal.
pub fn push_dec8(s: &mut String, v: u8)
    ensures
        final(s)@ == old(s)@ + dec8(v),
{
    push_dec(s, v as u64);
}

/// Appends `v` in decimal.
pub fn push_dec16(s: &mut String, v: u16)
    ensures
        final(s)@ == old(s)@ + dec16(v),
{
    push_dec(s, v as u64);
}

/// Appends `v` in decimal.
pub fn push_dec32(s: &mut String, v: u32)
    ensures
        final(s)@ == old(s)@ + dec32(v),
{
    push_dec(s, v as u64);
}

/// Appends `v` as four hexadecimal digits.
pub fn push_hex16(s: &mut String, v: u16)
    ensures
        final(s)@ == old(s)@ + hex16(v),
{
    push_hex(s, v as u64, 4);
}

/// Appends a piece of text.
pub fn push_str(s: &mut String, t: &str)
    ensures
        final(s)@ == old(s)@ + t@,
{
    s.append(t);
}

} // verus!
