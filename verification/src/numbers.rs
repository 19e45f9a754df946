//! Numeric text: base-16 and base-10 parsing and formatting, and the
//! little-endian byte interpretations used by the event decoder.  Every
//! formatter has a parser that inverts it, proved below; the registry
//! round-trip rests on these lemmas.

use vstd::prelude::*;

verus! {

/// ASCII `0`-`9`, `a`-`f` or `A`-`F`.
pub open spec fn is_hex_digit(b: u8) -> bool {
    (48 <= b <= 57) || (97 <= b <= 102) || (65 <= b <= 70)
}

/// The value of one hexadecimal digit.
pub open spec fn hex_digit_val(b: u8) -> nat {
    if 48 <= b <= 57 {
        (b - 48) as nat
    } else if 97 <= b <= 102 {
        (b - 87) as nat
    } else if 65 <= b <= 70 {
        (b - 55) as nat
    } else {
        0
    }
}

/// The lower-case digit for a value below 16.
pub open spec fn hex_digit_char(d: u8) -> u8 {
    if d < 10 {
        (48 + d) as u8
    } else {
        (87 + d) as u8
    }
}

pub open spec fn all_hex(s: Seq<u8>) -> bool {
    forall|i: int| 0 <= i < s.len() ==> is_hex_digit(#[trigger] s[i])
}

/// The number written by a string of hexadecimal digits, most significant
/// first.
pub open spec fn hex_val(s: Seq<u8>) -> nat
    decreases s.len(),
{
    if s.len() == 0 {
        0
    } else {
        hex_val(s.drop_last()) * 16 + hex_digit_val(s.last())
    }
}

pub open spec fn pow16(n: nat) -> nat
    decreases n,
{
    if n == 0 {
        1nat
    } else {
        16 * pow16((n - 1) as nat)
    }
}

pub proof fn lemma_pow16_pos(n: nat)
    ensures
        pow16(n) >= 1,
    decreases n,
{
    if n > 0 {
        lemma_pow16_pos((n - 1) as nat);
    }
}

pub proof fn lemma_pow16_le(a: nat, b: nat)
    requires
        a <= b,
    ensures
        pow16(a) <= pow16(b),
        pow16(a) >= 1,
    decreases b - a,
{
    if a == b {
        lemma_pow16_pos(a);
    } else {
        lemma_pow16_le(a, (b - 1) as nat);
    }
}

pub proof fn lemma_pow16_16()
    ensures
        pow16(16) == 0x1_0000_0000_0000_0000,
{
    reveal_with_fuel(pow16, 17);
}

/// A hexadecimal string of length `n` writes a number below `16^n`.
pub proof fn lemma_hex_val_bound(s: Seq<u8>)
    ensures
        hex_val(s) < pow16(s.len()),
    decreases s.len(),
{
    if s.len() == 0 {
    } else {
        lemma_hex_val_bound(s.drop_last());
        assert(hex_digit_val(s.last()) <= 15);
    }
}

/// What parsing a hexadecimal payload of at most 16 digits yields: the
/// written number, or nothing when the payload is empty, over-long or not
/// all digits.
pub open spec fn spec_parse_hex64(s: Seq<u8>) -> Option<u64> {
    if 1 <= s.len() <= 16 && all_hex(s) {
        Some(hex_val(s) as u64)
    } else {
        None
    }
}

/// As `spec_parse_hex64`, but for the registry's 16-bit identifier fields,
/// written with at most 4 digits.
pub open spec fn spec_parse_hex16(s: Seq<u8>) -> Option<u16> {
    if 1 <= s.len() <= 4 && all_hex(s) {
        Some(hex_val(s) as u16)
    } else {
        None
    }
}

/// Parses a base-16 payload of 1 to 16 digits.
pub fn parse_hex_u64(s: &[u8]) -> (r: Option<u64>)
    ensures
        r == spec_parse_hex64(s@),
{
    let n = s.len();
    if n == 0 || n > 16 {
        return None;
    }
    let mut acc: u64 = 0;
    let mut i: usize = 0;
    proof {
        assert(s@.take(0) =~= Seq::<u8>::empty());
    }
    while i < n
        invariant
            n == s@.len(),
            1 <= n <= 16,
            0 <= i <= n,
            all_hex(s@.take(i as int)),
            acc == hex_val(s@.take(i as int)),
        decreases n - i,
    {
        let b = s[i];
        let d: u8 = if 48 <= b && b <= 57 {
            b - 48
        } else if 97 <= b && b <= 102 {
            b - 87
        } else if 65 <= b && b <= 70 {
            b - 55
        } else {
            assert(!is_hex_digit(s@[i as int]));
            return None;
        };
        proof {
            lemma_hex_val_bound(s@.take(i as int));
            lemma_pow16_le((i as nat), 15);
            lemma_pow16_16();
            reveal_with_fuel(pow16, 17);
            assert(acc < pow16(15));
            assert(s@.take(i + 1).drop_last() =~= s@.take(i as int));
            assert(s@.take(i + 1).last() == s@[i as int]);
        }
        acc = acc * 16 + (d as u64);
        i += 1;
    }
    proof {
        assert(s@.take(n as int) =~= s@);
        lemma_hex_val_bound(s@);
        lemma_pow16_le((n as nat), 16);
        lemma_pow16_16();
    }
    Some(acc)
}

/// Parses a base-16 payload of 1 to 4 digits into a 16-bit value.
pub fn parse_hex_u16(s: &[u8]) -> (r: Option<u16>)
    ensures
        r == spec_parse_hex16(s@),
{
    let n = s.len();
    if n == 0 || n > 4 {
        return None;
    }
    match parse_hex_u64(s) {
        Some(v) => {
            proof {
                lemma_hex_val_bound(s@);
                lemma_pow16_le((n as nat), 4);
                reveal_with_fuel(pow16, 5);
            }
            Some(v as u16)
        },
        None => None,
    }
}

/// The canonical lower-case spelling of `v` in base 16, without leading
/// zeros.
pub open spec fn ser_hex64(v: u64) -> Seq<u8>
    decreases v,
{
    if v < 16 {
        seq![hex_digit_char(v as u8)]
    } else {
        ser_hex64(v / 16).push(hex_digit_char((v % 16) as u8))
    }
}

pub proof fn lemma_hex_digit_roundtrip(d: u8)
    requires
        d < 16,
    ensures
        is_hex_digit(hex_digit_char(d)),
        hex_digit_val(hex_digit_char(d)) == d,
{
}

pub proof fn lemma_ser_hex64_all_hex(v: u64)
    ensures
        all_hex(ser_hex64(v)),
        ser_hex64(v).len() >= 1,
    decreases v,
{
    if v < 16 {
        lemma_hex_digit_roundtrip(v as u8);
    } else {
        lemma_ser_hex64_all_hex(v / 16);
        lemma_hex_digit_roundtrip((v % 16) as u8);
        assert forall|i: int| 0 <= i < ser_hex64(v).len() implies is_hex_digit(
            #[trigger] ser_hex64(v)[i],
        ) by {
            if i < ser_hex64(v).len() - 1 {
                assert(ser_hex64(v)[i] == ser_hex64(v / 16)[i]);
            }
        }
    }
}

pub proof fn lemma_ser_hex64_val(v: u64)
    ensures
        hex_val(ser_hex64(v)) == v,
    decreases v,
{
    reveal_with_fuel(hex_val, 3);
    if v < 16 {
        lemma_hex_digit_roundtrip(v as u8);
        assert(ser_hex64(v).drop_last() =~= Seq::<u8>::empty());
        assert(ser_hex64(v).last() == hex_digit_char(v as u8));
        assert(hex_val(ser_hex64(v)) == hex_val(Seq::<u8>::empty()) * 16 + hex_digit_val(
            hex_digit_char(v as u8),
        ));
    } else {
        lemma_ser_hex64_val(v / 16);
        lemma_hex_digit_roundtrip((v % 16) as u8);
        assert(ser_hex64(v).drop_last() =~= ser_hex64(v / 16));
        assert(ser_hex64(v).last() == hex_digit_char((v % 16) as u8));
        assert(hex_val(ser_hex64(v)) == hex_val(ser_hex64(v / 16)) * 16 + hex_digit_val(
            hex_digit_char((v % 16) as u8),
        ));
        assert(hex_val(ser_hex64(v)) == (v / 16) * 16 + (v % 16));
    }
}

pub proof fn lemma_ser_hex64_len(v: u64, k: nat)
    requires
        1 <= k,
        v < pow16(k),
    ensures
        ser_hex64(v).len() <= k,
    decreases v,
{
    if v < 16 {
    } else {
        assert(k >= 2) by {
            if k < 2 {
                reveal_with_fuel(pow16, 3);
                assert(pow16(k) == 16);
            }
        }
        assert(v / 16 < pow16((k - 1) as nat)) by {
            assert(16 * (v / 16) <= v);
            assert(pow16(k) == 16 * pow16((k - 1) as nat));
        }
        lemma_ser_hex64_len(v / 16, (k - 1) as nat);
    }
}

/// Formatting in base 16 and parsing back returns the same value.
pub proof fn lemma_hex64_roundtrip(v: u64)
    ensures
        spec_parse_hex64(ser_hex64(v)) == Some(v),
{
    lemma_ser_hex64_all_hex(v);
    lemma_ser_hex64_val(v);
    lemma_pow16_16();
    lemma_ser_hex64_len(v, 16);
}

/// The 4-digit zero-padded spelling used by the registry's identifier line.
pub open spec fn ser_hex16(v: u16) -> Seq<u8> {
    seq![
        hex_digit_char(((v >> 12) & 0xf) as u8),
        hex_digit_char(((v >> 8) & 0xf) as u8),
        hex_digit_char(((v >> 4) & 0xf) as u8),
        hex_digit_char((v & 0xf) as u8),
    ]
}

/// Formatting as 4 padded digits and parsing back returns the same value.
pub proof fn lemma_hex16_roundtrip(v: u16)
    ensures
        spec_parse_hex16(ser_hex16(v)) == Some(v),
{
    let s = ser_hex16(v);
    assert(((v >> 12) & 0xf) < 16 && ((v >> 8) & 0xf) < 16 && ((v >> 4) & 0xf) < 16 && (v & 0xf)
        < 16) by (bit_vector);
    let d0 = ((v >> 12) & 0xf) as u8;
    let d1 = ((v >> 8) & 0xf) as u8;
    let d2 = ((v >> 4) & 0xf) as u8;
    let d3 = (v & 0xf) as u8;
    lemma_hex_digit_roundtrip(d0);
    lemma_hex_digit_roundtrip(d1);
    lemma_hex_digit_roundtrip(d2);
    lemma_hex_digit_roundtrip(d3);
    assert(s[0] == hex_digit_char(d0));
    assert(s[1] == hex_digit_char(d1));
    assert(s[2] == hex_digit_char(d2));
    assert(s[3] == hex_digit_char(d3));
    assert(all_hex(s));
    reveal_with_fuel(hex_val, 6);
    assert(s.drop_last() =~= seq![s[0], s[1], s[2]]);
    assert(seq![s[0], s[1], s[2]].drop_last() =~= seq![s[0], s[1]]);
    assert(seq![s[0], s[1]].drop_last() =~= seq![s[0]]);
    assert(seq![s[0]].drop_last() =~= Seq::<u8>::empty());
    assert(hex_val(seq![s[0]]) == d0);
    assert(hex_val(seq![s[0], s[1]]) == d0 * 16 + d1);
    assert(hex_val(seq![s[0], s[1], s[2]]) == (d0 * 16 + d1) * 16 + d2);
    assert(hex_val(s) == ((d0 * 16 + d1) * 16 + d2) * 16 + d3);
    assert(((((v >> 12) & 0xf) * 16 + ((v >> 8) & 0xf)) * 16 + ((v >> 4) & 0xf)) * 16 + (v & 0xf)
        == v) by (bit_vector);
    assert(hex_val(s) == v);
}

/// ASCII `0`-`9`.
pub open spec fn is_dec_digit(b: u8) -> bool {
    48 <= b <= 57
}

pub open spec fn all_dec(s: Seq<u8>) -> bool {
    forall|i: int| 0 <= i < s.len() ==> is_dec_digit(#[trigger] s[i])
}

/// The number written by a string of decimal digits, most significant first.
pub open spec fn dec_val(s: Seq<u8>) -> nat
    decreases s.len(),
{
    if s.len() == 0 {
        0
    } else {
        dec_val(s.drop_last()) * 10 + if is_dec_digit(s.last()) {
            (s.last() - 48) as nat
        } else {
            0
        }
    }
}

/// What the registry's optional `Uniq` payload parses to: a small decimal
/// number, or nothing when the payload is empty, over-long, not all digits
/// or too large.
pub open spec fn spec_parse_dec_u8(s: Seq<u8>) -> Option<u8> {
    if 1 <= s.len() <= 3 && all_dec(s) && dec_val(s) <= 255 {
        Some(dec_val(s) as u8)
    } else {
        None
    }
}

/// Parses a decimal payload of 1 to 3 digits into a byte-sized value.
pub fn parse_dec_u8(s: &[u8]) -> (r: Option<u8>)
    ensures
        r == spec_parse_dec_u8(s@),
{
    let n = s.len();
    if n == 0 || n > 3 {
        return None;
    }
    let mut acc: u16 = 0;
    let mut i: usize = 0;
    proof {
        assert(s@.take(0) =~= Seq::<u8>::empty());
    }
    while i < n
        invariant
            n == s@.len(),
            1 <= n <= 3,
            0 <= i <= n,
            all_dec(s@.take(i as int)),
            acc == dec_val(s@.take(i as int)),
            acc <= 999,
        decreases n - i,
    {
        let b = s[i];
        if b < 48 || b > 57 {
            assert(!is_dec_digit(s@[i as int]));
            return None;
        }
        proof {
            lemma_dec_val_bound(s@.take(i as int));
            assert(s@.take(i + 1).drop_last() =~= s@.take(i as int));
            assert(s@.take(i + 1).last() == s@[i as int]);
            assert(dec_val(s@.take(i + 1)) == acc * 10 + (b - 48));
        }
        acc = acc * 10 + ((b - 48) as u16);
        i += 1;
    }
    proof {
        assert(s@.take(n as int) =~= s@);
    }
    if acc > 255 {
        return None;
    }
    Some(acc as u8)
}

/// A decimal string of length `n` writes a number below `10^n` (stated for
/// the short lengths the registry uses).
pub proof fn lemma_dec_val_bound(s: Seq<u8>)
    requires
        s.len() <= 2,
    ensures
        dec_val(s) <= 99,
{
    reveal_with_fuel(dec_val, 4);
    if s.len() == 0 {
    } else if s.len() == 1 {
        assert(s.drop_last().len() == 0);
    } else {
        assert(s.drop_last().drop_last().len() == 0);
        assert(dec_val(s.drop_last()) <= 9);
    }
}

/// The canonical decimal spelling of a byte-sized value.
pub open spec fn ser_dec_u8(v: u8) -> Seq<u8> {
    if v < 10 {
        seq![(48 + v) as u8]
    } else if v < 100 {
        seq![(48 + v / 10) as u8, (48 + v % 10) as u8]
    } else {
        seq![(48 + v / 100) as u8, (48 + (v % 100) / 10) as u8, (48 + (v % 100) % 10) as u8]
    }
}

/// Formatting a byte in decimal and parsing back returns the same value.
pub proof fn lemma_dec_u8_roundtrip(v: u8)
    ensures
        spec_parse_dec_u8(ser_dec_u8(v)) == Some(v),
{
    let s = ser_dec_u8(v);
    reveal_with_fuel(dec_val, 5);
    if v < 10 {
        assert(s.drop_last() =~= Seq::<u8>::empty());
    } else if v < 100 {
        assert(s.drop_last() =~= seq![s[0]]);
        assert(seq![s[0]].drop_last() =~= Seq::<u8>::empty());
        assert(dec_val(seq![s[0]]) == v / 10);
        assert(dec_val(s) == (v / 10) * 10 + v % 10);
    } else {
        assert(s.drop_last() =~= seq![s[0], s[1]]);
        assert(seq![s[0], s[1]].drop_last() =~= seq![s[0]]);
        assert(seq![s[0]].drop_last() =~= Seq::<u8>::empty());
        assert(dec_val(seq![s[0]]) == v / 100);
        assert(dec_val(seq![s[0], s[1]]) == (v / 100) * 10 + (v % 100) / 10);
        assert(dec_val(s) == ((v / 100) * 10 + (v % 100) / 10) * 10 + (v % 100) % 10);
        assert(v % 100 == ((v % 100) / 10) * 10 + (v % 100) % 10);
        assert(v == (v / 100) * 100 + v % 100);
    }
}

/// Writes `v` in decimal (the spelling of `ser_dec_u8`).
pub fn dec_u8_bytes(v: u8) -> (r: Vec<u8>)
    ensures
        r@ == ser_dec_u8(v),
{
    let mut r: Vec<u8> = Vec::new();
    if v < 10 {
        r.push(48 + v);
        proof {
            assert(r@ =~= ser_dec_u8(v));
        }
    } else if v < 100 {
        r.push(48 + v / 10);
        r.push(48 + v % 10);
        proof {
            assert(r@ =~= ser_dec_u8(v));
        }
    } else {
        r.push(48 + v / 100);
        r.push(48 + (v % 100) / 10);
        r.push(48 + (v % 100) % 10);
        proof {
            assert(r@ =~= ser_dec_u8(v));
        }
    }
    r
}

/// The canonical decimal spelling of `v`, without leading zeros.
pub open spec fn ser_dec_u32(v: u32) -> Seq<u8>
    decreases v,
{
    if v < 10 {
        seq![(48 + v) as u8]
    } else {
        ser_dec_u32(v / 10).push((48 + v % 10) as u8)
    }
}

/// Writes `v` in decimal.
pub fn dec_u32_bytes(v: u32) -> (r: Vec<u8>)
    ensures
        r@ == ser_dec_u32(v),
    decreases v,
{
    if v < 10 {
        let mut r: Vec<u8> = Vec::new();
        r.push(48 + (v as u8));
        proof {
            assert(r@ =~= ser_dec_u32(v));
        }
        r
    } else {
        let mut r = dec_u32_bytes(v / 10);
        r.push(48 + ((v % 10) as u8));
        r
    }
}

/// The decimal spelling of a signed 32-bit value: a minus sign for negative
/// values, then the magnitude.
pub open spec fn ser_dec_i32(v: i32) -> Seq<u8> {
    if v >= 0 {
        ser_dec_u32(v as u32)
    } else {
        seq![45u8] + ser_dec_u32((-(v as int)) as u32)
    }
}

/// Writes a signed 32-bit value in decimal.
pub fn dec_i32_bytes(v: i32) -> (r: Vec<u8>)
    ensures
        r@ == ser_dec_i32(v),
{
    if v >= 0 {
        dec_u32_bytes(v as u32)
    } else {
        let m: u32 = (-(v as i64)) as u32;
        let mut r: Vec<u8> = Vec::new();
        r.push(45);
        let digits = dec_u32_bytes(m);
        crate::bytes::push_all(&mut r, digits.as_slice());
        proof {
            assert(r@ =~= ser_dec_i32(v));
        }
        r
    }
}

/// One base-16 digit as its lower-case character.
fn hex_digit(d: u8) -> (r: u8)
    requires
        d < 16,
    ensures
        r == hex_digit_char(d),
{
    if d < 10 {
        48 + d
    } else {
        87 + d
    }
}

/// Writes `v` in base 16 without leading zeros (the spelling of
/// `ser_hex64`).
pub fn hex_u64_bytes(v: u64) -> (r: Vec<u8>)
    ensures
        r@ == ser_hex64(v),
    decreases v,
{
    if v < 16 {
        let mut r: Vec<u8> = Vec::new();
        r.push(hex_digit(v as u8));
        proof {
            assert(r@ =~= ser_hex64(v));
        }
        r
    } else {
        let mut r = hex_u64_bytes(v / 16);
        r.push(hex_digit((v % 16) as u8));
        r
    }
}

pub proof fn lemma_ser_hex16_all_hex(v: u16)
    ensures
        all_hex(ser_hex16(v)),
        ser_hex16(v).len() == 4,
{
    assert(((v >> 12) & 0xf) < 16 && ((v >> 8) & 0xf) < 16 && ((v >> 4) & 0xf) < 16 && (v & 0xf)
        < 16) by (bit_vector);
    let s = ser_hex16(v);
    assert forall|i: int| 0 <= i < s.len() implies is_hex_digit(#[trigger] s[i]) by {
        if i == 0 {
            lemma_hex_digit_roundtrip(((v >> 12) & 0xf) as u8);
        } else if i == 1 {
            lemma_hex_digit_roundtrip(((v >> 8) & 0xf) as u8);
        } else if i == 2 {
            lemma_hex_digit_roundtrip(((v >> 4) & 0xf) as u8);
        } else {
            lemma_hex_digit_roundtrip((v & 0xf) as u8);
        }
    }
}

/// Writes `v` as 4 zero-padded base-16 digits (the spelling of
/// `ser_hex16`).
pub fn hex_u16_bytes(v: u16) -> (r: Vec<u8>)
    ensures
        r@ == ser_hex16(v),
{
    proof {
        assert(((v >> 12) & 0xf) < 16 && ((v >> 8) & 0xf) < 16 && ((v >> 4) & 0xf) < 16 && (v
            & 0xf) < 16) by (bit_vector);
    }
    let mut r: Vec<u8> = Vec::new();
    r.push(hex_digit(((v >> 12) & 0xf) as u8));
    r.push(hex_digit(((v >> 8) & 0xf) as u8));
    r.push(hex_digit(((v >> 4) & 0xf) as u8));
    r.push(hex_digit((v & 0xf) as u8));
    proof {
        assert(r@ =~= ser_hex16(v));
    }
    r
}

/// Base-16 digits are ordinary text: no newline, space or equals sign.
pub proof fn lemma_hex_text_free(s: Seq<u8>)
    requires
        all_hex(s),
    ensures
        crate::bytes::sep_free(s, crate::bytes::NL),
        crate::bytes::sep_free(s, crate::bytes::SP),
        crate::bytes::sep_free(s, crate::bytes::EQ),
{
    assert forall|i: int| 0 <= i < s.len() implies s[i] != 10 && s[i] != 32 && s[i] != 61 by {
        assert(is_hex_digit(s[i]));
    }
}

/// Base-10 digits are ordinary text in the same sense.
pub proof fn lemma_dec_text_free(s: Seq<u8>)
    requires
        all_dec(s),
    ensures
        crate::bytes::sep_free(s, crate::bytes::NL),
        crate::bytes::sep_free(s, crate::bytes::SP),
        crate::bytes::sep_free(s, crate::bytes::EQ),
{
    assert forall|i: int| 0 <= i < s.len() implies s[i] != 10 && s[i] != 32 && s[i] != 61 by {
        assert(is_dec_digit(s[i]));
    }
}

pub proof fn lemma_ser_dec_u8_all_dec(v: u8)
    ensures
        all_dec(ser_dec_u8(v)),
{
    let s = ser_dec_u8(v);
    assert forall|i: int| 0 <= i < s.len() implies is_dec_digit(#[trigger] s[i]) by {
        if v < 10 {
        } else if v < 100 {
        } else {
        }
    }
}

/// The unsigned number written little-endian by two bytes.
pub open spec fn le16(b0: u8, b1: u8) -> int {
    b0 + 256 * b1
}

/// The unsigned number written little-endian by four bytes.
pub open spec fn le32(b0: u8, b1: u8, b2: u8, b3: u8) -> int {
    b0 + 256 * b1 + 65536 * b2 + 16777216 * b3
}

/// The two's-complement number written little-endian by four bytes.
pub open spec fn le32_signed(b0: u8, b1: u8, b2: u8, b3: u8) -> int {
    if le32(b0, b1, b2, b3) >= 0x8000_0000 {
        le32(b0, b1, b2, b3) - 0x1_0000_0000
    } else {
        le32(b0, b1, b2, b3)
    }
}

/// Reads two little-endian bytes as an unsigned 16-bit value.
pub fn read_le_u16(b0: u8, b1: u8) -> (r: u16)
    ensures
        r == le16(b0, b1),
{
    (b0 as u16) + 256 * (b1 as u16)
}

/// Reads four little-endian bytes as an unsigned 32-bit value.
pub fn read_le_u32(b0: u8, b1: u8, b2: u8, b3: u8) -> (r: u32)
    ensures
        r == le32(b0, b1, b2, b3),
{
    (b0 as u32) + 256 * (b1 as u32) + 65536 * (b2 as u32) + 16777216 * (b3 as u32)
}

/// Reads four little-endian bytes as a signed (two's-complement) 32-bit
/// value.
pub fn read_le_i32(b0: u8, b1: u8, b2: u8, b3: u8) -> (r: i32)
    ensures
        r == le32_signed(b0, b1, b2, b3),
{
    let v = read_le_u32(b0, b1, b2, b3);
    if v >= 0x8000_0000 {
        (((v as i64) - 0x1_0000_0000) as i32)
    } else {
        (v as i32)
    }
}

} // verus!
