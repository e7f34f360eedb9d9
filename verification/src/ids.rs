//! UUID text: read through the `uuid` crate, and written as it displays UUIDs.
use crate::text::{ascii_lower, hex, hex_char, hex_digit};
use vstd::prelude::*;

verus! {

/// Whether a character is a hexadecimal digit, in either case.
pub open spec fn is_hex_digit(c: char) -> bool {
    ('0' <= c && c <= '9') || ('a' <= c && c <= 'f') || ('A' <= c && c <= 'F')
}

/// The value of a hexadecimal digit.
pub open spec fn nibble(c: char) -> nat {
    if '0' <= c && c <= '9' {
        (c as nat - 48) as nat
    } else if 'a' <= c && c <= 'f' {
        (c as nat - 87) as nat
    } else {
        (c as nat - 55) as nat
    }
}

/// The number hexadecimal digits spell, most significant first.
pub open spec fn hex_number(s: Seq<char>) -> nat
    decreases s.len(),
{
    if s.len() == 0 {
        0
    } else {
        hex_number(s.drop_last()) * 16 + nibble(s.last())
    }
}

/// The UUID 32 hexadecimal digits spell.
pub open spec fn simple_value(s: Seq<char>) -> Option<u128> {
    if s.len() == 32 && forall|i: int| 0 <= i < 32 ==> is_hex_digit(#[trigger] s[i]) {
        Some(hex_number(s) as u128)
    } else {
        None
    }
}

/// The UUID a hyphenated 8-4-4-4-12 text spells.
pub open spec fn hyphenated_value(s: Seq<char>) -> Option<u128> {
    if s.len() == 36 && s[8] == '-' && s[13] == '-' && s[18] == '-' && s[23] == '-' {
        simple_value(
            s.subrange(0, 8) + s.subrange(9, 13) + s.subrange(14, 18) + s.subrange(19, 23) + s.subrange(24, 36),
        )
    } else {
        None
    }
}

/// The 128-bit value of the UUID a text spells, as `uuid::Uuid::parse_str` reads it: 32
/// hexadecimal digits, the hyphenated form, the hyphenated form in braces, or it behind a
/// `urn:uuid:` prefix in any case; `None` for any other text.
pub open spec fn uuid_value(text: Seq<char>) -> Option<u128> {
    if text.len() == 32 {
        simple_value(text)
    } else if text.len() == 36 {
        hyphenated_value(text)
    } else if text.len() == 38 && text[0] == '{' && text[37] == '}' {
        hyphenated_value(text.subrange(1, 37))
    } else if text.len() == 45 && text.subrange(0, 9).map_values(|c: char| ascii_lower(c)) == "urn:uuid:"@ {
        hyphenated_value(text.skip(9))
    } else {
        None
    }
}

/// Read a UUID (`uuid::Uuid::parse_str`), as its 128-bit value.
#[verifier::external_body]
pub(crate) fn parse_uuid(text: &str) -> (r: Option<u128>)
    ensures
        r == uuid_value(text@),
{
    match uuid::Uuid::parse_str(text) {
        Ok(u) => Some(u.as_u128()),
        Err(_) => None,
    }
}


/// The sixteen bytes of a UUID's 128-bit value, most significant first.
pub open spec fn uuid_bytes(u: u128) -> Seq<u8> {
    Seq::new(16, |j: int| ((u >> ((120 - 8 * j) as u128)) & 0xff) as u8)
}

/// The text `uuid::Uuid` displays for a UUID: its bytes in lower-case hexadecimal, grouped
/// 4-2-2-2-6 and joined by hyphens.
pub open spec fn hyphenated(u: u128) -> Seq<char> {
    let b = uuid_bytes(u);
    hex(b.subrange(0, 4)) + seq!['-'] + hex(b.subrange(4, 6)) + seq!['-'] + hex(b.subrange(6, 8))
        + seq!['-'] + hex(b.subrange(8, 10)) + seq!['-'] + hex(b.subrange(10, 16))
}

/// Append the hexadecimal digits of `bytes[a..b]`.
fn push_hex(out: &mut Vec<char>, bytes: &Vec<u8>, a: usize, b: usize)
    requires
        a <= b <= bytes@.len(),
    ensures
        final(out)@ == old(out)@ + hex(bytes@.subrange(a as int, b as int)),
{
    let ghost start = out@;
    let mut k: usize = a;
    assert(bytes@.subrange(a as int, a as int) =~= Seq::<u8>::empty());
    assert(out@ =~= start + hex(bytes@.subrange(a as int, a as int)));
    while k < b
        invariant
            a <= k <= b <= bytes@.len(),
            out@ == start + hex(bytes@.subrange(a as int, k as int)),
        decreases b - k,
    {
        proof {
            assert(bytes@.subrange(a as int, k + 1).drop_last() =~= bytes@.subrange(a as int, k as int));
            assert(bytes@.subrange(a as int, k + 1).last() == bytes@[k as int]);
        }
        let byte = bytes[k];
        out.push(hex_char(byte / 16));
        out.push(hex_char(byte % 16));
        k = k + 1;
        assert(out@ =~= start + hex(bytes@.subrange(a as int, k as int)));
    }
}

/// The text of a UUID, as `uuid::Uuid` displays it.
pub fn uuid_text(u: u128) -> (r: Vec<char>)
    ensures
        r@ == hyphenated(u),
{
    let mut bytes: Vec<u8> = Vec::new();
    let mut j: usize = 0;
    while j < 16
        invariant
            j <= 16,
            bytes@ =~= uuid_bytes(u).take(j as int),
        decreases 16 - j,
    {
        let shift: u128 = 120 - 8 * (j as u128);
        bytes.push(((u >> shift) & 0xff) as u8);
        j = j + 1;
    }
    assert(bytes@ =~= uuid_bytes(u));
    let mut out: Vec<char> = Vec::new();
    push_hex(&mut out, &bytes, 0, 4);
    out.push('-');
    push_hex(&mut out, &bytes, 4, 6);
    out.push('-');
    push_hex(&mut out, &bytes, 6, 8);
    out.push('-');
    push_hex(&mut out, &bytes, 8, 10);
    out.push('-');
    push_hex(&mut out, &bytes, 10, 16);
    assert(out@ =~= hyphenated(u));
    out
}

/// The number bytes spell, most significant first.
pub open spec fn bytes_number(b: Seq<u8>) -> nat
    decreases b.len(),
{
    if b.len() == 0 {
        0
    } else {
        bytes_number(b.drop_last()) * 256 + b.last() as nat
    }
}

/// A lower-case hexadecimal digit reads back as its value.
proof fn lemma_digit_roundtrip(d: nat)
    requires
        d < 16,
    ensures
        is_hex_digit(hex_digit(d)),
        nibble(hex_digit(d)) == d,
{
}

/// Hexadecimal text of bytes: two digits per byte, spelling the bytes' number.
proof fn lemma_hex_number(b: Seq<u8>)
    ensures
        hex(b).len() == 2 * b.len(),
        forall|i: int| 0 <= i < hex(b).len() ==> is_hex_digit(#[trigger] hex(b)[i]),
        hex_number(hex(b)) == bytes_number(b),
    decreases b.len(),
{
    if b.len() > 0 {
        let d = b.drop_last();
        let x = b.last() as nat;
        lemma_hex_number(d);
        lemma_digit_roundtrip(x / 16);
        lemma_digit_roundtrip(x % 16);
        let h = hex(d);
        let one = h.push(hex_digit(x / 16));
        let two = one.push(hex_digit(x % 16));
        assert(hex(b) =~= two);
        assert(two.drop_last() =~= one);
        assert(one.drop_last() =~= h);
        assert(one.last() == hex_digit(x / 16));
        assert(two.last() == hex_digit(x % 16));
        assert(hex_number(one) == hex_number(h) * 16 + x / 16);
        assert(hex_number(two) == hex_number(one) * 16 + x % 16);
        assert(x == 16 * (x / 16) + x % 16);
    }
}

/// Hexadecimal text of joined bytes is the joined texts.
proof fn lemma_hex_concat(a: Seq<u8>, c: Seq<u8>)
    ensures
        hex(a + c) == hex(a) + hex(c),
    decreases c.len(),
{
    if c.len() == 0 {
        assert(a + c =~= a);
        assert(hex(a) + hex(c) =~= hex(a));
    } else {
        lemma_hex_concat(a, c.drop_last());
        assert((a + c).drop_last() =~= a + c.drop_last());
        assert((a + c).last() == c.last());
    }
}

/// One more byte of a 128-bit value read from the top.
proof fn lemma_shift_step(u: u128, s: u128)
    requires
        s <= 112,
    ensures
        ((u >> (s + 8) as u128) as nat) * 256 + ((((u >> s) & 0xff) as u8) as nat) == (u >> s) as nat,
{
    assert(((u >> (s + 8) as u128) * 256) as int + (((u >> s) & 0xff) as u8) as int == (u >> s) as int) by (bit_vector)
        requires
            s <= 112,
    ;
}

/// The first `k` bytes of a UUID spell its top `8 * k` bits.
proof fn lemma_prefix_number(u: u128, k: int)
    requires
        1 <= k <= 16,
    ensures
        bytes_number(uuid_bytes(u).take(k)) == (u >> ((128 - 8 * k) as u128)) as nat,
    decreases k,
{
    let b = uuid_bytes(u);
    if k == 1 {
        assert(b.take(1).drop_last() =~= Seq::<u8>::empty());
        assert(b.take(1).last() == b[0]);
        assert(bytes_number(Seq::<u8>::empty()) == 0);
        assert(b[0] == ((u >> 120u128) & 0xff) as u8);
        assert((((u >> 120u128) & 0xff) as u8) as nat == (u >> 120u128) as nat) by (bit_vector);
    } else {
        lemma_prefix_number(u, k - 1);
        let s = (128 - 8 * k) as u128;
        assert(b.take(k).drop_last() =~= b.take(k - 1));
        assert(b.take(k).last() == b[k - 1]);
        assert(b[k - 1] == ((u >> ((120 - 8 * (k - 1)) as u128)) & 0xff) as u8);
        assert((120 - 8 * (k - 1)) as u128 == s);
        assert((128 - 8 * (k - 1)) as u128 == (s + 8) as u128);
        lemma_shift_step(u, s);
    }
}

/// The bytes of a UUID spell its value.
proof fn lemma_uuid_bytes_number(u: u128)
    ensures
        bytes_number(uuid_bytes(u)) == u,
{
    lemma_prefix_number(u, 16);
    assert(uuid_bytes(u).take(16) =~= uuid_bytes(u));
    assert(u >> 0u128 == u) by (bit_vector);
}

/// Reading a UUID's displayed text gives the UUID back.
pub proof fn law_uuid_text_reads_back(u: u128)
    ensures
        uuid_value(hyphenated(u)) == Some(u),
{
    let b = uuid_bytes(u);
    let t = hyphenated(u);
    let p0 = hex(b.subrange(0, 4));
    let p1 = hex(b.subrange(4, 6));
    let p2 = hex(b.subrange(6, 8));
    let p3 = hex(b.subrange(8, 10));
    let p4 = hex(b.subrange(10, 16));
    lemma_hex_number(b.subrange(0, 4));
    lemma_hex_number(b.subrange(4, 6));
    lemma_hex_number(b.subrange(6, 8));
    lemma_hex_number(b.subrange(8, 10));
    lemma_hex_number(b.subrange(10, 16));
    lemma_hex_concat(b.subrange(0, 4), b.subrange(4, 6));
    assert(b.subrange(0, 4) + b.subrange(4, 6) =~= b.subrange(0, 6));
    lemma_hex_concat(b.subrange(0, 6), b.subrange(6, 8));
    assert(b.subrange(0, 6) + b.subrange(6, 8) =~= b.subrange(0, 8));
    lemma_hex_concat(b.subrange(0, 8), b.subrange(8, 10));
    assert(b.subrange(0, 8) + b.subrange(8, 10) =~= b.subrange(0, 10));
    lemma_hex_concat(b.subrange(0, 10), b.subrange(10, 16));
    assert(b.subrange(0, 10) + b.subrange(10, 16) =~= b);
    assert(t.len() == 36);
    assert(t[8] == '-' && t[13] == '-' && t[18] == '-' && t[23] == '-');
    let joined = t.subrange(0, 8) + t.subrange(9, 13) + t.subrange(14, 18) + t.subrange(19, 23) + t.subrange(24, 36);
    assert(joined =~= p0 + p1 + p2 + p3 + p4);
    assert(joined =~= hex(b));
    lemma_hex_number(b);
    lemma_uuid_bytes_number(u);
}

} // verus!
