use vstd::prelude::*;

use crate::text::push_char;

verus! {

/// The UTF-16 code units of one character: one unit in the Basic Multilingual
/// Plane, a surrogate pair above it.
pub open spec fn utf16_units(c: char) -> Seq<u16> {
    let v = c as u32 as int;
    if v < 0x10000 {
        seq![v as u16]
    } else {
        let w = v - 0x10000;
        seq![(0xD800 + w / 0x400) as u16, (0xDC00 + w % 0x400) as u16]
    }
}

/// The UTF-16 encoding of `s` (`str::encode_utf16`).
pub open spec fn encode_utf16(s: Seq<char>) -> Seq<u16>
    decreases s.len(),
{
    if s.len() == 0 {
        Seq::empty()
    } else {
        encode_utf16(s.drop_last()) + utf16_units(s.last())
    }
}

/// The little-endian bytes of a run of 16-bit units.
pub open spec fn le_bytes(units: Seq<u16>) -> Seq<u8>
    decreases units.len(),
{
    if units.len() == 0 {
        Seq::empty()
    } else {
        le_bytes(units.drop_last()).push((units.last() % 256) as u8).push(
            (units.last() / 256) as u8,
        )
    }
}

pub open spec fn is_high_surrogate(u: u16) -> bool {
    0xD800 <= u <= 0xDBFF
}

pub open spec fn is_low_surrogate(u: u16) -> bool {
    0xDC00 <= u <= 0xDFFF
}

/// The character that a surrogate pair encodes.
pub open spec fn pair_char(high: u16, low: u16) -> char {
    (0x10000 + (high - 0xD800) * 0x400 + (low - 0xDC00)) as char
}

/// The replacement character, U+FFFD.
pub open spec fn replacement_char() -> char {
    '\u{FFFD}'
}

/// Decoding UTF-16 with each unpaired surrogate replaced by U+FFFD
/// (`String::from_utf16_lossy`).
pub open spec fn decode_utf16_lossy(u: Seq<u16>) -> Seq<char>
    decreases u.len(),
{
    if u.len() == 0 {
        Seq::empty()
    } else if u.len() >= 2 && is_high_surrogate(u[0]) && is_low_surrogate(u[1]) {
        seq![pair_char(u[0], u[1])] + decode_utf16_lossy(u.skip(2))
    } else if is_high_surrogate(u[0]) || is_low_surrogate(u[0]) {
        seq![replacement_char()] + decode_utf16_lossy(u.skip(1))
    } else {
        seq![u[0] as u32 as char] + decode_utf16_lossy(u.skip(1))
    }
}

/// The units before the first NUL unit, or all of them when there is none.
pub open spec fn until_nul(u: Seq<u16>) -> Seq<u16>
    decreases u.len(),
{
    if u.len() == 0 {
        u
    } else if u[0] == 0 {
        Seq::empty()
    } else {
        seq![u[0]] + until_nul(u.skip(1))
    }
}

/// 16-bit units read from little-endian byte pairs.
pub open spec fn units_from_le(b: Seq<u8>) -> Seq<u16>
    decreases b.len(),
{
    if b.len() < 2 {
        Seq::empty()
    } else {
        units_from_le(b.drop_last().drop_last()).push(
            (b[b.len() - 2] as int + 256 * b.last() as int) as u16,
        )
    }
}

/// A Unicode scalar value: what a `char` can hold.
pub open spec fn is_scalar_value(v: u32) -> bool {
    v <= 0xD7FF || (0xE000 <= v && v <= 0x10FFFF)
}

/// Calls `char::from_u32`, which gives the character with scalar value `v`, or
/// `None` when `v` is not a scalar value.
#[verifier::external_body]
pub(crate) fn char_from_u32(v: u32) -> (r: Option<char>)
    ensures
        r == if is_scalar_value(v) {
            Some(v as char)
        } else {
            None
        },
{
    char::from_u32(v)
}

/// Encoding a concatenation encodes each part.
proof fn lemma_encode_concat(a: Seq<char>, b: Seq<char>)
    ensures
        encode_utf16(a + b) == encode_utf16(a) + encode_utf16(b),
    decreases b.len(),
{
    if b.len() == 0 {
        assert(a + b =~= a);
        assert(encode_utf16(a) + encode_utf16(b) =~= encode_utf16(a));
    } else {
        lemma_encode_concat(a, b.drop_last());
        assert((a + b).drop_last() =~= a + b.drop_last());
        assert(encode_utf16(a) + encode_utf16(b.drop_last()) + utf16_units(b.last()) =~= encode_utf16(
            a,
        ) + (encode_utf16(b.drop_last()) + utf16_units(b.last())));
    }
}

/// Decoding the units of one character, then more units, gives the character
/// back first.
proof fn lemma_decode_units(c: char, rest: Seq<u16>)
    ensures
        decode_utf16_lossy(utf16_units(c) + rest) == seq![c] + decode_utf16_lossy(rest),
{
    let v = c as u32 as int;
    let u = utf16_units(c) + rest;
    if v < 0x10000 {
        assert(u[0] == v as u16);
        assert(!is_high_surrogate(u[0]) && !is_low_surrogate(u[0]));
        assert(u.skip(1) =~= rest);
        assert(u[0] as u32 as char == c);
    } else {
        let w = v - 0x10000;
        assert(u[0] == (0xD800 + w / 0x400) as u16);
        assert(u[1] == (0xDC00 + w % 0x400) as u16);
        assert(is_high_surrogate(u[0]) && is_low_surrogate(u[1]));
        assert(u.skip(2) =~= rest);
        assert((w / 0x400) * 0x400 + w % 0x400 == w);
        assert(pair_char(u[0], u[1]) == c);
    }
}

/// Decoding an encoding gives the text back.
pub proof fn lemma_decode_encode(s: Seq<char>)
    ensures
        decode_utf16_lossy(encode_utf16(s)) == s,
    decreases s.len(),
{
    if s.len() > 0 {
        let t = s.drop_first();
        lemma_decode_encode(t);
        assert(s =~= seq![s[0]] + t);
        lemma_encode_concat(seq![s[0]], t);
        assert(seq![s[0]].drop_last() =~= Seq::<char>::empty());
        assert(encode_utf16(Seq::<char>::empty()) == Seq::<u16>::empty());
        assert(encode_utf16(seq![s[0]]) =~= Seq::<u16>::empty() + utf16_units(s[0]));
        assert(encode_utf16(seq![s[0]]) =~= utf16_units(s[0]));
        lemma_decode_units(s[0], encode_utf16(t));
    }
}

/// Reading little-endian byte pairs back gives the units that were written.
pub proof fn lemma_units_from_le_bytes(u: Seq<u16>)
    ensures
        units_from_le(le_bytes(u)) == u,
        le_bytes(u).len() == 2 * u.len(),
    decreases u.len(),
{
    if u.len() > 0 {
        lemma_units_from_le_bytes(u.drop_last());
        let b = le_bytes(u);
        assert(b.drop_last().drop_last() =~= le_bytes(u.drop_last()));
        let x = u.last();
        assert((x % 256) as u8 as int + 256 * ((x / 256) as u8 as int) == x);
        assert(u.drop_last().push(x) =~= u);
    }
}

/// A NUL-terminated encoding of text without NUL characters, read back as a
/// wide buffer, gives the text: `string_from_wide_buffer` undoes `to_wide`.
pub proof fn lemma_wide_round_trip(s: Seq<char>)
    requires
        forall|i: int| 0 <= i < s.len() ==> s[i] as u32 != 0,
    ensures
        decode_utf16_lossy(until_nul(encode_utf16(s).push(0))) == s,
{
    lemma_decode_encode(s);
    let e = encode_utf16(s);
    lemma_encode_no_nul(s);
    lemma_until_nul(e.push(0), e.len() as int);
    assert(e.push(0).take(e.len() as int) =~= e);
}

/// The encoding of text without NUL characters holds no NUL unit.
proof fn lemma_encode_no_nul(s: Seq<char>)
    requires
        forall|i: int| 0 <= i < s.len() ==> s[i] as u32 != 0,
    ensures
        forall|j: int| 0 <= j < encode_utf16(s).len() ==> encode_utf16(s)[j] != 0,
    decreases s.len(),
{
    if s.len() > 0 {
        assert forall|i: int| 0 <= i < s.drop_last().len() implies s.drop_last()[i] as u32 != 0 by {
            assert(s.drop_last()[i] == s[i]);
        }
        lemma_encode_no_nul(s.drop_last());
        let c = s.last();
        assert(c as u32 != 0);
        let a = encode_utf16(s.drop_last());
        let b = utf16_units(c);
        let v = c as u32 as int;
        if v < 0x10000 {
            assert(b[0] == v as u16);
            assert(b[0] != 0);
        } else {
            let w = v - 0x10000;
            vstd::utf8::char_is_scalar(c);
            assert(v <= 0x10FFFF);
            assert(0 <= w / 0x400 < 0x400);
            assert(b[0] == (0xD800 + w / 0x400) as u16);
            assert(b[1] == (0xDC00 + w % 0x400) as u16);
            assert(b[0] != 0 && b[1] != 0);
        }
        assert forall|j: int| 0 <= j < encode_utf16(s).len() implies encode_utf16(s)[j] != 0 by {
            if j >= a.len() {
                assert(encode_utf16(s)[j] == b[j - a.len()]);
            } else {
                assert(encode_utf16(s)[j] == a[j]);
            }
        }
    }
}

/// Appends the UTF-16 encoding of `s` to `out`.
fn push_utf16(out: &mut Vec<u16>, s: &str)
    ensures
        final(out)@ == old(out)@ + encode_utf16(s@),
{
    let n = s.unicode_len();
    let mut i: usize = 0;
    assert(s@.take(0) =~= Seq::<char>::empty());
    assert(old(out)@ + Seq::<u16>::empty() =~= old(out)@);
    while i < n
        invariant
            n == s@.len(),
            i <= n,
            out@ == old(out)@ + encode_utf16(s@.take(i as int)),
        decreases n - i,
    {
        let c = s.get_char(i);
        let v: u32 = c as u32;
        let ghost before = out@;
        if v < 0x10000 {
            out.push(v as u16);
        } else {
            let w = v - 0x10000;
            out.push((0xD800 + w / 0x400) as u16);
            out.push((0xDC00 + w % 0x400) as u16);
        }
        proof {
            assert(out@ =~= before + utf16_units(c));
            assert(s@.take(i + 1).drop_last() =~= s@.take(i as int));
            assert(s@.take(i + 1).last() == c);
            assert(old(out)@ + encode_utf16(s@.take(i as int)) + utf16_units(c) =~= old(out)@ + (
            encode_utf16(s@.take(i as int)) + utf16_units(c)));
        }
        i = i + 1;
    }
    assert(s@.take(n as int) =~= s@);
}

/// `s` as a NUL-terminated UTF-16 string, as the wide-character Windows API
/// takes it.
pub fn to_wide(s: &str) -> (r: Vec<u16>)
    ensures
        r@ == encode_utf16(s@).push(0),
{
    let mut out: Vec<u16> = Vec::new();
    push_utf16(&mut out, s);
    assert(Seq::<u16>::empty() + encode_utf16(s@) =~= encode_utf16(s@));
    out.push(0);
    out
}

/// `s` as UTF-16 little-endian bytes after a byte-order mark, the encoding of
/// the task file given to `schtasks /xml`. Reading the bytes after the mark as
/// little-endian UTF-16 gives `s` back.
pub fn utf16le_with_bom(s: &str) -> (r: Vec<u8>)
    ensures
        r@ == seq![0xFFu8, 0xFEu8] + le_bytes(encode_utf16(s@)),
        decode_utf16_lossy(units_from_le(r@.skip(2))) == s@,
{
    let mut units: Vec<u16> = Vec::new();
    push_utf16(&mut units, s);
    assert(Seq::<u16>::empty() + encode_utf16(s@) =~= encode_utf16(s@));
    let mut bytes: Vec<u8> = Vec::new();
    bytes.push(0xFF);
    bytes.push(0xFE);
    let n = units.len();
    let mut i: usize = 0;
    assert(units@.take(0) =~= Seq::<u16>::empty());
    assert(bytes@ =~= seq![0xFFu8, 0xFEu8] + le_bytes(units@.take(0)));
    while i < n
        invariant
            n == units@.len(),
            i <= n,
            bytes@ == seq![0xFFu8, 0xFEu8] + le_bytes(units@.take(i as int)),
        decreases n - i,
    {
        let u = units[i];
        bytes.push((u % 256) as u8);
        bytes.push((u / 256) as u8);
        proof {
            assert(units@.take(i + 1).drop_last() =~= units@.take(i as int));
            assert(units@.take(i + 1).last() == u);
            assert(bytes@ =~= seq![0xFFu8, 0xFEu8] + le_bytes(units@.take(i + 1)));
        }
        i = i + 1;
    }
    assert(units@.take(n as int) =~= units@);
    proof {
        assert(bytes@.skip(2) =~= le_bytes(encode_utf16(s@)));
        lemma_units_from_le_bytes(encode_utf16(s@));
        lemma_decode_encode(s@);
    }
    bytes
}

/// `until_nul` stops at the first NUL unit.
pub proof fn lemma_until_nul(u: Seq<u16>, k: int)
    requires
        0 <= k <= u.len(),
        forall|j: int| 0 <= j < k ==> u[j] != 0,
        k == u.len() || u[k] == 0,
    ensures
        until_nul(u) == u.take(k),
    decreases u.len(),
{
    if u.len() == 0 {
        assert(u.take(k) =~= u);
    } else if u[0] == 0 {
        assert(u.take(k) =~= Seq::<u16>::empty());
    } else {
        lemma_until_nul(u.skip(1), k - 1);
        assert(seq![u[0]] + u.skip(1).take(k - 1) =~= u.take(k));
    }
}

/// Decodes the first `end` units of `buf`, replacing unpaired surrogates by U+FFFD.
fn decode_utf16_prefix(buf: &[u16], end: usize) -> (r: String)
    requires
        end <= buf@.len(),
    ensures
        r@ == decode_utf16_lossy(buf@.take(end as int)),
{
    let ghost u = buf@.take(end as int);
    let mut out = String::new();
    let mut i: usize = 0;
    assert(u.skip(0) =~= u);
    assert(Seq::<char>::empty() + decode_utf16_lossy(u) =~= decode_utf16_lossy(u));
    while i < end
        invariant
            end <= buf@.len(),
            u == buf@.take(end as int),
            i <= end,
            decode_utf16_lossy(u) == out@ + decode_utf16_lossy(u.skip(i as int)),
        decreases end - i,
    {
        let a = buf[i];
        let ghost rest = u.skip(i as int);
        assert(rest[0] == a);
        let ghost before = out@;
        if 0xD800 <= a && a <= 0xDBFF && i + 1 < end && 0xDC00 <= buf[i + 1] && buf[i + 1] <= 0xDFFF {
            let b = buf[i + 1];
            assert(rest[1] == b);
            let v: u32 = 0x10000 + (a as u32 - 0xD800) * 0x400 + (b as u32 - 0xDC00);
            let c = match char_from_u32(v) {
                Some(c) => c,
                None => '\u{FFFD}',
            };
            assert(c == pair_char(a, b));
            push_char(&mut out, c);
            assert(rest.skip(2) =~= u.skip(i + 2));
            assert(before + (seq![c] + decode_utf16_lossy(rest.skip(2))) =~= out@
                + decode_utf16_lossy(u.skip(i + 2)));
            i = i + 2;
        } else if 0xD800 <= a && a <= 0xDFFF {
            push_char(&mut out, '\u{FFFD}');
            assert(rest.skip(1) =~= u.skip(i + 1));
            assert(before + (seq![replacement_char()] + decode_utf16_lossy(rest.skip(1))) =~= out@
                + decode_utf16_lossy(u.skip(i + 1)));
            i = i + 1;
        } else {
            let c = match char_from_u32(a as u32) {
                Some(c) => c,
                None => '\u{FFFD}',
            };
            assert(c == a as u32 as char);
            push_char(&mut out, c);
            assert(rest.skip(1) =~= u.skip(i + 1));
            assert(before + (seq![c] + decode_utf16_lossy(rest.skip(1))) =~= out@
                + decode_utf16_lossy(u.skip(i + 1)));
            i = i + 1;
        }
    }
    assert(u.skip(end as int) =~= Seq::<u16>::empty());
    assert(out@ + Seq::<char>::empty() =~= out@);
    out
}

/// The text in a NUL-terminated UTF-16 buffer filled by the Windows API: the
/// units before the first NUL (all of them when there is none), decoded with
/// unpaired surrogates replaced by U+FFFD.
pub fn string_from_wide_buffer(buf: &[u16]) -> (r: String)
    ensures
        r@ == decode_utf16_lossy(until_nul(buf@)),
{
    let n = buf.len();
    let mut end: usize = 0;
    while end < n && buf[end] != 0
        invariant
            n == buf@.len(),
            end <= n,
            forall|j: int| 0 <= j < end ==> buf@[j] != 0,
        decreases n - end,
    {
        end = end + 1;
    }
    proof {
        lemma_until_nul(buf@, end as int);
    }
    decode_utf16_prefix(buf, end)
}

/// The bytes of `b` but a last odd one.
pub open spec fn even_prefix(b: Seq<u8>) -> Seq<u8> {
    b.take(b.len() - b.len() % 2)
}

/// Output that starts with the UTF-16 LE byte order mark `FF FE`: the text of
/// the bytes after it, read as little-endian 16-bit units (a last odd byte is
/// left out) with unpaired surrogates replaced by U+FFFD. Other output gives
/// `None`.
pub fn utf16le_text(bytes: &[u8]) -> (r: Option<String>)
    ensures
        bytes@.len() >= 2 && bytes@[0] == 0xFF && bytes@[1] == 0xFE ==> (r matches Some(t) && t@
            == decode_utf16_lossy(units_from_le(even_prefix(bytes@.skip(2))))),
        !(bytes@.len() >= 2 && bytes@[0] == 0xFF && bytes@[1] == 0xFE) ==> r is None,
{
    let n = bytes.len();
    if n < 2 || bytes[0] != 0xFF || bytes[1] != 0xFE {
        return None;
    }
    let ghost body = bytes@.skip(2);
    let mut units: Vec<u16> = Vec::new();
    let mut i: usize = 2;
    while i + 1 < n
        invariant
            n == bytes@.len(),
            2 <= i <= n,
            (i - 2) % 2 == 0,
            body == bytes@.skip(2),
            units@ == units_from_le(body.take(i - 2)),
        decreases n - i,
    {
        let u: u16 = bytes[i] as u16 + 256 * (bytes[i + 1] as u16);
        proof {
            let t = body.take(i + 2 - 2);
            assert(t.drop_last().drop_last() =~= body.take(i - 2));
            assert(t[t.len() - 2] == bytes@[i as int] && t.last() == bytes@[i + 1]);
        }
        units.push(u);
        i = i + 2;
    }
    proof {
        assert(even_prefix(body) =~= body.take(i - 2));
        assert(units@.take(units@.len() as int) =~= units@);
    }
    let len = units.len();
    Some(decode_utf16_prefix(units.as_slice(), len))
}

} // verus!
