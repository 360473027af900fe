//! UTF-16 as the clipboard's Unicode text format holds it: NUL-terminated
//! 16-bit units in little-endian byte order, decoded lossily.

use vstd::prelude::*;
use vstd::utf8::is_scalar;
use crate::text::push_char;

verus! {

broadcast use vstd::utf8::char_is_scalar, vstd::utf8::char_u32_cast;

/// The character that stands for an unpaired surrogate when decoding.
pub const REPLACEMENT_CHAR: char = '\u{FFFD}';

/// The UTF-16 code units of one character.
pub open spec fn encode_char_utf16(c: char) -> Seq<u16> {
    let v = c as u32;
    if v < 0x10000 {
        seq![v as u16]
    } else {
        let w = v - 0x10000;
        seq![(0xD800 + w / 0x400) as u16, (0xDC00 + w % 0x400) as u16]
    }
}

/// The UTF-16 code units of a character sequence.
pub open spec fn encode_utf16(s: Seq<char>) -> Seq<u16>
    decreases s.len(),
{
    if s.len() == 0 {
        seq![]
    } else {
        encode_char_utf16(s[0]) + encode_utf16(s.drop_first())
    }
}

pub open spec fn is_high_surrogate(u: u16) -> bool {
    0xD800 <= u <= 0xDBFF
}

pub open spec fn is_low_surrogate(u: u16) -> bool {
    0xDC00 <= u <= 0xDFFF
}

/// The scalar value that a high and a low surrogate stand for together.
pub open spec fn pair_scalar(hi: u16, lo: u16) -> u32 {
    (0x10000 + (hi - 0xD800) * 0x400 + (lo - 0xDC00)) as u32
}

/// Lossy UTF-16 decoding (`String::from_utf16_lossy`): surrogate pairs
/// become one character, an unpaired surrogate becomes `REPLACEMENT_CHAR`.
pub open spec fn decode_utf16_lossy(u: Seq<u16>) -> Seq<char>
    decreases u.len(),
{
    if u.len() == 0 {
        seq![]
    } else if u.len() >= 2 && is_high_surrogate(u[0]) && is_low_surrogate(u[1]) {
        seq![pair_scalar(u[0], u[1]) as char] + decode_utf16_lossy(u.skip(2))
    } else if 0xD800 <= u[0] <= 0xDFFF {
        seq![REPLACEMENT_CHAR] + decode_utf16_lossy(u.skip(1))
    } else {
        seq![(u[0] as u32) as char] + decode_utf16_lossy(u.skip(1))
    }
}

/// The elements of `s` before the first `stop`, or all of `s` when there is none.
pub open spec fn take_until<T>(s: Seq<T>, stop: T) -> Seq<T>
    decreases s.len(),
{
    if s.len() == 0 || s[0] == stop {
        seq![]
    } else {
        seq![s[0]] + take_until(s.drop_first(), stop)
    }
}

/// Code units as little-endian bytes, two per unit.
pub open spec fn units_to_le_bytes(u: Seq<u16>) -> Seq<u8> {
    Seq::new(
        2 * u.len(),
        |i: int| if i % 2 == 0 { (u[i / 2] % 256) as u8 } else { (u[i / 2] / 256) as u8 },
    )
}

/// Little-endian bytes read back as code units; an odd last byte is ignored.
pub open spec fn le_bytes_to_units(b: Seq<u8>) -> Seq<u16> {
    Seq::new(b.len() / 2, |i: int| (b[2 * i] + 256 * b[2 * i + 1]) as u16)
}

/// Whether `s` holds no NUL character.
pub open spec fn no_nul(s: Seq<char>) -> bool {
    forall|i: int| 0 <= i < s.len() ==> s[i] != '\0'
}

/// `char::from_u32`: the character with scalar value `v`, if there is one.
#[verifier::external_body]
pub(crate) fn char_from_scalar(v: u32) -> (r: Option<char>)
    ensures
        r is Some <==> is_scalar(v),
        r matches Some(c) ==> c as u32 == v,
{
    char::from_u32(v)
}

/// `str::encode_utf16`, collected.
pub fn encode_utf16_units(s: &str) -> (r: Vec<u16>)
    ensures
        r@ == encode_utf16(s@),
{
    let chars = crate::text::chars_of(s);
    let n = chars.len();
    let mut out: Vec<u16> = Vec::new();
    proof {
        assert(chars@.skip(0) =~= chars@);
        assert(out@ + encode_utf16(chars@) =~= encode_utf16(chars@));
    }
    let mut k: usize = 0;
    while k < n
        invariant
            n == chars@.len(),
            k <= n,
            out@ + encode_utf16(chars@.skip(k as int)) == encode_utf16(chars@),
        decreases n - k,
    {
        let c = chars[k];
        let v = c as u32;
        proof {
            vstd::utf8::char_is_scalar(c);
            assert(chars@.skip(k as int)[0] == c);
            assert(chars@.skip(k as int).drop_first() =~= chars@.skip(k + 1));
        }
        if v < 0x10000 {
            out.push(v as u16);
        } else {
            let w = v - 0x10000;
            out.push((0xD800 + w / 0x400) as u16);
            out.push((0xDC00 + w % 0x400) as u16);
        }
        proof {
            assert(out@ + encode_utf16(chars@.skip(k + 1)) =~= encode_utf16(chars@));
        }
        k = k + 1;
    }
    proof {
        assert(chars@.skip(n as int) =~= Seq::<char>::empty());
        assert(out@ =~= out@ + Seq::<u16>::empty());
    }
    out
}


/// `String::from_utf16_lossy`.
pub fn decode_utf16_units(u: &[u16]) -> (r: String)
    ensures
        r@ == decode_utf16_lossy(u@),
{
    let n = u.len();
    let mut out = String::new();
    let mut i: usize = 0;
    proof {
        assert(u@.skip(0) =~= u@);
    }
    while i < n
        invariant
            n == u@.len(),
            i <= n,
            out@ + decode_utf16_lossy(u@.skip(i as int)) == decode_utf16_lossy(u@),
        decreases n - i,
    {
        let a = u[i];
        let ghost rest = u@.skip(i as int);
        assert(rest[0] == a);
        if i + 1 < n && 0xD800 <= a && a <= 0xDBFF && 0xDC00 <= u[i + 1] && u[i + 1] <= 0xDFFF {
            let b = u[i + 1];
            assert(rest[1] == b);
            let v: u32 = 0x10000 + ((a - 0xD800) as u32) * 0x400 + ((b - 0xDC00) as u32);
            assert(v == pair_scalar(a, b));
            let c = char_from_scalar(v).unwrap();
            let ghost before = out@;
            push_char(&mut out, c);
            proof {
                vstd::utf8::char_u32_cast(c, v);
                assert(rest.skip(2) =~= u@.skip(i + 2));
                assert(decode_utf16_lossy(rest) == seq![c] + decode_utf16_lossy(rest.skip(2)));
                assert(before + (seq![c] + decode_utf16_lossy(u@.skip(i + 2))) =~= out@
                    + decode_utf16_lossy(u@.skip(i + 2)));
            }
            i = i + 2;
        } else {
            let ghost before = out@;
            let c = if 0xD800 <= a && a <= 0xDFFF {
                REPLACEMENT_CHAR
            } else {
                let c = char_from_scalar(a as u32).unwrap();
                proof {
                    vstd::utf8::char_u32_cast(c, a as u32);
                }
                c
            };
            push_char(&mut out, c);
            proof {
                assert(rest.skip(1) =~= u@.skip(i + 1));
                assert(decode_utf16_lossy(rest) == seq![c] + decode_utf16_lossy(rest.skip(1)));
                assert(before + (seq![c] + decode_utf16_lossy(u@.skip(i + 1))) =~= out@
                    + decode_utf16_lossy(u@.skip(i + 1)));
            }
            i = i + 1;
        }
    }
    proof {
        assert(u@.skip(n as int) =~= Seq::<u16>::empty());
        assert(out@ + Seq::<char>::empty() =~= out@);
    }
    out
}

/// Decoding undoes encoding: text put on the clipboard as UTF-16 reads back unchanged.
pub proof fn lemma_utf16_roundtrip(s: Seq<char>)
    ensures
        decode_utf16_lossy(encode_utf16(s)) == s,
    decreases s.len(),
{
    if s.len() > 0 {
        let c = s[0];
        let v = c as u32;
        vstd::utf8::char_is_scalar(c);
        let e = encode_utf16(s);
        let rest = encode_utf16(s.drop_first());
        lemma_utf16_roundtrip(s.drop_first());
        if v < 0x10000 {
            assert(e.skip(1) =~= rest);
            assert(e[0] == v as u16);
            assert((e[0] as u32) == v);
            vstd::utf8::char_u32_cast(c, v);
        } else {
            let w = v - 0x10000;
            assert(e.skip(2) =~= rest);
            assert(pair_scalar(e[0], e[1]) == v);
            vstd::utf8::char_u32_cast(c, v);
        }
        assert(s =~= seq![c] + s.drop_first());
    }
}

/// Encoding holds a zero unit only where the text holds a NUL character.
pub proof fn lemma_utf16_no_zero(s: Seq<char>)
    requires
        no_nul(s),
    ensures
        forall|i: int| 0 <= i < encode_utf16(s).len() ==> encode_utf16(s)[i] != 0,
    decreases s.len(),
{
    if s.len() > 0 {
        let t = s.drop_first();
        assert(no_nul(t)) by {
            assert forall|i: int| 0 <= i < t.len() implies t[i] != '\0' by {
                assert(t[i] == s[i + 1]);
            }
        }
        lemma_utf16_no_zero(t);
        let c = s[0];
        assert(c != '\0');
        vstd::utf8::char_is_scalar(c);
        if (c as u32) == 0 {
            vstd::utf8::char_u32_cast(c, 0u32);
            assert(c == (0u32 as char));
        }
        let e = encode_utf16(s);
        let ec = encode_char_utf16(c);
        assert forall|i: int| 0 <= i < e.len() implies e[i] != 0 by {
            if i >= ec.len() {
                assert(e[i] == encode_utf16(t)[i - ec.len()]);
            }
        }
    }
}

/// Stopping at the first `stop` after a prefix free of it gives that prefix.
pub proof fn lemma_take_until_prefix<T>(a: Seq<T>, stop: T, junk: Seq<T>)
    requires
        forall|i: int| 0 <= i < a.len() ==> a[i] != stop,
    ensures
        take_until(a + seq![stop] + junk, stop) == a,
    decreases a.len(),
{
    let s = a + seq![stop] + junk;
    if a.len() == 0 {
        assert(s[0] == stop);
    } else {
        assert(s[0] == a[0]);
        assert(s.drop_first() =~= a.drop_first() + seq![stop] + junk);
        lemma_take_until_prefix(a.drop_first(), stop, junk);
        assert(a =~= seq![a[0]] + a.drop_first());
    }
}

/// `take_until` keeps a prefix, so it is never longer than its input.
pub proof fn lemma_take_until_len<T>(s: Seq<T>, stop: T)
    ensures
        take_until(s, stop).len() <= s.len(),
    decreases s.len(),
{
    if s.len() > 0 && s[0] != stop {
        lemma_take_until_len(s.drop_first(), stop);
    }
}

/// `take_until` is the prefix up to the first `stop`.
pub(crate) proof fn lemma_take_until_at<T>(s: Seq<T>, stop: T, k: int)
    requires
        0 <= k <= s.len(),
        forall|j: int| 0 <= j < k ==> s[j] != stop,
        k < s.len() ==> s[k] == stop,
    ensures
        take_until(s, stop) == s.take(k),
    decreases k,
{
    if k > 0 {
        let t = s.drop_first();
        assert forall|j: int| 0 <= j < k - 1 implies t[j] != stop by {
            assert(t[j] == s[j + 1]);
        }
        lemma_take_until_at(t, stop, k - 1);
        assert(s.take(k) =~= seq![s[0]] + t.take(k - 1));
    }
}

/// The units before the first zero unit.
pub fn units_until_nul(u: &[u16]) -> (r: Vec<u16>)
    ensures
        r@ == take_until(u@, 0u16),
{
    let n = u.len();
    let mut out: Vec<u16> = Vec::new();
    let mut k: usize = 0;
    while k < n && u[k] != 0
        invariant
            n == u@.len(),
            k <= n,
            out@ == u@.take(k as int),
            forall|j: int| 0 <= j < k ==> u@[j] != 0,
        decreases n - k,
    {
        out.push(u[k]);
        assert(out@ =~= u@.take(k + 1));
        k = k + 1;
    }
    proof {
        lemma_take_until_at(u@, 0u16, k as int);
    }
    out
}

/// The bytes before the first zero byte.
pub fn bytes_until_nul(b: &[u8]) -> (r: Vec<u8>)
    ensures
        r@ == take_until(b@, 0u8),
{
    let n = b.len();
    let mut out: Vec<u8> = Vec::new();
    let mut k: usize = 0;
    while k < n && b[k] != 0
        invariant
            n == b@.len(),
            k <= n,
            out@ == b@.take(k as int),
            forall|j: int| 0 <= j < k ==> b@[j] != 0,
        decreases n - k,
    {
        out.push(b[k]);
        assert(out@ =~= b@.take(k + 1));
        k = k + 1;
    }
    proof {
        lemma_take_until_at(b@, 0u8, k as int);
    }
    out
}

/// Code units laid out as little-endian bytes.
pub fn units_to_le(u: &[u16]) -> (r: Vec<u8>)
    ensures
        r@ == units_to_le_bytes(u@),
{
    let n = u.len();
    let mut out: Vec<u8> = Vec::new();
    let mut k: usize = 0;
    while k < n
        invariant
            n == u@.len(),
            k <= n,
            out@ == units_to_le_bytes(u@.take(k as int)),
        decreases n - k,
    {
        let x = u[k];
        out.push((x % 256) as u8);
        out.push((x / 256) as u8);
        proof {
            let t = u@.take(k + 1);
            assert forall|i: int| 0 <= i < 2 * k implies #[trigger] units_to_le_bytes(t)[i]
                == units_to_le_bytes(u@.take(k as int))[i] by {
                assert(t[i / 2] == u@[i / 2]);
            }
            assert(out@ =~= units_to_le_bytes(t));
        }
        k = k + 1;
    }
    assert(u@.take(n as int) =~= u@);
    out
}

/// Little-endian bytes read as code units.
pub fn le_to_units(b: &[u8]) -> (r: Vec<u16>)
    ensures
        r@ == le_bytes_to_units(b@),
{
    let len = b.len();
    let n = len / 2;
    let mut out: Vec<u16> = Vec::new();
    let mut k: usize = 0;
    while k < n
        invariant
            len == b@.len(),
            n == len / 2,
            k <= n,
            out@ == le_bytes_to_units(b@).take(k as int),
        decreases n - k,
    {
        assert(k + k + 1 < b@.len());
        let j: usize = k + k;
        let lo = b[j];
        let hi = b[j + 1];
        out.push((lo as u16) + (hi as u16) * 256);
        assert(out@ =~= le_bytes_to_units(b@).take(k + 1));
        k = k + 1;
    }
    assert(le_bytes_to_units(b@).take(n as int) =~= le_bytes_to_units(b@));
    out
}

/// Reading back bytes laid out from units gives those units, whatever follows them.
pub proof fn lemma_le_roundtrip(u: Seq<u16>, junk: Seq<u8>)
    ensures
        le_bytes_to_units(units_to_le_bytes(u) + junk) == u + le_bytes_to_units(junk),
{
    let b = units_to_le_bytes(u) + junk;
    let r = le_bytes_to_units(b);
    let m = u.len();
    assert(r.len() == m + le_bytes_to_units(junk).len());
    assert forall|i: int| 0 <= i < r.len() implies r[i] == (u + le_bytes_to_units(junk))[i] by {
        if i < m {
            assert(b[2 * i] == (u[i] % 256) as u8);
            assert(b[2 * i + 1] == (u[i] / 256) as u8);
        } else {
            let j = i - m;
            assert(b[2 * i] == junk[2 * j]);
            assert(b[2 * i + 1] == junk[2 * j + 1]);
        }
    }
    assert(r =~= u + le_bytes_to_units(junk));
}

} // verus!
