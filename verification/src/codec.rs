//! Decoding of the null-terminated UTF-16LE strings found in UEFI
//! boot-entry variables.
//!
//! The decoding policy is deliberately ASCII-only: a code unit sequence
//! that does not decode to a Unicode scalar value becomes a single space,
//! and so does every successfully decoded character outside the ASCII
//! range.  The menu is rendered on a text terminal, and spaces are safer
//! there than arbitrary glyphs.

use vstd::prelude::*;

verus! {

/// The 16-bit code units stored little-endian in `bytes`, two bytes per
/// unit, low byte first; a trailing odd byte is ignored.
pub open spec fn spec_units(bytes: Seq<u8>) -> Seq<u16> {
    Seq::new(bytes.len() / 2, |k: int| (bytes[2 * k] + 256 * bytes[2 * k + 1]) as u16)
}

/// The longest prefix of `units` that contains no zero (terminator) unit.
pub open spec fn spec_before_nul(units: Seq<u16>) -> Seq<u16>
    decreases units.len(),
{
    if units.len() == 0 {
        Seq::empty()
    } else if units[0] == 0 {
        Seq::empty()
    } else {
        seq![units[0]] + spec_before_nul(units.drop_first())
    }
}

/// How many bytes the scan of a description consumes: two per unit looked
/// at, counting the terminator pair, plus a final probe of two bytes when
/// the input runs out before a terminator is found.
pub open spec fn spec_consumed(units: Seq<u16>) -> int
    decreases units.len(),
{
    if units.len() == 0 {
        2
    } else if units[0] == 0 {
        2
    } else {
        2 + spec_consumed(units.drop_first())
    }
}

/// The scan always consumes the two probe bytes, and at most two bytes
/// per unit on top of them.
pub proof fn lemma_consumed_bound(units: Seq<u16>)
    ensures
        2 <= spec_consumed(units) <= 2 * units.len() + 2,
    decreases units.len(),
{
    if units.len() == 0 {
    } else if units[0] == 0 {
    } else {
        lemma_consumed_bound(units.drop_first());
    }
}

pub open spec fn is_high_surrogate(u: u16) -> bool {
    0xD800 <= u < 0xDC00
}

pub open spec fn is_low_surrogate(u: u16) -> bool {
    0xDC00 <= u < 0xE000
}

/// UTF-16 decoding with the ASCII-only policy, producing one byte per
/// decoded character: an ASCII unit passes through, a surrogate pair
/// (one character above the ASCII range), an unpaired surrogate (a
/// decoding error) and any other non-ASCII unit each become one space.
pub open spec fn spec_decode(units: Seq<u16>) -> Seq<u8>
    decreases units.len(),
{
    if units.len() == 0 {
        Seq::empty()
    } else {
        let u = units[0];
        if is_high_surrogate(u) && units.len() >= 2 && is_low_surrogate(units[1]) {
            seq![0x20u8] + spec_decode(units.skip(2))
        } else if is_high_surrogate(u) || is_low_surrogate(u) {
            seq![0x20u8] + spec_decode(units.skip(1))
        } else if u < 0x80 {
            seq![u as u8] + spec_decode(units.skip(1))
        } else {
            seq![0x20u8] + spec_decode(units.skip(1))
        }
    }
}

/// The characters denoted by a sequence of ASCII bytes.
pub open spec fn chars_of(bytes: Seq<u8>) -> Seq<char> {
    bytes.map_values(|b: u8| b as char)
}

/// The decoded description of a raw byte region: code units are read as
/// little-endian byte pairs up to the first zero unit (or the end of the
/// region), then decoded under the ASCII-only policy.
pub open spec fn spec_description(bytes: Seq<u8>) -> Seq<char> {
    chars_of(spec_decode(spec_before_nul(spec_units(bytes))))
}

/// Relies on `String::from_utf8`: ASCII bytes are valid UTF-8 and decode
/// to exactly the characters with the same code points.
#[verifier::external_body]
pub(crate) fn ascii_bytes_to_string(bytes: &Vec<u8>) -> (s: String)
    requires
        forall|i: int| 0 <= i < bytes@.len() ==> bytes@[i] < 0x80,
    ensures
        s@ == chars_of(bytes@),
{
    String::from_utf8(bytes.clone()).unwrap_or_default()
}

/// Every byte produced by the decoder is ASCII.
pub proof fn lemma_decode_ascii(units: Seq<u16>)
    ensures
        forall|i: int| 0 <= i < spec_decode(units).len() ==> spec_decode(units)[i] < 0x80,
    decreases units.len(),
{
    if units.len() == 0 {
    } else {
        let u = units[0];
        let out = spec_decode(units);
        let step: int = if is_high_surrogate(u) && units.len() >= 2 && is_low_surrogate(
            units[1],
        ) {
            2
        } else {
            1
        };
        lemma_decode_ascii(units.skip(step));
        assert forall|i: int| 0 <= i < out.len() implies out[i] < 0x80 by {
            if i > 0 {
                assert(out[i] == spec_decode(units.skip(step))[i - 1]);
            }
        }
    }
}

/// Every character of a decoded description is ASCII: anything outside
/// that range was replaced by a space.
pub proof fn lemma_description_ascii(bytes: Seq<u8>)
    ensures
        forall|i: int|
            0 <= i < spec_description(bytes).len() ==> (spec_description(bytes)[i] as u32) < 0x80,
{
    lemma_decode_ascii(spec_before_nul(spec_units(bytes)));
}

/// A terminating zero unit always stops the scan: whatever follows the
/// first zero unit has no effect on the decoded description.
pub proof fn lemma_nul_stops(prefix: Seq<u16>, rest: Seq<u16>)
    requires
        forall|j: int| 0 <= j < prefix.len() ==> prefix[j] != 0,
    ensures
        spec_before_nul(prefix + seq![0u16] + rest) == prefix,
    decreases prefix.len(),
{
    let whole = prefix + seq![0u16] + rest;
    if prefix.len() == 0 {
        assert(whole[0] == 0);
        assert(spec_before_nul(whole) =~= prefix);
    } else {
        assert(whole[0] == prefix[0]);
        lemma_nul_stops(prefix.drop_first(), rest);
        assert(whole.drop_first() =~= prefix.drop_first() + seq![0u16] + rest);
        assert(spec_before_nul(whole) =~= prefix);
    }
}

/// Every non-space byte of the decoded output is the value of an ASCII
/// code unit of the input: code units outside the ASCII range only ever
/// decode to spaces.
pub proof fn lemma_nonspace_from_ascii_unit(units: Seq<u16>)
    ensures
        forall|i: int|
            0 <= i < spec_decode(units).len() && spec_decode(units)[i] != 0x20 ==> exists|j: int|
                0 <= j < units.len() && units[j] == spec_decode(units)[i] as u16,
    decreases units.len(),
{
    if units.len() == 0 {
    } else {
        let u = units[0];
        let out = spec_decode(units);
        let step: int = if is_high_surrogate(u) && units.len() >= 2 && is_low_surrogate(
            units[1],
        ) {
            2
        } else {
            1
        };
        let tail = units.skip(step);
        lemma_nonspace_from_ascii_unit(tail);
        assert forall|i: int| 0 <= i < out.len() && out[i] != 0x20 implies exists|j: int|
            0 <= j < units.len() && units[j] == out[i] as u16 by {
            if i == 0 {
                assert(units[0] == out[0] as u16);
            } else {
                assert(out[i] == spec_decode(tail)[i - 1]);
                let j0 = choose|j0: int|
                    0 <= j0 < tail.len() && tail[j0] == spec_decode(tail)[i - 1] as u16;
                assert(units[j0 + step] == out[i] as u16);
            }
        }
    }
}

/// Scans a null-terminated UTF-16LE string at the front of `buf` and
/// decodes it under the ASCII-only policy.  Returns the decoded string
/// together with the number of bytes the scan consumed (the terminator
/// pair included; two bytes more than the region holds when the input
/// ran out before a terminator was found).
pub fn char16_to_string(buf: &[u8]) -> (r: (String, usize))
    requires
        buf@.len() + 2 <= usize::MAX,
    ensures
        r.0@ == spec_description(buf@),
        r.1 == spec_consumed(spec_units(buf@)),
{
    let (bytes, end) = decode_utf16le(buf);
    let s = ascii_bytes_to_string(&bytes);
    (s, end)
}

/// The byte-level core of [`char16_to_string`]: the decoded characters as
/// ASCII bytes, and the number of bytes the scan consumed.
pub fn decode_utf16le(buf: &[u8]) -> (r: (Vec<u8>, usize))
    requires
        buf@.len() + 2 <= usize::MAX,
    ensures
        r.0@ == spec_decode(spec_before_nul(spec_units(buf@))),
        r.1 == spec_consumed(spec_units(buf@)),
        forall|i: int| 0 <= i < r.0@.len() ==> r.0@[i] < 0x80,
{
    let ghost su = spec_units(buf@);
    let n: usize = buf.len();
    let num: usize = n / 2;
    let mut units: Vec<u16> = Vec::new();
    let mut k: usize = 0;
    let mut found: bool = false;

    while k < num && !found
        invariant
            num == buf@.len() / 2,
            n == buf@.len(),
            buf@.len() + 2 <= usize::MAX,
            su == spec_units(buf@),
            0 <= k <= num,
            su.len() == num,
            units@ == su.take(k as int),
            forall|j: int| 0 <= j < k ==> su[j] != 0,
            found ==> (k < num && su[k as int] == 0),
        decreases num - k + (if found { 0int } else { 1int }),
    {
        let lower: u8 = buf[2 * k];
        let upper: u8 = buf[2 * k + 1];
        let unit: u16 = (lower as u16) + 256 * (upper as u16);
        assert(unit == su[k as int]);
        if unit == 0 {
            found = true;
        } else {
            units.push(unit);
            assert(units@ =~= su.take(k as int + 1));
            k = k + 1;
        }
    }

    let end: usize = 2 * k + 2;

    proof {
        lemma_scan_result(su, k as int, found);
    }

    // Decode the collected units into ASCII bytes.
    let ulen: usize = units.len();
    let mut out: Vec<u8> = Vec::new();
    let mut i: usize = 0;
    proof {
        assert(units@.skip(0) =~= units@);
        assert(Seq::<u8>::empty() + spec_decode(units@) =~= spec_decode(units@));
    }
    while i < ulen
        invariant
            ulen == units@.len(),
            0 <= i <= ulen,
            out@ + spec_decode(units@.skip(i as int)) == spec_decode(units@),
            forall|j: int| 0 <= j < out@.len() ==> out@[j] < 0x80,
        decreases ulen - i,
    {
        let ghost pre = units@.skip(i as int);
        let u: u16 = units[i];
        assert(pre[0] == u);
        if 0xD800 <= u && u < 0xDC00 && i + 1 < ulen && 0xDC00 <= units[i + 1] && units[i + 1]
            < 0xE000 {
            assert(pre[1] == units@[i as int + 1]);
            out.push(0x20u8);
            proof {
                assert(pre.skip(2) =~= units@.skip(i as int + 2));
                assert(out@ + spec_decode(units@.skip(i as int + 2)) =~= spec_decode(units@));
            }
            i = i + 2;
        } else {
            let b: u8 = if u < 0x80 {
                u as u8
            } else {
                0x20u8
            };
            proof {
                if is_high_surrogate(u) && pre.len() >= 2 && is_low_surrogate(pre[1]) {
                    assert(pre[1] == units@[i as int + 1]);
                    assert(i + 1 < ulen);
                    assert(false);
                }
            }
            out.push(b);
            proof {
                assert(pre.skip(1) =~= units@.skip(i as int + 1));
                assert(out@ + spec_decode(units@.skip(i as int + 1)) =~= spec_decode(units@));
            }
            i = i + 1;
        }
    }
    proof {
        assert(units@.skip(ulen as int) =~= Seq::empty());
        assert(out@ =~= spec_decode(units@));
    }

    (out, end)
}

/// Relates the state at which the scanning loop stopped to the spec-level
/// prefix and byte count.
proof fn lemma_scan_result(units: Seq<u16>, k: int, found: bool)
    requires
        0 <= k <= units.len(),
        forall|j: int| 0 <= j < k ==> units[j] != 0,
        found ==> k < units.len() && units[k] == 0,
        !found ==> k == units.len(),
    ensures
        spec_before_nul(units) == units.take(k),
        spec_consumed(units) == 2 * k + 2,
    decreases k,
{
    if k == 0 {
        assert(spec_before_nul(units) =~= units.take(0));
    } else {
        assert(units[0] != 0);
        lemma_scan_result(units.drop_first(), k - 1, found);
        assert(units.drop_first().take(k - 1) =~= units.take(k).drop_first());
        assert(spec_before_nul(units) =~= seq![units[0]] + units.take(k).drop_first());
        assert(spec_before_nul(units) =~= units.take(k));
    }
}

} // verus!
