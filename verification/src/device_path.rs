//! Walking the device-path region of a boot entry.
//!
//! A device path is a sequence of type-tagged nodes: one byte of type,
//! one of subtype, then a 16-bit little-endian total node length (header
//! included).  The walk visits nodes in order and stops at the first
//! end-of-path node (type `0x7F`), at a malformed header, or at the end
//! of the region.
//!
//! A "file path media" node (type 4, subtype 4) carries a null-terminated
//! UTF-16LE file path; its decoded, lowercased text becomes one path
//! segment, and the entry is a default-menu candidate exactly when the
//! text of the *last* file-path node seen contains none of the fixed
//! fallback-loader markers.  Any other node contributes a textual name of
//! its type tag and leaves the classification alone.

use crate::codec::{
    ascii_bytes_to_string, chars_of, decode_utf16le, spec_before_nul, spec_decode, spec_units,
};
use vstd::prelude::*;

verus! {

/// The declared total length of the node at the front of `dp`.
pub open spec fn node_len(dp: Seq<u8>) -> int {
    dp[2] + 256 * dp[3]
}

/// Whether the region starts with a well-formed node that the walk
/// visits: four header bytes present, a sane declared length that fits
/// the region, and not an end-of-path node.
pub open spec fn has_node(dp: Seq<u8>) -> bool {
    dp.len() >= 4 && dp[0] != 0x7F && 4 <= node_len(dp) && node_len(dp) <= dp.len()
}

/// Whether the node at the front of `dp` is a file-path media node.
pub open spec fn is_file_node(dp: Seq<u8>) -> bool {
    dp[0] == 0x04 && dp[1] == 0x04
}

/// Lowercasing of one ASCII byte.
pub open spec fn lower_byte(b: u8) -> u8 {
    if 65 <= b && b <= 90 {
        (b + 32) as u8
    } else {
        b
    }
}

/// ASCII lowercasing of a byte sequence.
pub open spec fn to_lower(bs: Seq<u8>) -> Seq<u8> {
    Seq::new(bs.len(), |i: int| lower_byte(bs[i]))
}

/// The uppercase hexadecimal digit for a value below 16.
pub open spec fn hex_digit(n: int) -> u8 {
    if n < 10 {
        (48 + n) as u8
    } else {
        (55 + n) as u8
    }
}

/// The textual name given to a non-file node's type tag.
pub open spec fn spec_type_name(t: u8) -> Seq<u8> {
    if t == 0x01 {
        seq![72u8, 97u8, 114u8, 100u8, 119u8, 97u8, 114u8, 101u8]
    } else if t == 0x02 {
        seq![65u8, 99u8, 112u8, 105u8]
    } else if t == 0x03 {
        seq![77u8, 101u8, 115u8, 115u8, 97u8, 103u8, 105u8, 110u8, 103u8]
    } else if t == 0x04 {
        seq![77u8, 101u8, 100u8, 105u8, 97u8]
    } else if t == 0x05 {
        seq![66u8, 105u8, 111u8, 115u8, 66u8, 111u8, 111u8, 116u8, 83u8, 112u8, 101u8, 99u8]
    } else {
        seq![85u8, 110u8, 107u8, 110u8, 111u8, 119u8, 110u8, 40u8, 48u8, 120u8] + seq![
            hex_digit(t as int / 16),
            hex_digit(t as int % 16),
        ] + seq![41u8]
    }
}

/// The decoded, lowercased text of the file path carried by the node
/// data `data` (header stripped).
pub open spec fn spec_file_text(data: Seq<u8>) -> Seq<u8> {
    to_lower(spec_decode(spec_before_nul(spec_units(data))))
}

/// The path segment contributed by the node at the front of `dp`.
pub open spec fn spec_node_text(dp: Seq<u8>) -> Seq<u8> {
    if is_file_node(dp) {
        spec_file_text(dp.subrange(4, node_len(dp)))
    } else {
        spec_type_name(dp[0])
    }
}

/// The path segments of a whole device-path region, in node order.
pub open spec fn spec_segments(dp: Seq<u8>) -> Seq<Seq<u8>>
    decreases dp.len(),
{
    if !has_node(dp) {
        Seq::empty()
    } else {
        seq![spec_node_text(dp)] + spec_segments(dp.skip(node_len(dp)))
    }
}

/// Whether `needle` occurs contiguously inside `hay`.
pub open spec fn spec_contains(hay: Seq<u8>, needle: Seq<u8>) -> bool {
    exists|i: int|
        0 <= i && i + needle.len() <= hay.len() && #[trigger] hay.subrange(i, i + needle.len())
            == needle
}

/// The fallback-loader path for x86-64 firmware.
pub open spec fn marker_x64() -> Seq<u8> {
    seq![
        92u8, 101u8, 102u8, 105u8, 92u8, 98u8, 111u8, 111u8, 116u8, 92u8, 98u8, 111u8, 111u8, 116u8,
        120u8, 54u8, 52u8, 46u8, 101u8, 102u8, 105u8,
    ]
}

/// The fallback-loader path for IA32 firmware.
pub open spec fn marker_ia() -> Seq<u8> {
    seq![
        92u8, 101u8, 102u8, 105u8, 92u8, 98u8, 111u8, 111u8, 116u8, 92u8, 98u8, 111u8, 111u8, 116u8,
        105u8, 97u8, 51u8, 50u8, 46u8, 101u8, 102u8, 105u8,
    ]
}

/// The fallback-loader path for AArch64 firmware.
pub open spec fn marker_aa64() -> Seq<u8> {
    seq![
        92u8, 101u8, 102u8, 105u8, 92u8, 98u8, 111u8, 111u8, 116u8, 92u8, 98u8, 111u8, 111u8, 116u8,
        97u8, 97u8, 54u8, 52u8, 46u8, 101u8, 102u8, 105u8,
    ]
}

/// Whether a lowercased file-path text names one of the fixed
/// fallback-loader paths.
pub open spec fn spec_is_marker(text: Seq<u8>) -> bool {
    spec_contains(text, marker_x64()) || spec_contains(text, marker_ia()) || spec_contains(
        text,
        marker_aa64(),
    )
}

/// The default-candidate flag after walking `dp`, starting from `acc`:
/// each file-path node overwrites the flag (true exactly when its text is
/// no marker), every other node leaves it alone — so the last file-path
/// node wins.
pub open spec fn spec_default_flag(dp: Seq<u8>, acc: bool) -> bool
    decreases dp.len(),
{
    if !has_node(dp) {
        acc
    } else {
        spec_default_flag(
            dp.skip(node_len(dp)),
            if is_file_node(dp) {
                !spec_is_marker(spec_node_text(dp))
            } else {
                acc
            },
        )
    }
}

/// Substring search: whether `needle` occurs contiguously in `hay`.
pub fn contains_bytes(hay: &Vec<u8>, needle: &Vec<u8>) -> (r: bool)
    ensures
        r == spec_contains(hay@, needle@),
{
    let hlen: usize = hay.len();
    let nlen: usize = needle.len();
    if nlen > hlen {
        proof {
            assert forall|i: int| !(0 <= i && i + needle@.len() <= hay@.len() && #[trigger] hay@.subrange(
                i,
                i + needle@.len(),
            ) == needle@) by {
                if 0 <= i && i + needle@.len() <= hay@.len() {
                    assert(false);
                }
            }
        }
        return false;
    }
    let mut s: usize = 0;
    while s <= hlen - nlen
        invariant
            hlen == hay@.len(),
            nlen == needle@.len(),
            nlen <= hlen,
            0 <= s <= hlen - nlen + 1,
            forall|i: int| 0 <= i < s ==> #[trigger] hay@.subrange(i, i + nlen as int) != needle@,
        decreases hlen - nlen - s + 1,
    {
        let mut j: usize = 0;
        let mut mismatch: bool = false;
        while j < nlen && !mismatch
            invariant
                hlen == hay@.len(),
                nlen == needle@.len(),
                s + nlen <= hlen,
                0 <= j <= nlen,
                !mismatch ==> forall|q: int| 0 <= q < j ==> hay@[s + q] == needle@[q],
                mismatch ==> (j < nlen && hay@[s + j as int] != needle@[j as int]),
            decreases nlen - j + (if mismatch {
                0int
            } else {
                1int
            }),
        {
            if hay[s + j] != needle[j] {
                mismatch = true;
            } else {
                j = j + 1;
            }
        }
        if !mismatch {
            proof {
                assert(hay@.subrange(s as int, s + nlen as int) =~= needle@);
            }
            return true;
        }
        proof {
            let sub = hay@.subrange(s as int, s + nlen as int);
            assert(sub[j as int] == hay@[s + j as int]);
            assert(sub != needle@);
        }
        s = s + 1;
    }
    proof {
        assert forall|i: int| !(0 <= i && i + needle@.len() <= hay@.len() && #[trigger] hay@.subrange(
            i,
            i + needle@.len(),
        ) == needle@) by {
            if 0 <= i && i + needle@.len() <= hay@.len() {
                assert(i < s);
            }
        }
    }
    false
}

/// Tests a decoded, lowercased file-path text against the three
/// fallback-loader markers.
pub fn is_marker_text(text: &Vec<u8>) -> (r: bool)
    ensures
        r == spec_is_marker(text@),
{
    let m_x64: Vec<u8> = vec![
        92u8, 101u8, 102u8, 105u8, 92u8, 98u8, 111u8, 111u8, 116u8, 92u8, 98u8, 111u8, 111u8, 116u8,
        120u8, 54u8, 52u8, 46u8, 101u8, 102u8, 105u8,
    ];
    let m_ia: Vec<u8> = vec![
        92u8, 101u8, 102u8, 105u8, 92u8, 98u8, 111u8, 111u8, 116u8, 92u8, 98u8, 111u8, 111u8, 116u8,
        105u8, 97u8, 51u8, 50u8, 46u8, 101u8, 102u8, 105u8,
    ];
    let m_aa64: Vec<u8> = vec![
        92u8, 101u8, 102u8, 105u8, 92u8, 98u8, 111u8, 111u8, 116u8, 92u8, 98u8, 111u8, 111u8, 116u8,
        97u8, 97u8, 54u8, 52u8, 46u8, 101u8, 102u8, 105u8,
    ];
    proof {
        assert(m_x64@ =~= marker_x64());
        assert(m_ia@ =~= marker_ia());
        assert(m_aa64@ =~= marker_aa64());
    }
    contains_bytes(text, &m_x64) || contains_bytes(text, &m_ia) || contains_bytes(text, &m_aa64)
}

/// ASCII lowercasing of a byte vector.
fn lower_bytes(bs: &Vec<u8>) -> (r: Vec<u8>)
    ensures
        r@ == to_lower(bs@),
{
    let mut out: Vec<u8> = Vec::new();
    let mut i: usize = 0;
    let n: usize = bs.len();
    while i < n
        invariant
            n == bs@.len(),
            0 <= i <= n,
            out@.len() == i,
            forall|j: int| 0 <= j < i ==> out@[j] == lower_byte(bs@[j]),
        decreases n - i,
    {
        let b: u8 = bs[i];
        if 65 <= b && b <= 90 {
            out.push(b + 32);
        } else {
            out.push(b);
        }
        i = i + 1;
    }
    proof {
        assert(out@ =~= to_lower(bs@));
    }
    out
}

/// The textual name of a non-file node's type tag.
fn device_type_name(t: u8) -> (r: Vec<u8>)
    ensures
        r@ == spec_type_name(t),
        forall|i: int| 0 <= i < r@.len() ==> r@[i] < 0x80,
{
    let r: Vec<u8> = if t == 0x01 {
        vec![72u8, 97u8, 114u8, 100u8, 119u8, 97u8, 114u8, 101u8]
    } else if t == 0x02 {
        vec![65u8, 99u8, 112u8, 105u8]
    } else if t == 0x03 {
        vec![77u8, 101u8, 115u8, 115u8, 97u8, 103u8, 105u8, 110u8, 103u8]
    } else if t == 0x04 {
        vec![77u8, 101u8, 100u8, 105u8, 97u8]
    } else if t == 0x05 {
        vec![66u8, 105u8, 111u8, 115u8, 66u8, 111u8, 111u8, 116u8, 83u8, 112u8, 101u8, 99u8]
    } else {
        let hi: u8 = t / 16;
        let lo: u8 = t % 16;
        let mut v: Vec<u8> = vec![85u8, 110u8, 107u8, 110u8, 111u8, 119u8, 110u8, 40u8, 48u8, 120u8];
        v.push(if hi < 10 {
            48 + hi
        } else {
            55 + hi
        });
        v.push(if lo < 10 {
            48 + lo
        } else {
            55 + lo
        });
        v.push(41u8);
        proof {
            assert(v@ =~= spec_type_name(t));
        }
        v
    };
    proof {
        assert(r@ =~= spec_type_name(t));
    }
    r
}

/// Walks a device-path region and returns the readable path segments of
/// its nodes, in order, together with the default-candidate flag decided
/// by the last file-path node (false when there is none).
pub fn walk_device_path(dp: &[u8]) -> (r: (Vec<String>, bool))
    ensures
        r.0@.len() == spec_segments(dp@).len(),
        forall|i: int|
            0 <= i < r.0@.len() ==> r.0@[i]@ == chars_of(#[trigger] spec_segments(dp@)[i]),
        r.1 == spec_default_flag(dp@, false),
{
    let n: usize = dp.len();
    let mut segs: Vec<String> = Vec::new();
    let ghost mut done: Seq<Seq<u8>> = Seq::empty();
    let mut dd: bool = false;
    let mut off: usize = 0;
    let mut stop: bool = false;
    proof {
        assert(dp@.skip(0) =~= dp@);
    }
    while !stop
        invariant
            n == dp@.len(),
            0 <= off <= n,
            segs@.len() == done.len(),
            forall|i: int| 0 <= i < done.len() ==> segs@[i]@ == chars_of(#[trigger] done[i]),
            spec_segments(dp@) == done + spec_segments(dp@.skip(off as int)),
            spec_default_flag(dp@, false) == spec_default_flag(dp@.skip(off as int), dd),
            stop ==> !has_node(dp@.skip(off as int)),
        decreases n - off + (if stop {
            0int
        } else {
            1int
        }),
    {
        let ghost rest = dp@.skip(off as int);
        if n - off < 4 {
            stop = true;
        } else {
            let t: u8 = dp[off];
            let st: u8 = dp[off + 1];
            let l: usize = (dp[off + 2] as usize) + 256 * (dp[off + 3] as usize);
            proof {
                assert(rest[0] == dp@[off as int]);
                assert(rest[1] == dp@[off as int + 1]);
                assert(rest[2] == dp@[off as int + 2]);
                assert(rest[3] == dp@[off as int + 3]);
                assert(node_len(rest) == l);
            }
            if t == 0x7F || l < 4 || l > n - off {
                stop = true;
            } else {
                assert(has_node(rest));
                let text: Vec<u8> = if t == 0x04 && st == 0x04 {
                    let data: &[u8] = &dp[off + 4..off + l];
                    proof {
                        assert(data@ =~= rest.subrange(4, l as int));
                    }
                    let (decoded, _consumed) = decode_utf16le(data);
                    let lowered = lower_bytes(&decoded);
                    proof {
                        assert(lowered@ == spec_node_text(rest));
                    }
                    lowered
                } else {
                    let name = device_type_name(t);
                    proof {
                        assert(!is_file_node(rest));
                        assert(name@ == spec_node_text(rest));
                    }
                    name
                };
                proof {
                    assert(forall|i: int| 0 <= i < text@.len() ==> text@[i] < 0x80) by {
                        crate::codec::lemma_decode_ascii(
                            spec_before_nul(spec_units(rest.subrange(4, l as int))),
                        );
                    }
                }
                let is_file: bool = t == 0x04 && st == 0x04;
                if is_file {
                    dd = !is_marker_text(&text);
                }
                let s = ascii_bytes_to_string(&text);
                segs.push(s);
                proof {
                    done = done + seq![text@];
                    assert(rest.skip(l as int) =~= dp@.skip(off as int + l as int));
                    assert(spec_segments(rest) == seq![spec_node_text(rest)] + spec_segments(
                        dp@.skip(off as int + l as int),
                    ));
                    assert(done + spec_segments(dp@.skip(off as int + l as int))
                        =~= (done.drop_last() + spec_segments(rest)));
                }
                off = off + l;
            }
        }
    }
    proof {
        assert(spec_segments(dp@.skip(off as int)) =~= Seq::<Seq<u8>>::empty());
        assert(done =~= spec_segments(dp@));
    }
    (segs, dd)
}

} // verus!
