//! Boot-variable names and their numeric ids.
//!
//! A boot entry lives in a firmware variable whose name is `Boot` followed
//! by four hexadecimal digits.  The digits, read as a base-16 number, are
//! the entry's numeric id; the textual suffix is kept verbatim as well,
//! and a suffix that fails to parse leaves the numeric id at zero.

use vstd::prelude::*;

verus! {

pub open spec fn is_hex_digit(c: char) -> bool {
    let u = c as u32;
    (48 <= u && u <= 57) || (65 <= u && u <= 70) || (97 <= u && u <= 102)
}

/// The numeric value of one hexadecimal digit.
pub open spec fn hex_val(c: char) -> int {
    let u = c as u32;
    if 48 <= u && u <= 57 {
        u - 48
    } else if 65 <= u && u <= 70 {
        u - 55
    } else {
        u - 87
    }
}

/// The base-16 value of a digit string, most significant digit first.
pub open spec fn spec_hex_value(s: Seq<char>) -> int
    decreases s.len(),
{
    if s.len() == 0 {
        0
    } else {
        spec_hex_value(s.drop_last()) * 16 + hex_val(s.last())
    }
}

pub open spec fn spec_all_hex(s: Seq<char>) -> bool {
    forall|i: int| 0 <= i < s.len() ==> is_hex_digit(s[i])
}

/// The digit run of a suffix: everything after one optional leading
/// plus sign.
pub open spec fn spec_after_sign(s: Seq<char>) -> Seq<char> {
    if s.len() >= 1 && s[0] == '+' {
        s.drop_first()
    } else {
        s
    }
}

/// Base-16 parsing of a 16-bit number, as `u16::from_str_radix` reads
/// it: one optional leading plus sign, then a non-empty run of
/// hexadecimal digits whose value fits in 16 bits.
pub open spec fn spec_parse_hex_u16(s: Seq<char>) -> Option<u16> {
    let d = spec_after_sign(s);
    if d.len() >= 1 && spec_all_hex(d) && spec_hex_value(d) <= 0xFFFF {
        Some(spec_hex_value(d) as u16)
    } else {
        None
    }
}

/// The numeric id carried by a variable-name suffix: its base-16 value,
/// or zero when the suffix does not parse.
pub open spec fn spec_boot_id(suffix: Seq<char>) -> u16 {
    match spec_parse_hex_u16(suffix) {
        Some(v) => v,
        None => 0,
    }
}

/// The shape of a boot-entry variable name: the four letters `Boot`
/// followed by exactly four hexadecimal digits.
pub open spec fn spec_is_boot_name(s: Seq<char>) -> bool {
    s.len() == 8 && s[0] == 'B' && s[1] == 'o' && s[2] == 'o' && s[3] == 't' && (forall|i: int|
        4 <= i < 8 ==> is_hex_digit(s[i]))
}

proof fn lemma_hex_value_nonneg(s: Seq<char>)
    requires
        spec_all_hex(s),
    ensures
        spec_hex_value(s) >= 0,
    decreases s.len(),
{
    if s.len() > 0 {
        assert(spec_all_hex(s.drop_last()));
        lemma_hex_value_nonneg(s.drop_last());
    }
}

/// The value of a digit string is at least the value of any of its
/// prefixes: appending digits never shrinks the number.
proof fn lemma_hex_value_mono(s: Seq<char>, k: int)
    requires
        spec_all_hex(s),
        0 <= k <= s.len(),
    ensures
        spec_hex_value(s.take(k)) <= spec_hex_value(s),
    decreases s.len() - k,
{
    if k < s.len() {
        lemma_hex_value_mono(s, k + 1);
        assert(s.take(k + 1).drop_last() =~= s.take(k));
        assert(s.take(k + 1).last() == s[k]);
        assert(spec_all_hex(s.take(k)));
        lemma_hex_value_nonneg(s.take(k));
    } else {
        assert(s.take(k) =~= s);
    }
}

/// Parses a base-16 number of at most 16 bits the way
/// `u16::from_str_radix` does: one optional leading plus sign, then
/// upper- or lower-case digits; `None` on an empty digit run, any other
/// non-digit, or a value over `0xFFFF`.
pub fn parse_hex_u16(s: &str) -> (r: Option<u16>)
    ensures
        r == spec_parse_hex_u16(s@),
{
    let len: usize = s.unicode_len();
    let start: usize = if len >= 1 && s.get_char(0) == '+' {
        1
    } else {
        0
    };
    let ghost d = spec_after_sign(s@);
    proof {
        assert(d =~= s@.skip(start as int));
    }
    if len == start {
        return None;
    }
    let mut acc: u32 = 0;
    let mut i: usize = start;
    proof {
        assert(d.take(0) =~= Seq::<char>::empty());
    }
    while i < len
        invariant
            len == s@.len(),
            start <= i <= len,
            d == spec_after_sign(s@),
            d == s@.skip(start as int),
            d.len() == len - start,
            acc <= 0xFFFF,
            acc == spec_hex_value(d.take(i - start)),
            spec_all_hex(d.take(i - start)),
        decreases len - i,
    {
        let c: char = s.get_char(i);
        proof {
            assert(c == d[i - start]);
        }
        let u: u32 = c as u32;
        let dv: u32;
        if 48 <= u && u <= 57 {
            dv = u - 48;
        } else if 65 <= u && u <= 70 {
            dv = u - 55;
        } else if 97 <= u && u <= 102 {
            dv = u - 87;
        } else {
            proof {
                assert(!is_hex_digit(d[i - start]));
                assert(!spec_all_hex(d));
            }
            return None;
        }
        let next: u32 = acc * 16 + dv;
        proof {
            assert(d.take(i - start + 1).drop_last() =~= d.take(i - start));
            assert(d.take(i - start + 1).last() == d[i - start]);
            assert(next == spec_hex_value(d.take(i - start + 1)));
            assert(spec_all_hex(d.take(i - start + 1)));
        }
        if next > 0xFFFF {
            proof {
                if spec_all_hex(d) {
                    lemma_hex_value_mono(d, i - start + 1);
                    assert(spec_hex_value(d) > 0xFFFF);
                }
                assert(spec_parse_hex_u16(s@) is None);
            }
            return None;
        }
        acc = next;
        i = i + 1;
    }
    proof {
        assert(d.take((len - start) as int) =~= d);
    }
    Some(acc as u16)
}

/// Splits a variable name after the fixed four-letter prefix and parses
/// the remainder as the entry's numeric id; the textual suffix is
/// returned verbatim, and a suffix that does not parse yields id zero.
pub fn parse_boot_id(name: &str) -> (r: (u16, String))
    requires
        name@.len() >= 4,
    ensures
        r.0 == spec_boot_id(name@.skip(4)),
        r.1@ == name@.skip(4),
{
    let len: usize = name.unicode_len();
    let suffix: &str = name.substring_char(4, len);
    proof {
        assert(name@.subrange(4, len as int) =~= name@.skip(4));
    }
    let id: u16 = match parse_hex_u16(suffix) {
        Some(v) => v,
        None => 0,
    };
    (id, String::from_str(suffix))
}

/// Decides whether a variable name has the boot-entry shape `Boot` plus
/// four hexadecimal digits.
pub fn is_boot_variable_name(name: &str) -> (r: bool)
    ensures
        r == spec_is_boot_name(name@),
{
    let len: usize = name.unicode_len();
    if len != 8 {
        return false;
    }
    if !(name.get_char(0) == 'B' && name.get_char(1) == 'o' && name.get_char(2) == 'o'
        && name.get_char(3) == 't') {
        return false;
    }
    let mut i: usize = 4;
    while i < 8
        invariant
            name@.len() == 8,
            4 <= i <= 8,
            name@[0] == 'B' && name@[1] == 'o' && name@[2] == 'o' && name@[3] == 't',
            forall|j: int| 4 <= j < i ==> is_hex_digit(name@[j]),
        decreases 8 - i,
    {
        let u: u32 = name.get_char(i) as u32;
        if !((48 <= u && u <= 57) || (65 <= u && u <= 70) || (97 <= u && u <= 102)) {
            return false;
        }
        i = i + 1;
    }
    true
}

} // verus!
