//! Decoding a whole boot-entry variable into a structured [`Entry`].
//!
//! The byte layout, fixed by the UEFI boot-entry format, is: four bytes
//! of attribute flags (ignored here), a 16-bit little-endian length of
//! the trailing device-path region, a null-terminated UTF-16LE
//! description, and then the device-path region itself.  A buffer too
//! short for the fixed header, or whose declared device-path region
//! reaches past the available bytes, is a decode failure — never a
//! panic.

use crate::codec::{
    chars_of, char16_to_string, spec_consumed, spec_description, spec_units,
};
use crate::device_path::{spec_default_flag, spec_segments, walk_device_path};
use crate::ident::{parse_boot_id, spec_boot_id};
use vstd::prelude::*;

verus! {

/// One decoded boot entry.
#[derive(Clone, Debug, PartialEq)]
pub struct Entry {
    /// Numeric id parsed from the variable-name suffix (zero when the
    /// suffix is not hexadecimal).
    pub id: u16,
    /// The four-character variable-name suffix, kept verbatim.
    pub id_string: String,
    /// The decoded, ASCII-only description.
    pub description: String,
    /// One readable segment per device-path node, in node order.
    pub path: Vec<String>,
    /// Whether the entry belongs in the short default menu.
    pub display_default: bool,
}

/// The mathematical image of an [`Entry`].
#[verifier::ext_equal]
pub ghost struct EntryModel {
    pub id: u16,
    pub id_string: Seq<char>,
    pub description: Seq<char>,
    pub path: Seq<Seq<char>>,
    pub display_default: bool,
}

impl View for Entry {
    type V = EntryModel;

    open spec fn view(&self) -> EntryModel {
        EntryModel {
            id: self.id,
            id_string: self.id_string@,
            description: self.description@,
            path: Seq::new(self.path@.len(), |i: int| self.path@[i]@),
            display_default: self.display_default,
        }
    }
}

/// Why a buffer failed to decode.
#[derive(Clone, Copy, Debug, PartialEq, Eq, Structural)]
pub enum DecodeError {
    /// Fewer than the six fixed header bytes are present.
    TruncatedHeader,
    /// The declared device-path region reaches past the buffer.
    DevicePathOutOfRange,
}

/// The declared length of the device-path region (header bytes 4 and 5,
/// little-endian).
pub open spec fn spec_device_path_len(buf: Seq<u8>) -> int {
    buf[4] + 256 * buf[5]
}

/// Where the device-path region starts: after the six header bytes and
/// the scanned description.
pub open spec fn spec_device_path_start(buf: Seq<u8>) -> int {
    6 + spec_consumed(spec_units(buf.skip(6)))
}

/// The bytes of the device-path region.
pub open spec fn spec_device_path_region(buf: Seq<u8>) -> Seq<u8> {
    buf.subrange(
        spec_device_path_start(buf),
        spec_device_path_start(buf) + spec_device_path_len(buf),
    )
}

/// The entry decoded from a well-formed buffer.
pub open spec fn spec_entry(name: Seq<char>, buf: Seq<u8>) -> EntryModel {
    let dp = spec_device_path_region(buf);
    EntryModel {
        id: spec_boot_id(name.skip(4)),
        id_string: name.skip(4),
        description: spec_description(buf.skip(6)),
        path: Seq::new(spec_segments(dp).len(), |i: int| chars_of(spec_segments(dp)[i])),
        display_default: spec_default_flag(dp, false),
    }
}

/// What decoding a variable yields: the entry, or the error that names
/// exactly why the buffer was rejected.
pub open spec fn spec_decode_entry(name: Seq<char>, buf: Seq<u8>) -> Result<
    EntryModel,
    DecodeError,
> {
    if buf.len() < 6 {
        Err(DecodeError::TruncatedHeader)
    } else if spec_device_path_start(buf) + spec_device_path_len(buf) > buf.len() {
        Err(DecodeError::DevicePathOutOfRange)
    } else {
        Ok(spec_entry(name, buf))
    }
}

impl Entry {
    /// Decodes the boot entry stored in variable `var` with raw content
    /// `buf`.  Succeeds on every buffer that holds the fixed header and
    /// whose declared device-path region lies inside the buffer, and
    /// returns the error naming the defect otherwise.
    pub fn new(var: &str, buf: &[u8]) -> (r: Result<Entry, DecodeError>)
        requires
            var@.len() >= 4,
            buf@.len() + 2 <= usize::MAX,
        ensures
            ({
                let sr = spec_decode_entry(var@, buf@);
                match r {
                    Ok(e) => sr == Ok::<EntryModel, DecodeError>(e@),
                    Err(x) => sr == Err::<EntryModel, DecodeError>(x),
                }
            }),
    {
        let blen: usize = buf.len();
        if blen < 6 {
            return Err(DecodeError::TruncatedHeader);
        }
        let dp_len: usize = (buf[4] as usize) + 256 * (buf[5] as usize);
        let desc_region: &[u8] = &buf[6..blen];
        proof {
            assert(desc_region@ =~= buf@.skip(6));
            crate::codec::lemma_consumed_bound(spec_units(buf@.skip(6)));
        }
        let (description, consumed) = char16_to_string(desc_region);
        let dp_start: usize = 6 + consumed;
        if dp_start > blen || dp_len > blen - dp_start {
            return Err(DecodeError::DevicePathOutOfRange);
        }
        let dp_region: &[u8] = &buf[dp_start..dp_start + dp_len];
        proof {
            assert(dp_region@ =~= spec_device_path_region(buf@));
        }
        let (path, display_default) = walk_device_path(dp_region);
        let (id, id_string) = parse_boot_id(var);
        let e = Entry { id, id_string, description, path, display_default };
        proof {
            let ghost dp = spec_device_path_region(buf@);
            assert forall|i: int| 0 <= i < e.path@.len() implies e@.path[i] == chars_of(
                #[trigger] spec_segments(dp)[i],
            ) by {}
            assert(e@ =~~= spec_entry(var@, buf@));
        }
        Ok(e)
    }

    /// The one-line rendering used by the advanced view: the description,
    /// then the path segments joined by single spaces.
    pub fn display_line(&self) -> (r: String)
        ensures
            r@ == spec_display_line(self@),
    {
        let mut joined: String = String::new();
        let n: usize = self.path.len();
        let mut i: usize = 0;
        proof {
            assert(self@.path.take(0) =~= Seq::<Seq<char>>::empty());
        }
        while i < n
            invariant
                n == self.path@.len(),
                self@.path.len() == n,
                0 <= i <= n,
                forall|j: int| 0 <= j < n ==> self@.path[j] == #[trigger] self.path@[j]@,
                joined@ == spec_join_path(self@.path.take(i as int)),
            decreases n - i,
        {
            if i > 0 {
                joined.append(" ");
            }
            joined.append(self.path[i].as_str());
            proof {
                reveal_strlit(" ");
                assert(self@.path.take(i as int + 1).drop_last() =~= self@.path.take(i as int));
                assert(self@.path.take(i as int + 1).last() == self@.path[i as int]);
                if i > 0 {
                    assert(" "@ =~= seq![' ']);
                    assert(joined@ =~= spec_join_path(self@.path.take(i as int + 1)));
                } else {
                    assert(joined@ =~= spec_join_path(self@.path.take(1)));
                }
            }
            i = i + 1;
        }
        proof {
            assert(self@.path.take(n as int) =~= self@.path);
        }
        let mut out: String = self.description.clone();
        out.append(", at: '");
        out.append(joined.as_str());
        out.append("'");
        proof {
            assert(out@ =~= spec_display_line(self@));
        }
        out
    }
}

/// The path segments joined by single spaces.
pub open spec fn spec_join_path(path: Seq<Seq<char>>) -> Seq<char>
    decreases path.len(),
{
    if path.len() == 0 {
        Seq::empty()
    } else if path.len() == 1 {
        path[0]
    } else {
        spec_join_path(path.drop_last()) + seq![' '] + path.last()
    }
}

/// The advanced-view line of an entry: description, then the joined path
/// in quotes.
pub open spec fn spec_display_line(e: EntryModel) -> Seq<char> {
    e.description + ", at: '"@ + spec_join_path(e.path) + "'"@
}

/// Decoding is a function of the variable name and the raw bytes alone:
/// two decodings of the same input yield equal results, entry for entry
/// and error for error.
pub proof fn lemma_decode_idempotent(
    name: Seq<char>,
    buf: Seq<u8>,
    r1: Result<EntryModel, DecodeError>,
    r2: Result<EntryModel, DecodeError>,
)
    requires
        r1 == spec_decode_entry(name, buf),
        r2 == spec_decode_entry(name, buf),
    ensures
        r1 == r2,
{
}

} // verus!
