use vstd::prelude::*;

use crate::error::{FormatFailure, WimError};
use crate::text::chars_of;

verus! {

/// The code points that UTF-16 code units `u` encode, or `None` where a
/// surrogate is unpaired.
pub open spec fn utf16_scalars(u: Seq<u16>) -> Option<Seq<u32>>
    decreases u.len(),
{
    if u.len() == 0 {
        Some(Seq::empty())
    } else if u[0] < 0xD800 || u[0] >= 0xE000 {
        match utf16_scalars(u.drop_first()) {
            Some(rest) => Some(seq![u[0] as u32] + rest),
            None => None,
        }
    } else if u[0] < 0xDC00 && u.len() >= 2 && 0xDC00 <= u[1] && u[1] < 0xE000 {
        match utf16_scalars(u.subrange(2, u.len() as int)) {
            Some(rest) => Some(
                seq![(0x10000 + (u[0] - 0xD800) * 0x400 + (u[1] - 0xDC00)) as u32] + rest,
            ),
            None => None,
        }
    } else {
        None
    }
}

/// The code point of each character.
pub open spec fn scalars_of(s: Seq<char>) -> Seq<u32> {
    s.map_values(|c: char| c as u32)
}

/// The 16-bit little-endian code units that bytes `b` hold, in pairs.
pub open spec fn units_of(b: Seq<u8>) -> Seq<u16> {
    Seq::new(b.len() / 2, |i: int| (b[2 * i] as int + 256 * b[2 * i + 1] as int) as u16)
}

/// Relies on `String::from_utf16`: decodes UTF-16 and fails on invalid data.
#[verifier::external_body]
fn from_utf16(u: &[u16]) -> (r: Option<String>)
    ensures
        match r {
            Some(s) => utf16_scalars(u@) == Some(scalars_of(s@)),
            None => utf16_scalars(u@) is None,
        },
{
    String::from_utf16(u).ok()
}

/// The bytes open with the little-endian byte-order mark.
pub open spec fn has_bom(b: Seq<u8>) -> bool {
    b.len() >= 2 && b[0] == 0xFF && b[1] == 0xFE
}

/// How decoding the XML resource bytes `b` turns out: the code points of the
/// text after the byte-order mark, or the failure.
pub open spec fn xml_text_outcome(b: Seq<u8>) -> Result<Seq<u32>, WimError> {
    if b.len() < 2 {
        Err(WimError::Format(FormatFailure::XmlTooShort))
    } else if !has_bom(b) {
        Err(WimError::Format(FormatFailure::InvalidBom))
    } else if (b.len() - 2) % 2 != 0 {
        Err(WimError::Format(FormatFailure::OddUtf16Length))
    } else {
        match utf16_scalars(units_of(b.subrange(2, b.len() as int))) {
            Some(s) => Ok(s),
            None => Err(WimError::Decode),
        }
    }
}

/// Checks the byte-order mark of the XML resource bytes and decodes the UTF-16
/// text that follows it.
pub fn decode_xml_text(b: &[u8]) -> (r: Result<Vec<char>, WimError>)
    ensures
        match xml_text_outcome(b@) {
            Ok(s) => r is Ok && scalars_of(r->Ok_0@) == s,
            Err(e) => r == Err::<Vec<char>, WimError>(e),
        },
{
    let n = b.len();
    if n < 2 {
        return Err(WimError::Format(FormatFailure::XmlTooShort));
    }
    if b[0] != 0xFF || b[1] != 0xFE {
        return Err(WimError::Format(FormatFailure::InvalidBom));
    }
    if (n - 2) % 2 != 0 {
        return Err(WimError::Format(FormatFailure::OddUtf16Length));
    }
    let ghost body = b@.subrange(2, n as int);
    let count = (n - 2) / 2;
    let mut units: Vec<u16> = Vec::new();
    let mut i: usize = 0;
    while i < count
        invariant
            i <= count,
            count == (n - 2) / 2,
            n == b@.len(),
            n >= 2,
            body == b@.subrange(2, n as int),
            units@ == units_of(body).subrange(0, i as int),
        decreases count - i,
    {
        let lo = b[2 + 2 * i];
        let hi = b[3 + 2 * i];
        units.push((lo as u16) + 256 * (hi as u16));
        assert(units@ =~= units_of(body).subrange(0, i + 1));
        i = i + 1;
    }
    assert(units@ =~= units_of(body));
    match from_utf16(units.as_slice()) {
        Some(s) => Ok(chars_of(s.as_str())),
        None => Err(WimError::Decode),
    }
}

} // verus!
