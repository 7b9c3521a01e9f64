//! UTF-16 conversions.
//!
//! NTFS stores every name as UTF-16 code units.  This module carries
//! values between those units and Rust strings: [`ToUtf16`] turns a
//! value into its units, [`ToWide`] appends the terminator that
//! wide-string consumers expect, and [`utf16_to_string`] decodes units
//! read off a volume.
use crate::error::NtfsError;
use vstd::prelude::*;

verus! {

/// Whether a UTF-16 unit sequence is well formed: every unit in the
/// surrogate range pairs a high surrogate with a low one right after it.
pub open spec fn utf16_wellformed(units: Seq<u16>) -> bool
    decreases units.len(),
{
    if units.len() == 0 {
        true
    } else if units[0] < 0xD800 || units[0] >= 0xE000 {
        utf16_wellformed(units.skip(1))
    } else if units[0] < 0xDC00 {
        units.len() >= 2 && 0xDC00 <= units[1] < 0xE000 && utf16_wellformed(units.skip(2))
    } else {
        false
    }
}

/// The string that a well-formed UTF-16 unit sequence decodes to.
pub uninterp spec fn utf16_str_of(units: Seq<u16>) -> Seq<char>;

/// The UTF-16 unit sequence that a string encodes to.
pub uninterp spec fn utf16_of(s: Seq<char>) -> Seq<u16>;

/// Relies on `String::from_utf16`: decoding is a function of the units
/// alone, and fails exactly on ill-formed UTF-16 — a unit in the
/// surrogate range that does not open a surrogate pair; the error is
/// mapped to this crate's name error.
#[verifier::external_body]
pub(crate) fn utf16_to_string(units: &[u16]) -> (r: Result<String, NtfsError>)
    ensures
        r is Ok <==> utf16_wellformed(units@),
        r matches Ok(s) ==> s@ == utf16_str_of(units@),
        r matches Err(e) ==> e == NtfsError::InvalidName,
{
    match String::from_utf16(units) {
        Ok(s) => Ok(s),
        Err(_) => Err(NtfsError::InvalidName),
    }
}

/// Relies on `str::encode_utf16`: the encoding is a function of the
/// string's characters alone, and an empty string encodes to no units.
#[verifier::external_body]
fn encode_utf16_units(s: &str) -> (r: Vec<u16>)
    ensures
        r@ == utf16_of(s@),
        s@.len() == 0 ==> r@.len() == 0,
{
    s.encode_utf16().collect()
}

/// A value with a UTF-16 rendering.
pub trait ToUtf16 {
    /// The units the value renders to.
    spec fn wide_view(&self) -> Seq<u16>;

    /// Produces the UTF-16 units of the value.
    fn utf16_units(&self) -> (v: Vec<u16>)
        ensures
            v@ == self.wide_view(),
    ;
}

/// A value that can be handed to a consumer of terminated wide strings.
pub trait ToWide: ToUtf16 {
    /// The UTF-16 units of the value followed by one terminating zero.
    fn to_wide(&self) -> (v: Vec<u16>)
        ensures
            v@ == self.wide_view().push(0),
    ;
}

impl ToUtf16 for String {
    open spec fn wide_view(&self) -> Seq<u16> {
        utf16_of(self@)
    }

    fn utf16_units(&self) -> (v: Vec<u16>) {
        encode_utf16_units(self.as_str())
    }
}

impl<T: ToUtf16> ToWide for T {
    fn to_wide(&self) -> (v: Vec<u16>) {
        let mut v = self.utf16_units();
        v.push(0);
        v
    }
}

} // verus!
