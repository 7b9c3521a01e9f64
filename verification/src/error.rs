//! The error taxonomy of the decoder.
//!
//! Device failures are propagated unchanged from the device, format
//! violations are fatal for the record or attribute being processed, and
//! missing data is an explicit "not found" condition that callers are
//! expected to handle without aborting a whole scan.
use vstd::prelude::*;

verus! {

/// Everything that can go wrong while decoding a volume.
#[derive(Clone, Copy, Debug, PartialEq, Eq, Structural)]
pub enum NtfsError {
    /// The underlying device failed to seek or read.
    Device,
    /// A record did not start with the fixed record signature.
    BadSignature,
    /// An attribute's residency flag was neither resident nor non-resident.
    BadResidency,
    /// A record's allocated size disagreed with the volume's record size.
    RecordSizeMismatch,
    /// A size or offset field pointed outside the bytes that hold it.
    OutOfBounds,
    /// A seek moved outside the mapped extents of a stream.
    SeekOutOfRange,
    /// The device ended before a whole record could be read.
    ShortRead,
    /// The volume geometry given at open is unusable.
    BadGeometry,
    /// The record holds no attribute of the wanted type.
    AttributeNotFound,
    /// A record carries no file-name attribute usable for display.
    NameNotFound,
    /// A stored name was not valid UTF-16.
    InvalidName,
    /// An ancestor chain exceeded the resolution depth bound.
    PathTooDeep,
}

} // verus!
