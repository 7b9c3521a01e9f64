//! Packed record identifiers.
//!
//! A file reference is a 64-bit value: the low 48 bits index an MFT slot,
//! the high 16 bits carry the generation the slot had when the reference
//! was made.  A reference is valid only while its sequence number matches
//! the slot's current one; a mismatch marks a stale reference to a
//! deleted or reused record.
use crate::flat::le_value;
use crate::flat::Flat;
use crate::flat::FlatBase;
use crate::flat::FlatDataImpl;
use crate::flat::FlatDataImplMut;
use vstd::prelude::*;

verus! {

/// One more than the largest record number a reference can hold: the
/// low 48 bits are the slot index.
pub const RECORD_NUMBER_LIMIT: u64 = 0x1_0000_0000_0000;

/// How a record number and a sequence number pack into one word.
pub open spec fn pack_reference(record: u64, sequence: u16) -> u64 {
    record | ((sequence as u64) << 48)
}

/// A packed 48-bit record number plus 16-bit sequence number.
#[derive(Clone, Copy, Debug, PartialEq, Eq, Structural)]
pub struct FileReference {
    raw: u64,
}

impl FileReference {
    /// The packed word itself.
    pub closed spec fn raw_spec(self) -> u64 {
        self.raw
    }

    /// The low 48 bits: the slot index.
    pub open spec fn record_number_spec(self) -> u64 {
        self.raw_spec() & 0xFFFF_FFFF_FFFF
    }

    /// The high 16 bits: the generation counter.
    pub open spec fn sequence_number_spec(self) -> u16 {
        (self.raw_spec() >> 48) as u16
    }

    /// Packs a record number and a sequence number.
    pub fn new(record: u64, sequence: u16) -> (r: FileReference)
        requires
            record < RECORD_NUMBER_LIMIT,
        ensures
            r.raw_spec() == pack_reference(record, sequence),
            r.record_number_spec() == record,
            r.sequence_number_spec() == sequence,
    {
        proof {
            lemma_reference_roundtrip(record, sequence);
        }
        FileReference { raw: record | ((sequence as u64) << 48) }
    }

    /// Wraps a word read straight off the volume.
    pub fn from_raw(raw: u64) -> (r: FileReference)
        ensures
            r.raw_spec() == raw,
    {
        FileReference { raw }
    }

    pub fn record_number(&self) -> (r: u64)
        ensures
            r == self.record_number_spec(),
            r < RECORD_NUMBER_LIMIT,
    {
        let raw = self.raw;
        proof {
            assert(raw & 0xFFFF_FFFF_FFFF < 0x1_0000_0000_0000u64) by (bit_vector);
        }
        raw & 0xFFFF_FFFF_FFFF
    }

    pub fn sequence_number(&self) -> (r: u16)
        ensures
            r == self.sequence_number_spec(),
    {
        (self.raw >> 48) as u16
    }
}

/// Packing a record number under `2^48` with any sequence number and
/// unpacking gives both numbers back unchanged.
pub proof fn lemma_reference_roundtrip(record: u64, sequence: u16)
    requires
        record < RECORD_NUMBER_LIMIT,
    ensures
        pack_reference(record, sequence) & 0xFFFF_FFFF_FFFF == record,
        (pack_reference(record, sequence) >> 48) as u16 == sequence,
{
    assert((record | ((sequence as u64) << 48)) & 0xFFFF_FFFF_FFFF == record) by (bit_vector)
        requires
            record < 0x1_0000_0000_0000u64,
    ;
    assert(((record | ((sequence as u64) << 48)) >> 48) as u16 == sequence) by (bit_vector)
        requires
            record < 0x1_0000_0000_0000u64,
    ;
}

impl FlatBase for FileReference {
    open spec fn size() -> nat {
        8
    }

    fn flat_size() -> usize {
        8
    }
}

impl FlatDataImpl for FileReference {
    closed spec fn read_spec(s: Seq<u8>) -> FileReference {
        FileReference { raw: le_value(s) as u64 }
    }

    fn load_at(src: &[u8], offset: usize) -> (v: FileReference) {
        let raw = u64::load(src, offset);
        FileReference { raw }
    }
}

impl FlatDataImplMut for FileReference {
    closed spec fn write_spec(self) -> Seq<u8> {
        crate::flat::le_bytes_of(self.raw as nat, 8)
    }

    fn append_to(self, dst: &mut Vec<u8>) {
        proof {
            reveal_with_fuel(crate::flat::pow256, 9);
            crate::flat::lemma_le_bytes_of_len(self.raw as nat, 8);
        }
        crate::flat::store_le(dst, self.raw, 8);
    }
}

/// The reference codec round-trips at the byte level: loading eight
/// bytes and laying them back down reproduces them, and laying a
/// reference down and loading it gives the reference back.
pub proof fn lemma_reference_bytes(s: Seq<u8>, r: FileReference)
    requires
        s.len() == 8,
    ensures
        FileReference::read_spec(s).raw_spec() == le_value(s) as u64,
        r.write_spec() == crate::flat::le_bytes_of(r.raw_spec() as nat, 8),
        FileReference::read_spec(s).write_spec() == s,
        FileReference::read_spec(r.write_spec()) == r,
{
    reveal_with_fuel(crate::flat::pow256, 9);
    crate::flat::lemma_le_value_bound(s);
    crate::flat::lemma_le_bytes_of_le_value(s);
    crate::flat::lemma_le_bytes_of_value(r.raw_spec() as nat, 8);
}

} // verus!
