//! Parsed attribute bodies that carry names.
//!
//! The file-name attribute holds a record's parent reference, its
//! timestamps and sizes, and the name itself as UTF-16 units tagged with
//! a namespace; only names not marked DOS-only are authoritative for
//! display and path purposes.  The attribute-list entry points overflow
//! attributes at the record that actually holds them.
use crate::error::NtfsError;
use crate::flat::le_bytes_of;
use crate::flat::le_value;
use crate::flat::pow256;
use crate::flat::Flat;
use crate::flat::FlatBase;
use crate::flat::FlatDataImpl;
use crate::flat::FlatDataImplMut;
use crate::record::wide_units;
use crate::record::wide_units_of;
use crate::reference::FileReference;
use vstd::prelude::*;

verus! {

/// The namespace tag of names kept only for short-name compatibility;
/// such names never stand for a file's canonical name.
pub const NAMESPACE_DOS: u8 = 2;

/// The fixed front of a file-name attribute's value.
#[derive(Clone, Copy, Debug)]
pub struct FileNameHeader {
    pub parent_reference: FileReference,
    pub c_time: u64,
    pub a_time: u64,
    pub m_time: u64,
    pub r_time: u64,
    pub allocated_size: u64,
    pub real_size: u64,
    pub flags: u32,
    pub reserved: u32,
    pub len: u8,
    pub namespace: u8,
}

impl FlatBase for FileNameHeader {
    open spec fn size() -> nat {
        66
    }

    fn flat_size() -> usize {
        66
    }
}

impl FlatDataImpl for FileNameHeader {
    open spec fn read_spec(s: Seq<u8>) -> FileNameHeader {
        FileNameHeader {
            parent_reference: FileReference::read_spec(s.subrange(0, 8)),
            c_time: le_value(s.subrange(8, 16)) as u64,
            a_time: le_value(s.subrange(16, 24)) as u64,
            m_time: le_value(s.subrange(24, 32)) as u64,
            r_time: le_value(s.subrange(32, 40)) as u64,
            allocated_size: le_value(s.subrange(40, 48)) as u64,
            real_size: le_value(s.subrange(48, 56)) as u64,
            flags: le_value(s.subrange(56, 60)) as u32,
            reserved: le_value(s.subrange(60, 64)) as u32,
            len: le_value(s.subrange(64, 65)) as u8,
            namespace: le_value(s.subrange(65, 66)) as u8,
        }
    }

    fn load_at(src: &[u8], offset: usize) -> (v: FileNameHeader) {
        let _len: usize = src.len();
        let ghost s = src@.subrange(offset as int, offset + 66);
        proof {
            crate::record::lemma_sub_sub(src@, offset as int, 66, 0, 8);
            crate::record::lemma_sub_sub(src@, offset as int, 66, 8, 16);
            crate::record::lemma_sub_sub(src@, offset as int, 66, 16, 24);
            crate::record::lemma_sub_sub(src@, offset as int, 66, 24, 32);
            crate::record::lemma_sub_sub(src@, offset as int, 66, 32, 40);
            crate::record::lemma_sub_sub(src@, offset as int, 66, 40, 48);
            crate::record::lemma_sub_sub(src@, offset as int, 66, 48, 56);
            crate::record::lemma_sub_sub(src@, offset as int, 66, 56, 60);
            crate::record::lemma_sub_sub(src@, offset as int, 66, 60, 64);
            crate::record::lemma_sub_sub(src@, offset as int, 66, 64, 65);
            crate::record::lemma_sub_sub(src@, offset as int, 66, 65, 66);
        }
        FileNameHeader {
            parent_reference: FileReference::load_at(src, offset),
            c_time: u64::load(src, offset + 8),
            a_time: u64::load(src, offset + 16),
            m_time: u64::load(src, offset + 24),
            r_time: u64::load(src, offset + 32),
            allocated_size: u64::load(src, offset + 40),
            real_size: u64::load(src, offset + 48),
            flags: u32::load(src, offset + 56),
            reserved: u32::load(src, offset + 60),
            len: u8::load(src, offset + 64),
            namespace: u8::load(src, offset + 65),
        }
    }
}

impl FlatDataImplMut for FileNameHeader {
    open spec fn write_spec(self) -> Seq<u8> {
        self.parent_reference.write_spec() + le_bytes_of(self.c_time as nat, 8) + le_bytes_of(
            self.a_time as nat,
            8,
        ) + le_bytes_of(self.m_time as nat, 8) + le_bytes_of(self.r_time as nat, 8) + le_bytes_of(
            self.allocated_size as nat,
            8,
        ) + le_bytes_of(self.real_size as nat, 8) + le_bytes_of(self.flags as nat, 4)
            + le_bytes_of(self.reserved as nat, 4) + le_bytes_of(self.len as nat, 1)
            + le_bytes_of(self.namespace as nat, 1)
    }

    fn append_to(self, dst: &mut Vec<u8>) {
        proof {
            reveal_with_fuel(pow256, 9);
            crate::flat::lemma_le_bytes_of_len(self.c_time as nat, 8);
            crate::flat::lemma_le_bytes_of_len(self.a_time as nat, 8);
            crate::flat::lemma_le_bytes_of_len(self.m_time as nat, 8);
            crate::flat::lemma_le_bytes_of_len(self.r_time as nat, 8);
            crate::flat::lemma_le_bytes_of_len(self.allocated_size as nat, 8);
            crate::flat::lemma_le_bytes_of_len(self.real_size as nat, 8);
            crate::flat::lemma_le_bytes_of_len(self.flags as nat, 4);
            crate::flat::lemma_le_bytes_of_len(self.reserved as nat, 4);
            crate::flat::lemma_le_bytes_of_len(self.len as nat, 1);
            crate::flat::lemma_le_bytes_of_len(self.namespace as nat, 1);
        }
        self.parent_reference.append_to(dst);
        crate::flat::store_le(dst, self.c_time, 8);
        crate::flat::store_le(dst, self.a_time, 8);
        crate::flat::store_le(dst, self.m_time, 8);
        crate::flat::store_le(dst, self.r_time, 8);
        crate::flat::store_le(dst, self.allocated_size, 8);
        crate::flat::store_le(dst, self.real_size, 8);
        crate::flat::store_le(dst, self.flags as u64, 4);
        crate::flat::store_le(dst, self.reserved as u64, 4);
        crate::flat::store_le(dst, self.len as u64, 1);
        crate::flat::store_le(dst, self.namespace as u64, 1);
        proof {
            assert(dst@ =~= old(dst)@ + self.write_spec());
        }
    }
}

/// A decoded file-name attribute value: the fixed header and the name's
/// UTF-16 units.
#[derive(Debug)]
pub struct FileName {
    pub header: FileNameHeader,
    pub units: Vec<u16>,
}

impl FileName {
    /// Decodes a file-name value: the fixed header, then exactly the
    /// declared number of UTF-16 units.  A short buffer, or a buffer
    /// whose tail disagrees with the declared name length, is a format
    /// violation.
    pub fn parse(raw: &[u8]) -> (r: Result<FileName, NtfsError>)
        ensures
            r matches Ok(f) ==> ({
                &&& raw@.len() >= 66
                &&& f.header == FileNameHeader::read_spec(raw@.subrange(0, 66))
                &&& (raw@.len() - 66) / 2 == f.header.len
                &&& f.units@ == wide_units(raw@.subrange(66, 66 + 2 * f.header.len))
            }),
            r is Err ==> r == Err::<FileName, NtfsError>(NtfsError::OutOfBounds) && (raw@.len()
                < 66 || (raw@.len() - 66) / 2 != FileNameHeader::read_spec(
                raw@.subrange(0, 66),
            ).len),
    {
        let rlen: usize = raw.len();
        if rlen < 66 {
            return Err(NtfsError::OutOfBounds);
        }
        let header = FileNameHeader::load_at(raw, 0);
        if (rlen - 66) / 2 != header.len as usize {
            return Err(NtfsError::OutOfBounds);
        }
        let units = wide_units_of(raw, 66, header.len as usize);
        Ok(FileName { header, units })
    }

    /// The name decoded to a string; exactly the well-formed UTF-16
    /// names decode.
    pub fn name(&self) -> (r: Result<String, NtfsError>)
        ensures
            r is Ok <==> crate::wide::utf16_wellformed(self.units@),
            r matches Ok(s) ==> s@ == crate::wide::utf16_str_of(self.units@),
            r is Err ==> r == Err::<String, NtfsError>(NtfsError::InvalidName),
    {
        crate::wide::utf16_to_string(self.units.as_slice())
    }
}

impl crate::wide::ToUtf16 for FileName {
    open spec fn wide_view(&self) -> Seq<u16> {
        self.units@
    }

    fn utf16_units(&self) -> (v: Vec<u16>) {
        let mut v: Vec<u16> = Vec::new();
        let mut i: usize = 0;
        let count: usize = self.units.len();
        while i < count
            invariant
                i <= count,
                count == self.units@.len(),
                v@ == self.units@.take(i as int),
            decreases count - i,
        {
            v.push(self.units[i]);
            i = i + 1;
            proof {
                assert(self.units@.take(i - 1).push(self.units@[i - 1]) =~= self.units@.take(
                    i as int,
                ));
            }
        }
        proof {
            assert(self.units@.take(count as int) =~= self.units@);
        }
        v
    }
}

/// One entry of an attribute list: where an overflowed attribute's body
/// actually lives.
#[derive(Clone, Copy, Debug)]
pub struct AttributeListEntry {
    pub ty: u32,
    pub len: u16,
    pub name_len: u8,
    pub name_offset: u8,
    pub starting_vcn: u64,
    pub base_file_reference: FileReference,
    pub attribute_id: u16,
}

impl FlatBase for AttributeListEntry {
    open spec fn size() -> nat {
        26
    }

    fn flat_size() -> usize {
        26
    }
}

impl FlatDataImpl for AttributeListEntry {
    open spec fn read_spec(s: Seq<u8>) -> AttributeListEntry {
        AttributeListEntry {
            ty: le_value(s.subrange(0, 4)) as u32,
            len: le_value(s.subrange(4, 6)) as u16,
            name_len: le_value(s.subrange(6, 7)) as u8,
            name_offset: le_value(s.subrange(7, 8)) as u8,
            starting_vcn: le_value(s.subrange(8, 16)) as u64,
            base_file_reference: FileReference::read_spec(s.subrange(16, 24)),
            attribute_id: le_value(s.subrange(24, 26)) as u16,
        }
    }

    fn load_at(src: &[u8], offset: usize) -> (v: AttributeListEntry) {
        let _len: usize = src.len();
        let ghost s = src@.subrange(offset as int, offset + 26);
        proof {
            crate::record::lemma_sub_sub(src@, offset as int, 26, 0, 4);
            crate::record::lemma_sub_sub(src@, offset as int, 26, 4, 6);
            crate::record::lemma_sub_sub(src@, offset as int, 26, 6, 7);
            crate::record::lemma_sub_sub(src@, offset as int, 26, 7, 8);
            crate::record::lemma_sub_sub(src@, offset as int, 26, 8, 16);
            crate::record::lemma_sub_sub(src@, offset as int, 26, 16, 24);
            crate::record::lemma_sub_sub(src@, offset as int, 26, 24, 26);
        }
        AttributeListEntry {
            ty: u32::load(src, offset),
            len: u16::load(src, offset + 4),
            name_len: u8::load(src, offset + 6),
            name_offset: u8::load(src, offset + 7),
            starting_vcn: u64::load(src, offset + 8),
            base_file_reference: FileReference::load_at(src, offset + 16),
            attribute_id: u16::load(src, offset + 24),
        }
    }
}

} // verus!
