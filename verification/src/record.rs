//! MFT record and attribute decoding.
//!
//! One record is a fixed header followed by a packed sequence of
//! attributes.  Each attribute carries its own header with a type code,
//! a total length, a residency flag, an optional UTF-16 name, and either
//! a resident value (bytes inside the attribute itself) or a
//! non-resident one (a data-run list mapping clusters elsewhere on
//! disk).
use crate::error::NtfsError;
use crate::flat::le_bytes_of;
use crate::flat::le_value;
use crate::flat::pow256;
use crate::flat::Flat;
use crate::flat::FlatBase;
use crate::flat::FlatDataImpl;
use crate::flat::FlatDataImplMut;
use crate::reference::FileReference;
use crate::runs::DataRunReader;
use crate::runs::SeekPos;
use vstd::prelude::*;

verus! {

/// The signature every live record opens with: the magic marker.
pub const RECORD_MAGIC: u32 = 0x454c4946;

/// The type code of the file-name attribute.
pub const ATTR_FILE_NAME: u32 = 0x30;

/// The type code of the data attribute.
pub const ATTR_DATA: u32 = 0x80;

/// The UTF-16 code units held in a raw little-endian byte range, two
/// bytes to a unit.
pub open spec fn wide_units(s: Seq<u8>) -> Seq<u16> {
    Seq::new((s.len() / 2) as nat, |i: int| (s[2 * i] + 256 * s[2 * i + 1]) as u16)
}

/// Extracts `count` UTF-16 units found `offset` bytes into `src`.
pub fn wide_units_of(src: &[u8], offset: usize, count: usize) -> (v: Vec<u16>)
    requires
        offset + 2 * count <= src@.len(),
    ensures
        v@ == wide_units(src@.subrange(offset as int, offset + 2 * count)),
{
    let _len: usize = src.len();
    let ghost region = src@.subrange(offset as int, offset + 2 * count);
    let mut units: Vec<u16> = Vec::new();
    let mut i: usize = 0;
    while i < count
        invariant
            i <= count,
            offset + 2 * count <= src@.len(),
            offset + 2 * count <= usize::MAX,
            region == src@.subrange(offset as int, offset + 2 * count),
            units@ == wide_units(region).take(i as int),
        decreases count - i,
    {
        let lo = src[offset + 2 * i];
        let hi = src[offset + 2 * i + 1];
        let unit: u16 = lo as u16 + 256 * (hi as u16);
        units.push(unit);
        i = i + 1;
        proof {
            assert(region[2 * (i - 1)] == src@[offset + 2 * (i - 1)]);
            assert(region[2 * (i - 1) + 1] == src@[offset + 2 * (i - 1) + 1]);
            assert(wide_units(region).take(i - 1).push(wide_units(region)[i - 1]) =~= wide_units(
                region,
            ).take(i as int));
        }
    }
    proof {
        assert(wide_units(region).take(count as int) =~= wide_units(region));
    }
    units
}

/// The fixed front of one MFT record.
#[derive(Clone, Copy, Debug)]
pub struct FileRecordHeader {
    pub magic: u32,
    pub update_sequence_offset: u16,
    pub update_sequence_size: u16,
    pub lsn: u64,
    pub sequence_number: u16,
    pub hard_link_count: u16,
    pub attribute_array_offset: u16,
    pub flags: u16,
    pub real_size: u32,
    pub allocated_size: u32,
    pub base_record: FileReference,
    pub next_attribute_id: u16,
    pub reserved: u16,
    pub number: u32,
}

impl FlatBase for FileRecordHeader {
    open spec fn size() -> nat {
        48
    }

    fn flat_size() -> usize {
        48
    }
}

impl FlatDataImpl for FileRecordHeader {
    open spec fn read_spec(s: Seq<u8>) -> FileRecordHeader {
        FileRecordHeader {
            magic: le_value(s.subrange(0, 4)) as u32,
            update_sequence_offset: le_value(s.subrange(4, 6)) as u16,
            update_sequence_size: le_value(s.subrange(6, 8)) as u16,
            lsn: le_value(s.subrange(8, 16)) as u64,
            sequence_number: le_value(s.subrange(16, 18)) as u16,
            hard_link_count: le_value(s.subrange(18, 20)) as u16,
            attribute_array_offset: le_value(s.subrange(20, 22)) as u16,
            flags: le_value(s.subrange(22, 24)) as u16,
            real_size: le_value(s.subrange(24, 28)) as u32,
            allocated_size: le_value(s.subrange(28, 32)) as u32,
            base_record: FileReference::read_spec(s.subrange(32, 40)),
            next_attribute_id: le_value(s.subrange(40, 42)) as u16,
            reserved: le_value(s.subrange(42, 44)) as u16,
            number: le_value(s.subrange(44, 48)) as u32,
        }
    }

    fn load_at(src: &[u8], offset: usize) -> (v: FileRecordHeader) {
        let _len: usize = src.len();
        let ghost s = src@.subrange(offset as int, offset + 48);
        proof {
            lemma_sub_sub(src@, offset as int, 48, 0, 4);
            lemma_sub_sub(src@, offset as int, 48, 4, 6);
            lemma_sub_sub(src@, offset as int, 48, 6, 8);
            lemma_sub_sub(src@, offset as int, 48, 8, 16);
            lemma_sub_sub(src@, offset as int, 48, 16, 18);
            lemma_sub_sub(src@, offset as int, 48, 18, 20);
            lemma_sub_sub(src@, offset as int, 48, 20, 22);
            lemma_sub_sub(src@, offset as int, 48, 22, 24);
            lemma_sub_sub(src@, offset as int, 48, 24, 28);
            lemma_sub_sub(src@, offset as int, 48, 28, 32);
            lemma_sub_sub(src@, offset as int, 48, 32, 40);
            lemma_sub_sub(src@, offset as int, 48, 40, 42);
            lemma_sub_sub(src@, offset as int, 48, 42, 44);
            lemma_sub_sub(src@, offset as int, 48, 44, 48);
        }
        FileRecordHeader {
            magic: u32::load(src, offset),
            update_sequence_offset: u16::load(src, offset + 4),
            update_sequence_size: u16::load(src, offset + 6),
            lsn: u64::load(src, offset + 8),
            sequence_number: u16::load(src, offset + 16),
            hard_link_count: u16::load(src, offset + 18),
            attribute_array_offset: u16::load(src, offset + 20),
            flags: u16::load(src, offset + 22),
            real_size: u32::load(src, offset + 24),
            allocated_size: u32::load(src, offset + 28),
            base_record: FileReference::load_at(src, offset + 32),
            next_attribute_id: u16::load(src, offset + 40),
            reserved: u16::load(src, offset + 42),
            number: u32::load(src, offset + 44),
        }
    }
}

impl FlatDataImplMut for FileRecordHeader {
    open spec fn write_spec(self) -> Seq<u8> {
        le_bytes_of(self.magic as nat, 4) + le_bytes_of(self.update_sequence_offset as nat, 2)
            + le_bytes_of(self.update_sequence_size as nat, 2) + le_bytes_of(self.lsn as nat, 8)
            + le_bytes_of(self.sequence_number as nat, 2) + le_bytes_of(
            self.hard_link_count as nat,
            2,
        ) + le_bytes_of(self.attribute_array_offset as nat, 2) + le_bytes_of(self.flags as nat, 2)
            + le_bytes_of(self.real_size as nat, 4) + le_bytes_of(self.allocated_size as nat, 4)
            + self.base_record.write_spec() + le_bytes_of(self.next_attribute_id as nat, 2)
            + le_bytes_of(self.reserved as nat, 2) + le_bytes_of(self.number as nat, 4)
    }

    fn append_to(self, dst: &mut Vec<u8>) {
        proof {
            reveal_with_fuel(pow256, 9);
            crate::flat::lemma_le_bytes_of_len(self.magic as nat, 4);
            crate::flat::lemma_le_bytes_of_len(self.update_sequence_offset as nat, 2);
            crate::flat::lemma_le_bytes_of_len(self.update_sequence_size as nat, 2);
            crate::flat::lemma_le_bytes_of_len(self.lsn as nat, 8);
            crate::flat::lemma_le_bytes_of_len(self.sequence_number as nat, 2);
            crate::flat::lemma_le_bytes_of_len(self.hard_link_count as nat, 2);
            crate::flat::lemma_le_bytes_of_len(self.attribute_array_offset as nat, 2);
            crate::flat::lemma_le_bytes_of_len(self.flags as nat, 2);
            crate::flat::lemma_le_bytes_of_len(self.real_size as nat, 4);
            crate::flat::lemma_le_bytes_of_len(self.allocated_size as nat, 4);
            crate::flat::lemma_le_bytes_of_len(self.next_attribute_id as nat, 2);
            crate::flat::lemma_le_bytes_of_len(self.reserved as nat, 2);
            crate::flat::lemma_le_bytes_of_len(self.number as nat, 4);
        }
        crate::flat::store_le(dst, self.magic as u64, 4);
        crate::flat::store_le(dst, self.update_sequence_offset as u64, 2);
        crate::flat::store_le(dst, self.update_sequence_size as u64, 2);
        crate::flat::store_le(dst, self.lsn, 8);
        crate::flat::store_le(dst, self.sequence_number as u64, 2);
        crate::flat::store_le(dst, self.hard_link_count as u64, 2);
        crate::flat::store_le(dst, self.attribute_array_offset as u64, 2);
        crate::flat::store_le(dst, self.flags as u64, 2);
        crate::flat::store_le(dst, self.real_size as u64, 4);
        crate::flat::store_le(dst, self.allocated_size as u64, 4);
        self.base_record.append_to(dst);
        crate::flat::store_le(dst, self.next_attribute_id as u64, 2);
        crate::flat::store_le(dst, self.reserved as u64, 2);
        crate::flat::store_le(dst, self.number as u64, 4);
        proof {
            assert(dst@ =~= old(dst)@ + self.write_spec());
        }
    }
}

/// Round trip: decoding copies nothing but the record's own bytes.  An
/// attribute handed out for a record parsed from `buf` carries, by the
/// contracts of `FileRecord::parse`, `FileRecord::attributes` and
/// `Attribute::parse`, the bytes `buf.skip(attrs_offset).subrange(pos,
/// pos + attr_len)`; re-slicing the original buffer at the same flat
/// offsets gives byte-identical content, resident values included.
pub proof fn lemma_attribute_bytes_are_record_bytes(
    buf: Seq<u8>,
    attrs_offset: int,
    pos: int,
    attr_len: int,
    value_offset: int,
    value_len: int,
)
    requires
        0 <= attrs_offset <= buf.len(),
        0 <= pos,
        0 <= attr_len,
        pos + attr_len <= buf.len() - attrs_offset,
        0 <= value_offset,
        0 <= value_len,
        value_offset + value_len <= attr_len,
    ensures
        buf.skip(attrs_offset).subrange(pos, pos + attr_len) == buf.subrange(
            attrs_offset + pos,
            attrs_offset + pos + attr_len,
        ),
        buf.skip(attrs_offset).subrange(pos, pos + attr_len).subrange(
            value_offset,
            value_offset + value_len,
        ) == buf.subrange(
            attrs_offset + pos + value_offset,
            attrs_offset + pos + value_offset + value_len,
        ),
{
    assert(buf.skip(attrs_offset).subrange(pos, pos + attr_len) =~= buf.subrange(
        attrs_offset + pos,
        attrs_offset + pos + attr_len,
    ));
    assert(buf.subrange(attrs_offset + pos, attrs_offset + pos + attr_len).subrange(
        value_offset,
        value_offset + value_len,
    ) =~= buf.subrange(
        attrs_offset + pos + value_offset,
        attrs_offset + pos + value_offset + value_len,
    ));
}

/// A subrange of a subrange is the inner range of the whole.
pub proof fn lemma_sub_sub(s: Seq<u8>, offset: int, size: int, a: int, b: int)
    requires
        0 <= offset,
        0 <= a <= b <= size,
        offset + size <= s.len(),
    ensures
        s.subrange(offset, offset + size).subrange(a, b) == s.subrange(offset + a, offset + b),
{
    assert(s.subrange(offset, offset + size).subrange(a, b) =~= s.subrange(
        offset + a,
        offset + b,
    ));
}

/// The fixed front of one attribute.
#[derive(Clone, Copy, Debug)]
pub struct AttributeHeader {
    pub ty: u32,
    pub len: u16,
    pub reserved: u16,
    pub non_resident: u8,
    pub name_len: u8,
    pub name_offset: u16,
    pub flags: u16,
    pub id: u16,
}

impl FlatBase for AttributeHeader {
    open spec fn size() -> nat {
        16
    }

    fn flat_size() -> usize {
        16
    }
}

impl FlatDataImpl for AttributeHeader {
    open spec fn read_spec(s: Seq<u8>) -> AttributeHeader {
        AttributeHeader {
            ty: le_value(s.subrange(0, 4)) as u32,
            len: le_value(s.subrange(4, 6)) as u16,
            reserved: le_value(s.subrange(6, 8)) as u16,
            non_resident: le_value(s.subrange(8, 9)) as u8,
            name_len: le_value(s.subrange(9, 10)) as u8,
            name_offset: le_value(s.subrange(10, 12)) as u16,
            flags: le_value(s.subrange(12, 14)) as u16,
            id: le_value(s.subrange(14, 16)) as u16,
        }
    }

    fn load_at(src: &[u8], offset: usize) -> (v: AttributeHeader) {
        let _len: usize = src.len();
        let ghost s = src@.subrange(offset as int, offset + 16);
        proof {
            lemma_sub_sub(src@, offset as int, 16, 0, 4);
            lemma_sub_sub(src@, offset as int, 16, 4, 6);
            lemma_sub_sub(src@, offset as int, 16, 6, 8);
            lemma_sub_sub(src@, offset as int, 16, 8, 9);
            lemma_sub_sub(src@, offset as int, 16, 9, 10);
            lemma_sub_sub(src@, offset as int, 16, 10, 12);
            lemma_sub_sub(src@, offset as int, 16, 12, 14);
            lemma_sub_sub(src@, offset as int, 16, 14, 16);
        }
        AttributeHeader {
            ty: u32::load(src, offset),
            len: u16::load(src, offset + 4),
            reserved: u16::load(src, offset + 6),
            non_resident: u8::load(src, offset + 8),
            name_len: u8::load(src, offset + 9),
            name_offset: u16::load(src, offset + 10),
            flags: u16::load(src, offset + 12),
            id: u16::load(src, offset + 14),
        }
    }
}

/// The content descriptor of a resident attribute: where its value lies
/// inside the attribute's own bytes.
#[derive(Clone, Copy, Debug)]
pub struct ResidentHeader {
    pub value_len: u32,
    pub value_offset: u16,
    pub indexed: u8,
    pub reserved: u8,
}

impl FlatBase for ResidentHeader {
    open spec fn size() -> nat {
        8
    }

    fn flat_size() -> usize {
        8
    }
}

impl FlatDataImpl for ResidentHeader {
    open spec fn read_spec(s: Seq<u8>) -> ResidentHeader {
        ResidentHeader {
            value_len: le_value(s.subrange(0, 4)) as u32,
            value_offset: le_value(s.subrange(4, 6)) as u16,
            indexed: le_value(s.subrange(6, 7)) as u8,
            reserved: le_value(s.subrange(7, 8)) as u8,
        }
    }

    fn load_at(src: &[u8], offset: usize) -> (v: ResidentHeader) {
        let _len: usize = src.len();
        let ghost s = src@.subrange(offset as int, offset + 8);
        proof {
            lemma_sub_sub(src@, offset as int, 8, 0, 4);
            lemma_sub_sub(src@, offset as int, 8, 4, 6);
            lemma_sub_sub(src@, offset as int, 8, 6, 7);
            lemma_sub_sub(src@, offset as int, 8, 7, 8);
        }
        ResidentHeader {
            value_len: u32::load(src, offset),
            value_offset: u16::load(src, offset + 4),
            indexed: u8::load(src, offset + 6),
            reserved: u8::load(src, offset + 7),
        }
    }
}

/// The content descriptor of a non-resident attribute: its cluster range
/// and where its data-run encoding lies.
#[derive(Clone, Copy, Debug)]
pub struct NonResidentHeader {
    pub first_vcn: u32,
    pub reserved_a: u32,
    pub last_vcn: u32,
    pub reserved_b: u32,
    pub data_runs_offset: u16,
    pub compression_unit_size: u16,
    pub reserved_c: u32,
    pub allocated_size: u64,
    pub real_size: u64,
    pub initialized_size: u64,
}

impl FlatBase for NonResidentHeader {
    open spec fn size() -> nat {
        48
    }

    fn flat_size() -> usize {
        48
    }
}

impl FlatDataImpl for NonResidentHeader {
    open spec fn read_spec(s: Seq<u8>) -> NonResidentHeader {
        NonResidentHeader {
            first_vcn: le_value(s.subrange(0, 4)) as u32,
            reserved_a: le_value(s.subrange(4, 8)) as u32,
            last_vcn: le_value(s.subrange(8, 12)) as u32,
            reserved_b: le_value(s.subrange(12, 16)) as u32,
            data_runs_offset: le_value(s.subrange(16, 18)) as u16,
            compression_unit_size: le_value(s.subrange(18, 20)) as u16,
            reserved_c: le_value(s.subrange(20, 24)) as u32,
            allocated_size: le_value(s.subrange(24, 32)) as u64,
            real_size: le_value(s.subrange(32, 40)) as u64,
            initialized_size: le_value(s.subrange(40, 48)) as u64,
        }
    }

    fn load_at(src: &[u8], offset: usize) -> (v: NonResidentHeader) {
        let _len: usize = src.len();
        let ghost s = src@.subrange(offset as int, offset + 48);
        proof {
            lemma_sub_sub(src@, offset as int, 48, 0, 4);
            lemma_sub_sub(src@, offset as int, 48, 4, 8);
            lemma_sub_sub(src@, offset as int, 48, 8, 12);
            lemma_sub_sub(src@, offset as int, 48, 12, 16);
            lemma_sub_sub(src@, offset as int, 48, 16, 18);
            lemma_sub_sub(src@, offset as int, 48, 18, 20);
            lemma_sub_sub(src@, offset as int, 48, 20, 24);
            lemma_sub_sub(src@, offset as int, 48, 24, 32);
            lemma_sub_sub(src@, offset as int, 48, 32, 40);
            lemma_sub_sub(src@, offset as int, 48, 40, 48);
        }
        NonResidentHeader {
            first_vcn: u32::load(src, offset),
            reserved_a: u32::load(src, offset + 4),
            last_vcn: u32::load(src, offset + 8),
            reserved_b: u32::load(src, offset + 12),
            data_runs_offset: u16::load(src, offset + 16),
            compression_unit_size: u16::load(src, offset + 18),
            reserved_c: u32::load(src, offset + 20),
            allocated_size: u64::load(src, offset + 24),
            real_size: u64::load(src, offset + 32),
            initialized_size: u64::load(src, offset + 40),
        }
    }
}

/// One MFT record: its decoded header and its first `real_size` bytes.
#[derive(Debug)]
pub struct FileRecord {
    pub raw: Vec<u8>,
    pub header: FileRecordHeader,
}

impl FileRecord {
    /// The record's bytes, as sliced to its declared real size.
    pub open spec fn raw_view(&self) -> Seq<u8> {
        self.raw@
    }

    /// Decodes the record found at the front of `src`: checks the magic
    /// signature and slices the buffer to the header's declared real
    /// size.  A short buffer or a real size pointing outside it is a
    /// format violation; a wrong signature is a bad record.
    pub fn parse(src: &[u8]) -> (r: Result<FileRecord, NtfsError>)
        ensures
            r matches Ok(rec) ==> ({
                &&& src@.len() >= 48
                &&& rec.header == FileRecordHeader::read_spec(src@.subrange(0, 48))
                &&& rec.header == FileRecordHeader::read_spec(rec.raw_view().subrange(0, 48))
                &&& rec.header.magic == RECORD_MAGIC
                &&& 48 <= rec.header.real_size <= src@.len()
                &&& rec.raw_view() == src@.subrange(0, rec.header.real_size as int)
            }),
            r == Err::<FileRecord, NtfsError>(NtfsError::OutOfBounds) <==> src@.len() < 48 || (
            FileRecordHeader::read_spec(src@.subrange(0, 48)).magic == RECORD_MAGIC && !(48
                <= FileRecordHeader::read_spec(src@.subrange(0, 48)).real_size <= src@.len())),
            r == Err::<FileRecord, NtfsError>(NtfsError::BadSignature) <==> src@.len() >= 48
                && FileRecordHeader::read_spec(src@.subrange(0, 48)).magic != RECORD_MAGIC,
            r is Err ==> r == Err::<FileRecord, NtfsError>(NtfsError::OutOfBounds) || r == Err::<
                FileRecord,
                NtfsError,
            >(NtfsError::BadSignature),
    {
        let slen: usize = src.len();
        if slen < 48 {
            return Err(NtfsError::OutOfBounds);
        }
        let header = FileRecordHeader::load_at(src, 0);
        if header.magic != RECORD_MAGIC {
            return Err(NtfsError::BadSignature);
        }
        let rsize: usize = header.real_size as usize;
        if rsize < 48 || rsize > slen {
            return Err(NtfsError::OutOfBounds);
        }
        let piece = vstd::slice::slice_subrange(src, 0, rsize);
        let raw = vstd::slice::slice_to_vec(piece);
        proof {
            lemma_sub_sub(src@, 0, rsize as int, 0, 48);
        }
        Ok(FileRecord { raw, header })
    }

    /// The attribute region of the record: everything from the header's
    /// attribute offset to the record's real size.
    pub fn attributes(&self) -> (r: Result<AttributeIterator, NtfsError>)
        ensures
            r matches Ok(it) ==> self.header.attribute_array_offset <= self.raw_view().len()
                && it.data_view() == self.raw_view().skip(
                self.header.attribute_array_offset as int,
            ) && it.pos_spec() == 0,
            r is Err ==> r == Err::<AttributeIterator, NtfsError>(NtfsError::OutOfBounds)
                && self.header.attribute_array_offset > self.raw_view().len(),
    {
        let offset: usize = self.header.attribute_array_offset as usize;
        let rlen: usize = self.raw.len();
        if offset > rlen {
            return Err(NtfsError::OutOfBounds);
        }
        let piece = vstd::slice::slice_subrange(self.raw.as_slice(), offset, rlen);
        proof {
            assert(self.raw@.subrange(offset as int, rlen as int) =~= self.raw@.skip(
                offset as int,
            ));
        }
        Ok(AttributeIterator::new(piece))
    }
}

/// Walks the packed attribute array of a record, handing out one
/// attribute at a time; it stops when fewer bytes remain than the
/// smallest possible attribute header.
pub struct AttributeIterator {
    data: Vec<u8>,
    pos: usize,
}

impl AttributeIterator {
    /// The walk never leaves the attribute bytes.
    #[verifier::type_invariant]
    spec fn wf(self) -> bool {
        self.pos <= self.data@.len()
    }

    /// The attribute bytes being walked.
    pub closed spec fn data_view(&self) -> Seq<u8> {
        self.data@
    }

    /// How far the walk has come.
    pub closed spec fn pos_spec(&self) -> int {
        self.pos as int
    }

    pub fn new(data: &[u8]) -> (it: AttributeIterator)
        ensures
            it.data_view() == data@,
            it.pos_spec() == 0,
    {
        AttributeIterator { data: vstd::slice::slice_to_vec(data), pos: 0 }
    }

    /// Decodes the next attribute, or reports that fewer than the
    /// minimal header's worth of bytes remain.  A malformed attribute
    /// length is a format violation.
    pub fn next(&mut self) -> (r: Result<Option<Attribute>, NtfsError>)
        ensures
            final(self).data_view() == old(self).data_view(),
            r matches Ok(Some(a)) ==> ({
                &&& old(self).data_view().len() - old(self).pos_spec() > 8
                &&& a.header == AttributeHeader::read_spec(
                    old(self).data_view().subrange(
                        old(self).pos_spec(),
                        old(self).pos_spec() + 16,
                    ),
                )
                &&& 16 <= a.header.len
                &&& old(self).pos_spec() + a.header.len <= old(self).data_view().len()
                &&& a.raw_view() == old(self).data_view().subrange(
                    old(self).pos_spec(),
                    old(self).pos_spec() + a.header.len,
                )
                &&& final(self).pos_spec() == old(self).pos_spec() + a.header.len
            }),
            r matches Ok(None) ==> old(self).data_view().len() - old(self).pos_spec() <= 8
                && *final(self) == *old(self),
            r is Err <==> old(self).data_view().len() - old(self).pos_spec() > 8 && ({
                ||| old(self).pos_spec() + 16 > old(self).data_view().len()
                ||| ({
                    let h = AttributeHeader::read_spec(
                        old(self).data_view().subrange(
                            old(self).pos_spec(),
                            old(self).pos_spec() + 16,
                        ),
                    );
                    h.len < 16 || old(self).pos_spec() + h.len > old(self).data_view().len()
                })
            }),
            r is Err ==> r == Err::<Option<Attribute>, NtfsError>(NtfsError::OutOfBounds),
    {
        proof {
            use_type_invariant(&*self);
        }
        let dlen: usize = self.data.len();
        if dlen - self.pos <= 8 {
            return Ok(None);
        }
        match Attribute::parse(self.data.as_slice(), self.pos) {
            Ok(a) => {
                self.pos = self.pos + a.header.len as usize;
                Ok(Some(a))
            },
            Err(e) => Err(e),
        }
    }
}

/// One decoded attribute: its header and its raw bytes, header included.
#[derive(Debug)]
pub struct Attribute {
    pub raw: Vec<u8>,
    pub header: AttributeHeader,
}

impl Attribute {
    /// The attribute's bytes: header, name and content descriptor.
    pub open spec fn raw_view(&self) -> Seq<u8> {
        self.raw@
    }

    /// Decodes the attribute found `pos` bytes into `data`: reads the
    /// header and takes the header's declared length of bytes.  A length
    /// shorter than the header itself or running past the buffer is a
    /// format violation.
    pub fn parse(data: &[u8], pos: usize) -> (r: Result<Attribute, NtfsError>)
        requires
            pos <= data@.len(),
        ensures
            r matches Ok(a) ==> ({
                &&& pos + 16 <= data@.len()
                &&& a.header == AttributeHeader::read_spec(
                    data@.subrange(pos as int, pos + 16),
                )
                &&& 16 <= a.header.len
                &&& pos + a.header.len <= data@.len()
                &&& a.raw_view() == data@.subrange(pos as int, pos + a.header.len)
            }),
            r is Err ==> r == Err::<Attribute, NtfsError>(NtfsError::OutOfBounds) && (pos + 16
                > data@.len() || ({
                let h = AttributeHeader::read_spec(data@.subrange(pos as int, pos + 16));
                h.len < 16 || pos + h.len > data@.len()
            })),
    {
        let dlen: usize = data.len();
        if dlen - pos < 16 {
            return Err(NtfsError::OutOfBounds);
        }
        let header = AttributeHeader::load_at(data, pos);
        let len: usize = header.len as usize;
        if len < 16 || dlen - pos < len {
            return Err(NtfsError::OutOfBounds);
        }
        let piece = vstd::slice::slice_subrange(data, pos, pos + len);
        let raw = vstd::slice::slice_to_vec(piece);
        Ok(Attribute { raw, header })
    }

    /// The attribute's type code.
    pub fn ty(&self) -> (t: u32)
        ensures
            t == self.header.ty,
    {
        self.header.ty
    }

    /// The attribute's UTF-16 name units, where it has a name.  The name
    /// region lying outside the attribute is a format violation.
    pub fn name_units(&self) -> (r: Result<Option<Vec<u16>>, NtfsError>)
        ensures
            r matches Ok(Some(u)) ==> self.header.name_len > 0 && self.header.name_offset + 2
                * self.header.name_len <= self.raw_view().len() && u@ == wide_units(
                self.raw_view().subrange(
                    self.header.name_offset as int,
                    self.header.name_offset + 2 * self.header.name_len,
                ),
            ),
            r matches Ok(None) ==> self.header.name_len == 0,
            r is Err ==> r == Err::<Option<Vec<u16>>, NtfsError>(NtfsError::OutOfBounds)
                && self.header.name_len > 0 && self.header.name_offset + 2 * self.header.name_len
                > self.raw_view().len(),
    {
        if self.header.name_len == 0 {
            return Ok(None);
        }
        let o: usize = self.header.name_offset as usize;
        let l: usize = self.header.name_len as usize;
        let rlen: usize = self.raw.len();
        if o > rlen || rlen - o < 2 * l {
            return Err(NtfsError::OutOfBounds);
        }
        let units = wide_units_of(self.raw.as_slice(), o, l);
        Ok(Some(units))
    }

    /// The attribute's name decoded to a string, where it has one;
    /// exactly the well-formed UTF-16 names decode.
    pub fn name(&self) -> (r: Option<Result<String, NtfsError>>)
        ensures
            r is None ==> self.header.name_len == 0,
            r matches Some(Err(e)) ==> e == NtfsError::InvalidName || e == NtfsError::OutOfBounds,
            r matches Some(n) ==> self.header.name_len > 0,
            r matches Some(Ok(s)) ==> self.header.name_offset + 2 * self.header.name_len
                <= self.raw_view().len() && s@ == crate::wide::utf16_str_of(
                wide_units(
                    self.raw_view().subrange(
                        self.header.name_offset as int,
                        self.header.name_offset + 2 * self.header.name_len,
                    ),
                ),
            ),
            ({
                let inr = self.header.name_len > 0 && self.header.name_offset + 2
                    * self.header.name_len <= self.raw_view().len();
                let units = wide_units(
                    self.raw_view().subrange(
                        self.header.name_offset as int,
                        self.header.name_offset + 2 * self.header.name_len,
                    ),
                );
                &&& (inr && crate::wide::utf16_wellformed(units)) ==> (r matches Some(Ok(s)))
                &&& (inr && !crate::wide::utf16_wellformed(units)) ==> r == Some(
                    Err::<String, NtfsError>(NtfsError::InvalidName),
                )
            }),
    {
        match self.name_units() {
            Ok(None) => None,
            Ok(Some(units)) => Some(crate::wide::utf16_to_string(units.as_slice())),
            Err(e) => Some(Err(e)),
        }
    }

    /// The attribute's content descriptor: the resident value bytes, or
    /// the data-run bytes with the declared cluster count and real size.
    /// A residency flag outside the two known states, a descriptor
    /// running past the attribute, or a cluster range ending before it
    /// starts is a format violation.
    pub fn content(&self) -> (r: Result<AttributeContent, NtfsError>)
        ensures
            r matches Ok(c) ==> ({
                match c {
                    AttributeContent::Resident(v) => ({
                        let info = ResidentHeader::read_spec(
                            self.raw_view().subrange(16, 24),
                        );
                        &&& self.header.non_resident == 0
                        &&& self.raw_view().len() >= 24
                        &&& info.value_offset + info.value_len <= self.raw_view().len()
                        &&& v@ == self.raw_view().subrange(
                            info.value_offset as int,
                            info.value_offset + info.value_len,
                        )
                    }),
                    AttributeContent::NonResident(runs, vcns, size) => ({
                        let info = NonResidentHeader::read_spec(
                            self.raw_view().subrange(16, 64),
                        );
                        &&& self.header.non_resident == 1
                        &&& self.raw_view().len() >= 64
                        &&& info.first_vcn <= info.last_vcn
                        &&& info.data_runs_offset <= self.raw_view().len()
                        &&& runs@ == self.raw_view().skip(info.data_runs_offset as int)
                        &&& vcns == 1 + info.last_vcn - info.first_vcn
                        &&& size == info.real_size
                    }),
                }
            }),
            r == Err::<AttributeContent, NtfsError>(NtfsError::BadResidency)
                <==> self.header.non_resident > 1,
            r == Err::<AttributeContent, NtfsError>(NtfsError::OutOfBounds) <==> ({
                ||| self.header.non_resident == 0 && (self.raw_view().len() < 24 || ({
                    let info = ResidentHeader::read_spec(self.raw_view().subrange(16, 24));
                    info.value_offset + info.value_len > self.raw_view().len()
                }))
                ||| self.header.non_resident == 1 && (self.raw_view().len() < 64 || ({
                    let info = NonResidentHeader::read_spec(self.raw_view().subrange(16, 64));
                    info.last_vcn < info.first_vcn || info.data_runs_offset
                        > self.raw_view().len()
                }))
            }),
            r is Err ==> r == Err::<AttributeContent, NtfsError>(NtfsError::OutOfBounds) || r
                == Err::<AttributeContent, NtfsError>(NtfsError::BadResidency),
    {
        let rlen: usize = self.raw.len();
        if self.header.non_resident == 0 {
            if rlen < 24 {
                return Err(NtfsError::OutOfBounds);
            }
            let info = ResidentHeader::load_at(self.raw.as_slice(), 16);
            let o: usize = info.value_offset as usize;
            let l: usize = info.value_len as usize;
            if o > rlen || rlen - o < l {
                return Err(NtfsError::OutOfBounds);
            }
            let piece = vstd::slice::slice_subrange(self.raw.as_slice(), o, o + l);
            Ok(AttributeContent::Resident(vstd::slice::slice_to_vec(piece)))
        } else if self.header.non_resident == 1 {
            if rlen < 64 {
                return Err(NtfsError::OutOfBounds);
            }
            let info = NonResidentHeader::load_at(self.raw.as_slice(), 16);
            if info.last_vcn < info.first_vcn {
                return Err(NtfsError::OutOfBounds);
            }
            let o: usize = info.data_runs_offset as usize;
            if o > rlen {
                return Err(NtfsError::OutOfBounds);
            }
            let piece = vstd::slice::slice_subrange(self.raw.as_slice(), o, rlen);
            proof {
                assert(self.raw@.subrange(o as int, rlen as int) =~= self.raw@.skip(o as int));
            }
            let vcns: u64 = 1 + info.last_vcn as u64 - info.first_vcn as u64;
            Ok(
                AttributeContent::NonResident(
                    vstd::slice::slice_to_vec(piece),
                    vcns,
                    info.real_size,
                ),
            )
        } else {
            Err(NtfsError::BadResidency)
        }
    }
}

/// What an attribute's value is backed by: bytes inside the record, or a
/// data-run encoding with the declared virtual-cluster count and real
/// byte size.
#[derive(Debug)]
pub enum AttributeContent {
    Resident(Vec<u8>),
    NonResident(Vec<u8>, u64, u64),
}

/// A readable, seekable stream over bytes held in memory: the content of
/// a resident attribute.
pub struct ResidentReader {
    data: Vec<u8>,
    offset: usize,
}

impl ResidentReader {
    /// The bytes the stream serves.
    pub closed spec fn data_view(&self) -> Seq<u8> {
        self.data@
    }

    /// The current position.
    pub closed spec fn pos_spec(&self) -> int {
        self.offset as int
    }

    /// Position and data stay consistent.
    pub closed spec fn wf(&self) -> bool {
        self.offset <= self.data@.len()
    }

    pub fn new(data: Vec<u8>) -> (r: ResidentReader)
        ensures
            r.wf(),
            r.data_view() == data@,
            r.pos_spec() == 0,
    {
        ResidentReader { data, offset: 0 }
    }

    /// A well-formed stream's position lies within its bytes.
    pub proof fn position_in_bounds(&self)
        requires
            self.wf(),
        ensures
            0 <= self.pos_spec() <= self.data_view().len(),
    {
    }

    /// Reads up to `n` bytes at the position and advances past them.
    pub fn read(&mut self, n: usize) -> (v: Vec<u8>)
        requires
            old(self).wf(),
        ensures
            final(self).wf(),
            final(self).data_view() == old(self).data_view(),
            v@.len() <= n,
            v@ == old(self).data_view().subrange(
                old(self).pos_spec(),
                old(self).pos_spec() + v@.len(),
            ),
            final(self).pos_spec() == old(self).pos_spec() + v@.len(),
            v@.len() == (if old(self).pos_spec() + n <= old(self).data_view().len() {
                n as int
            } else {
                old(self).data_view().len() - old(self).pos_spec()
            }),
    {
        let dlen: usize = self.data.len();
        let mut count: usize = dlen - self.offset;
        if n < count {
            count = n;
        }
        let mut v: Vec<u8> = Vec::new();
        let mut i: usize = 0;
        while i < count
            invariant
                i <= count,
                self.offset + count <= self.data@.len(),
                v@ == self.data@.subrange(self.offset as int, self.offset + i),
            decreases count - i,
        {
            v.push(self.data[self.offset + i]);
            i = i + 1;
            proof {
                assert(self.data@.subrange(self.offset as int, self.offset + i - 1).push(
                    self.data@[self.offset + i - 1],
                ) =~= self.data@.subrange(self.offset as int, self.offset + i));
            }
        }
        self.offset = self.offset + count;
        v
    }

    /// Repositions within the held bytes; a target outside them is
    /// refused.
    pub fn seek(&mut self, pos: SeekPos) -> (r: Result<u64, NtfsError>)
        requires
            old(self).wf(),
        ensures
            final(self).wf(),
            final(self).data_view() == old(self).data_view(),
            ({
                let target: int = match pos {
                    SeekPos::Start(o) => o as int,
                    SeekPos::End(o) => old(self).data_view().len() + o,
                    SeekPos::Current(o) => old(self).pos_spec() + o,
                };
                &&& (r is Ok <==> 0 <= target <= old(self).data_view().len())
                &&& r matches Ok(p) ==> final(self).pos_spec() == target && p == target
                &&& r is Err ==> r == Err::<u64, NtfsError>(NtfsError::SeekOutOfRange)
                    && *final(self) == *old(self)
            }),
    {
        let dlen: usize = self.data.len();
        let base: u64 = match pos {
            SeekPos::Start(_) => 0,
            SeekPos::End(_) => dlen as u64,
            SeekPos::Current(_) => self.offset as u64,
        };
        let delta: i64 = match pos {
            SeekPos::Start(o) => {
                if o > dlen as u64 {
                    return Err(NtfsError::SeekOutOfRange);
                }
                self.offset = o as usize;
                return Ok(o);
            },
            SeekPos::End(o) => o,
            SeekPos::Current(o) => o,
        };
        if delta >= 0 {
            let d: u64 = delta as u64;
            if d > dlen as u64 - base {
                return Err(NtfsError::SeekOutOfRange);
            }
            self.offset = (base + d) as usize;
        } else {
            let m: u64 = (-(delta + 1)) as u64 + 1;
            if m > base {
                return Err(NtfsError::SeekOutOfRange);
            }
            self.offset = (base - m) as usize;
        }
        Ok(self.offset as u64)
    }
}

/// A stream over an attribute's content, whichever shape it has: a
/// resident value served from memory, or a non-resident one read
/// through its data runs.
pub enum AttributeReader {
    Resident(ResidentReader),
    NonResident(DataRunReader),
}

impl AttributeReader {
    /// Both shapes keep their internal consistency.
    pub open spec fn wf(&self) -> bool {
        &&& self is Resident ==> self->Resident_0.wf()
        &&& self is NonResident ==> self->NonResident_0.wf()
    }

    /// Repositions whichever stream backs the attribute.
    pub fn seek(&mut self, pos: SeekPos) -> (r: Result<u64, NtfsError>)
        requires
            old(self).wf(),
        ensures
            final(self).wf(),
            (*old(self)) is Resident <==> (*final(self)) is Resident,
            r matches Ok(p) ==> match *final(self) {
                AttributeReader::Resident(post) => post.pos_spec() == p,
                AttributeReader::NonResident(post) => post.pos_spec() == p,
            },
    {
        match self {
            AttributeReader::Resident(base) => base.seek(pos),
            AttributeReader::NonResident(base) => base.seek(pos),
        }
    }

}

} // verus!
