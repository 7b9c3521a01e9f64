//! The volume: tying device, records and runs together.
//!
//! [`NTFileSystem`] holds the device behind a shared handle together with
//! the volume's geometry and the MFT's own data runs, found by decoding
//! the MFT's first record.  [`MFTReader`] walks records sequentially or
//! by reference, skipping deallocated slots, and name and path
//! resolution follow parent references from record to record, bounded
//! against corrupt volumes that loop.
use crate::device::Disk;
use crate::error::NtfsError;
use crate::flat::Flat;
use crate::flat::FlatDataImpl;
use crate::names::FileName;
use crate::names::FileNameHeader;
use crate::names::NAMESPACE_DOS;
use crate::record::wide_units;
use crate::record::AttributeContent;
use crate::record::AttributeHeader;
use crate::record::ResidentHeader;
use crate::record::AttributeReader;
use crate::record::FileRecord;
use crate::record::ResidentReader;
use crate::record::ATTR_DATA;
use crate::record::ATTR_FILE_NAME;
use crate::reference::FileReference;
use crate::runs::runs_wf;
use crate::runs::DataRunReader;
use crate::runs::DataRuns;
use crate::runs::SeekPos;
use crate::shared::SharedCursor;
use crate::shared::SharedFile;
use vstd::prelude::*;
use vstd::string::StringExecFns;

verus! {

/// The record number of the root directory: the slot every ancestor
/// chain is expected to reach.
pub const ROOT_RECORD: u64 = 5;

/// How many ancestors a path may have before resolution reports a
/// corrupt chain instead of walking on.
pub const PATH_DEPTH_LIMIT: u32 = 4096;

/// The four integers a volume's platform query answers with.
#[derive(Clone, Copy, Debug)]
pub struct VolumeGeometry {
    pub bytes_per_sector: u32,
    pub bytes_per_cluster: u32,
    pub bytes_per_record: u32,
    pub mft_start_cluster: u64,
}

/// Reads through a logical cursor until `n` bytes have arrived or the
/// device has nothing more to give: with the cursor inside the device's
/// bytes, the result is exactly the shorter of the request and what
/// remains.
#[verifier::loop_isolation(true)]
pub fn read_full<D: Disk>(
    disk: &mut SharedFile<D>,
    cur: &mut SharedCursor,
    n: usize,
) -> (r: Result<Vec<u8>, NtfsError>)
    requires
        old(disk).wf(),
    ensures
        final(disk).wf(),
        final(disk).contents() == old(disk).contents(),
        r matches Err(e) ==> e == NtfsError::Device,
        r matches Ok(v) ==> ({
            &&& v@.len() <= n
            &&& (0 <= old(cur).pos() <= old(disk).contents().len()) ==> ({
                &&& v@ == old(disk).contents().subrange(
                    old(cur).pos(),
                    old(cur).pos() + v@.len(),
                )
                &&& final(cur).pos() == old(cur).pos() + v@.len()
                &&& v@.len() == (if old(cur).pos() + n <= old(disk).contents().len() {
                    n as int
                } else {
                    old(disk).contents().len() - old(cur).pos()
                })
            })
        }),
{
    let ghost p0 = cur.pos();
    let ghost cont = disk.contents();
    let ghost inb = 0 <= p0 <= cont.len();
    let mut out: Vec<u8> = Vec::new();
    loop
        invariant
            disk.wf(),
            cont == old(disk).contents(),
            disk.contents() == cont,
            p0 == old(cur).pos(),
            inb == (0 <= p0 <= cont.len()),
            out@.len() <= n,
            inb ==> out@ == cont.subrange(p0, p0 + out@.len()) && cur.pos() == p0 + out@.len()
                && p0 + out@.len() <= cont.len(),
        ensures
            out@.len() <= n,
            inb ==> out@ == cont.subrange(p0, p0 + out@.len()) && cur.pos() == p0 + out@.len()
                && out@.len() == (if p0 + n <= cont.len() {
                n as int
            } else {
                cont.len() - p0
            }),
        decreases n - out@.len(),
    {
        let have: usize = out.len();
        if have == n {
            break ;
        }
        let piece = match disk.read(cur, n - have) {
            Ok(v) => v,
            Err(e) => {
                return Err(e);
            },
        };
        if piece.len() == 0 {
            break ;
        }
        let ghost pre_out = out@;
        let ghost piece_view = piece@;
        crate::flat::StoreExt::store_bytes(&mut out, piece.as_slice());
        proof {
            if inb {
                crate::flat::lemma_adjacent_subranges(cont, p0, pre_out, piece_view);
            }
        }
    }
    Ok(out)
}

/// The run encoding, cluster count and declared size of the first
/// unnamed non-resident data attribute of a record walk: the attribute
/// whose content is the file's own bytes.  `Some(None)` means the walk
/// ran out of attributes; the outer `None` marks a malformed attribute
/// or an unnamed data attribute that is not non-resident.
pub open spec fn first_unnamed_data(data: Seq<u8>, pos: int) -> Option<
    Option<(Seq<u8>, u64, u64)>,
>
    decreases data.len() - pos,
    when 0 <= pos <= data.len()
{
    if data.len() - pos <= 8 {
        Some(None)
    } else if pos + 16 > data.len() {
        None
    } else {
        let h = AttributeHeader::read_spec(data.subrange(pos, pos + 16));
        if h.len < 16 || pos + h.len > data.len() {
            None
        } else if !(h.ty == ATTR_DATA && h.name_len == 0) {
            first_unnamed_data(data, pos + h.len)
        } else if h.non_resident != 1 {
            None
        } else {
            let araw = data.subrange(pos, pos + h.len);
            if araw.len() < 64 {
                None
            } else {
                let info = crate::record::NonResidentHeader::read_spec(araw.subrange(16, 64));
                if info.last_vcn < info.first_vcn || info.data_runs_offset > araw.len() {
                    None
                } else {
                    Some(
                        Some(
                            (
                                araw.skip(info.data_runs_offset as int),
                                (1 + info.last_vcn - info.first_vcn) as u64,
                                info.real_size,
                            ),
                        ),
                    )
                }
            }
        }
    }
}

/// The run encoding of the record's unnamed data attribute, with its
/// declared cluster count and real size: exactly what
/// [`first_unnamed_data`] names, found or refused.
fn find_mft_data(record: &FileRecord) -> (r: Result<(Vec<u8>, u64, u64), NtfsError>)
    ensures
        ({
            let data = record.raw_view().skip(record.header.attribute_array_offset as int);
            let fud = first_unnamed_data(data, 0);
            &&& (record.header.attribute_array_offset <= record.raw_view().len() && (
            fud matches Some(Some(t)))) ==> (r matches Ok(got) && got.0@
                == fud.unwrap().unwrap().0 && got.1 == fud.unwrap().unwrap().1 && got.2
                == fud.unwrap().unwrap().2)
            &&& (record.header.attribute_array_offset <= record.raw_view().len() && (
            fud matches Some(None))) ==> r == Err::<(Vec<u8>, u64, u64), NtfsError>(
                NtfsError::AttributeNotFound,
            )
        }),
        r matches Err(e) ==> e == NtfsError::AttributeNotFound || e == NtfsError::BadResidency
            || e == NtfsError::OutOfBounds,
{
    let mut attrs = match record.attributes() {
        Ok(it) => it,
        Err(e) => {
            return Err(e);
        },
    };
    let ghost data = record.raw_view().skip(record.header.attribute_array_offset as int);
    let ghost fud0 = first_unnamed_data(data, 0);
    loop
        invariant
            attrs.data_view() == data,
            data == record.raw_view().skip(record.header.attribute_array_offset as int),
            fud0 == first_unnamed_data(data, 0),
            0 <= attrs.pos_spec() <= data.len(),
            fud0 == first_unnamed_data(data, attrs.pos_spec()) || fud0 is None,
        decreases attrs.data_view().len() - attrs.pos_spec(),
    {
        let ghost p = attrs.pos_spec();
        let attr = match attrs.next() {
            Ok(Some(a)) => a,
            Ok(None) => {
                proof {
                    assert(first_unnamed_data(data, p) == Some(
                        Option::<(Seq<u8>, u64, u64)>::None,
                    ));
                }
                return Err(NtfsError::AttributeNotFound);
            },
            Err(e) => {
                proof {
                    if data.len() - p > 8 {
                        assert(first_unnamed_data(data, p) is None);
                    }
                }
                return Err(e);
            },
        };
        let ghost h = attr.header;
        proof {
            assert(data.len() - p > 8 && p + 16 <= data.len());
            assert(h == AttributeHeader::read_spec(data.subrange(p, p + 16)));
            assert(16 <= h.len && p + h.len <= data.len());
            assert(attr.raw_view() == data.subrange(p, p + h.len));
        }
        if !(attr.ty() == ATTR_DATA && attr.header.name_len == 0) {
            proof {
                assert(first_unnamed_data(data, p) == first_unnamed_data(data, p + h.len));
            }
            continue ;
        }
        match attr.content() {
            Ok(AttributeContent::NonResident(runs_bytes, vcns, length)) => {
                proof {
                    assert(first_unnamed_data(data, p) == Some(
                        Some((runs_bytes@, vcns, length)),
                    ));
                }
                return Ok((runs_bytes, vcns, length));
            },
            Ok(AttributeContent::Resident(_)) => {
                proof {
                    assert(first_unnamed_data(data, p) is None);
                }
                return Err(NtfsError::BadResidency);
            },
            Err(e) => {
                proof {
                    assert(first_unnamed_data(data, p) is None);
                }
                return Err(e);
            },
        }
    }
}

/// The path text of a chain of name parts collected innermost first:
/// one separator before each part, outermost part first in the text.
pub open spec fn join_parts(parts: Seq<Seq<char>>) -> Seq<char>
    decreases parts.len(),
{
    if parts.len() == 0 {
        Seq::empty()
    } else {
        join_parts(parts.drop_first()) + seq!['\\'] + parts.first()
    }
}

/// Joins collected name parts into one path, innermost part written
/// last; no parts at all give the bare separator, the root itself.
pub fn join_path(parts: &Vec<String>) -> (p: String)
    ensures
        p@ == (if parts@.len() == 0 {
            seq!['\\']
        } else {
            join_parts(parts@.map_values(|s: String| s@))
        }),
        p@.len() >= 1,
        p@[0] == '\\',
{
    let ghost views = parts@.map_values(|s: String| s@);
    let mut path = String::new();
    let mut i: usize = parts.len();
    proof {
        reveal_strlit("\\");
        assert(views.subrange(i as int, i as int) =~= Seq::<Seq<char>>::empty());
    }
    while i > 0
        invariant
            i <= parts@.len(),
            views == parts@.map_values(|s: String| s@),
            path@ == join_parts(views.subrange(i as int, views.len() as int)),
            "\\"@ == seq!['\\'],
        decreases i,
    {
        i = i - 1;
        path.append("\\");
        path.append(parts[i].as_str());
        proof {
            let tail = views.subrange(i as int, views.len() as int);
            assert(tail.drop_first() =~= views.subrange(i + 1, views.len() as int));
            assert(tail.first() == views[i as int]);
            assert(path@ =~= join_parts(tail));
        }
    }
    proof {
        assert(views.subrange(0, views.len() as int) =~= views);
        if views.len() > 0 {
            lemma_join_parts_front(views);
        }
    }
    if path.as_str().unicode_len() == 0 {
        path.append("\\");
        proof {
            assert(path@ =~= seq!['\\']);
        }
    }
    path
}

/// A joined path ends with a separator followed by its first-collected
/// (innermost) part.
proof fn lemma_join_parts_tail(parts: Seq<Seq<char>>)
    requires
        parts.len() > 0,
    ensures
        ({
            let j = join_parts(parts);
            let f = parts.first();
            &&& j.len() >= 1 + f.len()
            &&& j.subrange(j.len() - f.len(), j.len() as int) == f
            &&& j[j.len() - f.len() - 1] == '\\'
        }),
{
    let rest = join_parts(parts.drop_first());
    let f = parts.first();
    let j = join_parts(parts);
    assert(j == rest + seq!['\\'] + f);
    assert(j.subrange(j.len() - f.len(), j.len() as int) =~= f);
    assert(j[j.len() - f.len() - 1] == (rest + seq!['\\'])[rest.len() as int]);
}

/// A joined path of at least one part starts with the separator.
proof fn lemma_join_parts_front(parts: Seq<Seq<char>>)
    requires
        parts.len() > 0,
    ensures
        join_parts(parts).len() >= 1 + parts.first().len(),
        join_parts(parts)[0] == '\\',
    decreases parts.len(),
{
    let rest = parts.drop_first();
    if rest.len() > 0 {
        lemma_join_parts_front(rest);
        assert(join_parts(parts)[0] == join_parts(rest)[0]);
    } else {
        assert(join_parts(rest) =~= Seq::<char>::empty());
        assert((join_parts(rest) + seq!['\\'] + parts.first())[0] == '\\');
    }
}

/// An open NTFS volume: the device, its geometry, and the MFT's own
/// data runs.
pub struct NTFileSystem<D: Disk> {
    disk: SharedFile<D>,
    record_size: u64,
    cluster_size: u64,
    mft_data: DataRuns,
}

impl<D: Disk> NTFileSystem<D> {
    /// Well-formedness: the shared handle is consistent and the MFT's
    /// runs are addressable, with a record size that holds a header.
    pub closed spec fn wf(&self) -> bool {
        &&& self.disk.wf()
        &&& runs_wf(self.mft_data.0@)
        &&& 48 <= self.record_size <= u32::MAX
        &&& 1 <= self.cluster_size
    }

    /// The bytes of the underlying device.
    pub closed spec fn contents(&self) -> Seq<u8> {
        self.disk.contents()
    }

    /// The configured size of one MFT record.
    pub closed spec fn record_size_spec(&self) -> u64 {
        self.record_size
    }

    /// The configured size of one cluster.
    pub closed spec fn cluster_size_spec(&self) -> u64 {
        self.cluster_size
    }

    /// The decoded extents of the MFT's own data.
    pub closed spec fn mft_runs(&self) -> Seq<(u64, u64)> {
        self.mft_data.0@
    }

    /// Where the device is last known to sit.
    pub closed spec fn device_pos(&self) -> int {
        self.disk.device_pos()
    }

    /// Opens a volume: seeks the device to the MFT's first record,
    /// decodes that record, and takes the data runs of its unnamed data
    /// attribute as the map of the MFT itself.  An MFT whose data
    /// attribute claims to be resident is refused, as is geometry no
    /// volume can have.
    pub fn new(disk: D, geometry: VolumeGeometry) -> (r: Result<NTFileSystem<D>, NtfsError>)
        requires
            disk.inv(),
        ensures
            r matches Ok(fs) ==> ({
                &&& fs.wf()
                &&& fs.contents() == disk.contents()
                &&& fs.record_size_spec() == geometry.bytes_per_record
                &&& fs.cluster_size_spec() == geometry.bytes_per_cluster
            }),
            r == Err::<NTFileSystem<D>, NtfsError>(NtfsError::BadGeometry) <==> ({
                ||| geometry.bytes_per_record < 48
                ||| geometry.bytes_per_cluster == 0
                ||| (geometry.mft_start_cluster as int) * (geometry.bytes_per_cluster as int)
                    > u64::MAX
            }),
            r matches Ok(fs) ==> ({
                let off = (geometry.mft_start_cluster as int) * (geometry.bytes_per_cluster as int);
                let rs = geometry.bytes_per_record as int;
                off + rs <= disk.contents().len() ==> ({
                    let rec = disk.contents().subrange(off, off + rs);
                    let hdr = crate::record::FileRecordHeader::read_spec(rec.subrange(0, 48));
                    let data = rec.subrange(0, hdr.real_size as int).skip(
                        hdr.attribute_array_offset as int,
                    );
                    let fud = first_unnamed_data(data, 0);
                    (48 <= hdr.real_size <= rs && hdr.attribute_array_offset <= hdr.real_size && (
                    fud matches Some(Some(t)))) ==> Some(fs.mft_runs()) == crate::runs::decode_runs(
                        fud.unwrap().unwrap().0,
                        geometry.bytes_per_cluster as u64,
                        fud.unwrap().unwrap().1,
                        fud.unwrap().unwrap().2,
                        0,
                        0,
                        0,
                        true,
                    )
                })
            }),
    {
        if geometry.bytes_per_record < 48 || geometry.bytes_per_cluster == 0 {
            return Err(NtfsError::BadGeometry);
        }
        let cluster_size: u64 = geometry.bytes_per_cluster as u64;
        let record_size: u64 = geometry.bytes_per_record as u64;
        proof {
            assert((geometry.mft_start_cluster as u128) * (cluster_size as u128) <= u128::MAX)
                by (nonlinear_arith)
                requires
                    geometry.mft_start_cluster <= u64::MAX && cluster_size <= u64::MAX,
            ;
        }
        let wide: u128 = geometry.mft_start_cluster as u128 * cluster_size as u128;
        if wide > u64::MAX as u128 {
            return Err(NtfsError::BadGeometry);
        }
        let mft_offset: u64 = wide as u64;
        let mut shared = SharedFile::new(disk);
        let mut cur = shared.cursor();
        match shared.seek(&mut cur, mft_offset) {
            Ok(()) => (),
            Err(e) => {
                return Err(e);
            },
        }
        let buffer = match read_full(&mut shared, &mut cur, geometry.bytes_per_record as usize) {
            Ok(v) => v,
            Err(e) => {
                return Err(e);
            },
        };
        if buffer.len() < geometry.bytes_per_record as usize {
            return Err(NtfsError::ShortRead);
        }
        let mft = match FileRecord::parse(buffer.as_slice()) {
            Ok(rec) => rec,
            Err(e) => {
                return Err(e);
            },
        };
        let (runs_bytes, vcns, length) = match find_mft_data(&mft) {
            Ok(found) => found,
            Err(e) => {
                return Err(e);
            },
        };
        let mft_data = match DataRuns::parse(runs_bytes.as_slice(), cluster_size, vcns, length) {
            Ok(runs) => runs,
            Err(e) => {
                return Err(e);
            },
        };
        Ok(NTFileSystem { disk: shared, record_size, cluster_size, mft_data })
    }

    /// A fresh logical handle onto the volume's one device, so that
    /// several readers can multiplex it independently.
    pub fn shared(&self) -> (c: SharedCursor)
        ensures
            c.pos() == self.device_pos(),
    {
        self.disk.cursor()
    }

    /// A stream over an attribute's content: resident bytes are served
    /// directly, a non-resident value is read through its data runs,
    /// re-parsed against this volume's cluster size and the value's
    /// declared real size.
    pub fn open(&self, content: AttributeContent) -> (r: Result<AttributeReader, NtfsError>)
        requires
            self.wf(),
        ensures
            r matches Ok(reader) ==> reader.wf() && (match content {
                AttributeContent::Resident(v) => match reader {
                    AttributeReader::Resident(rr) => rr.data_view() == v@ && rr.pos_spec() == 0,
                    AttributeReader::NonResident(_) => false,
                },
                AttributeContent::NonResident(runs_bytes, vcns, length) => match reader {
                    AttributeReader::NonResident(dr) => Some(dr.runs_view())
                        == crate::runs::decode_runs(
                        runs_bytes@,
                        self.cluster_size_spec(),
                        vcns,
                        length,
                        0,
                        0,
                        0,
                        true,
                    ) && dr.pos_spec() == 0,
                    AttributeReader::Resident(_) => false,
                },
            }),
            r is Err <==> (content matches AttributeContent::NonResident(runs_bytes, vcns, length)
                && crate::runs::decode_runs(
                runs_bytes@,
                self.cluster_size_spec(),
                vcns,
                length,
                0,
                0,
                0,
                true,
            ) is None),
    {
        match content {
            AttributeContent::Resident(raw) => {
                Ok(AttributeReader::Resident(ResidentReader::new(raw)))
            },
            AttributeContent::NonResident(runs_bytes, vcns, length) => {
                let runs = match DataRuns::parse(
                    runs_bytes.as_slice(),
                    self.cluster_size,
                    vcns,
                    length,
                ) {
                    Ok(runs) => runs,
                    Err(e) => {
                        return Err(e);
                    },
                };
                Ok(AttributeReader::NonResident(runs.open(self.disk.cursor())))
            },
        }
    }

    /// A sequential reader over the MFT's records, buffering `buffer`
    /// records' worth of bytes at a time.
    pub fn open_mft(&self, buffer: usize) -> (r: Result<MFTReader, NtfsError>)
        requires
            self.wf(),
            1 <= buffer,
        ensures
            r matches Ok(m) ==> ({
                &&& m.wf()
                &&& m.record_size_spec() == self.record_size_spec()
                &&& m.index_spec() == 0
                &&& m.stream().runs_view() == self.mft_runs()
                &&& m.stream_pos_spec() == 0
                &&& forall|contents: Seq<u8>| #[trigger] m.synced(contents)
            }),
            r is Err <==> (buffer as int) * (self.record_size_spec() as int) > usize::MAX,
            r is Err ==> r == Err::<MFTReader, NtfsError>(NtfsError::BadGeometry),
    {
        proof {
            assert((buffer as u128) * (self.record_size as u128) <= u128::MAX)
                by (nonlinear_arith)
                requires
                    buffer <= usize::MAX && self.record_size <= u64::MAX,
            ;
            assert((buffer as u128) * (self.record_size as u128) >= self.record_size)
                by (nonlinear_arith)
                requires
                    buffer >= 1,
            ;
        }
        let wide: u128 = buffer as u128 * self.record_size as u128;
        if wide > usize::MAX as u128 {
            return Err(NtfsError::BadGeometry);
        }
        let reader = self.mft_data.clone().open(self.disk.cursor());
        Ok(MFTReader::new(reader, self.record_size, wide as usize))
    }

    /// The canonical name of the referenced record, with the file-name
    /// header that carries its parent reference: the record at the
    /// referenced slot is fetched and its first non-DOS file-name
    /// attribute decoded.  Where the slot is allocated, carries a usable
    /// record, and its acceptable name is resident, the result is pinned
    /// to that name; the record fetch itself crosses the device, so
    /// device failures and short streams stay possible on any input.
    pub fn inode_name(&mut self, inode: &FileReference) -> (r: Result<
        (FileNameHeader, String),
        NtfsError,
    >)
        requires
            old(self).wf(),
        ensures
            final(self).wf(),
            final(self).contents() == old(self).contents(),
            final(self).mft_runs() == old(self).mft_runs(),
            final(self).record_size_spec() == old(self).record_size_spec(),
            r matches Ok((h, s)) ==> h.namespace != NAMESPACE_DOS,
            ({
                let runs = old(self).mft_runs();
                let c = old(self).contents();
                let rs = old(self).record_size_spec();
                let k = inode.record_number_spec() as int;
                let rec = crate::runs::stream_view(runs, c).subrange(k * rs, k * rs + rs);
                let hdr = crate::record::FileRecordHeader::read_spec(rec.subrange(0, 48));
                let raw = rec.subrange(0, hdr.real_size as int);
                let fnv = first_name_value(raw.skip(hdr.attribute_array_offset as int), 0);
                (crate::runs::runs_in_contents(runs, c) && !slot_free(runs, c, rs, k)
                    && slot_record_ok(runs, c, rs, k) && inode.record_number_spec()
                    < crate::reference::RECORD_NUMBER_LIMIT && hdr.attribute_array_offset
                    <= hdr.real_size) ==> {
                    &&& (fnv matches Some(Some(v))) ==> match r {
                        Ok((h, s)) => h == crate::names::FileNameHeader::read_spec(
                            fnv.unwrap().unwrap().subrange(0, 66),
                        ) && s@ == crate::wide::utf16_str_of(
                            wide_units(fnv.unwrap().unwrap().subrange(66, 66 + 2 * h.len)),
                        ),
                        Err(e) => e != NtfsError::NameNotFound,
                    }
                    &&& (fnv matches Some(None)) ==> r is Err
                }
            }),
    {
        let mut mft = match self.open_mft(1) {
            Ok(m) => m,
            Err(e) => {
                return Err(e);
            },
        };
        let (reference, record) = match mft.read(self, inode) {
            Ok(Some(found)) => found,
            Ok(None) => {
                return Err(NtfsError::ShortRead);
            },
            Err(e) => {
                return Err(e);
            },
        };
        proof {
            let runs = old(self).mft_runs();
            let c = old(self).contents();
            let rs = old(self).record_size_spec();
            let k = inode.record_number_spec() as int;
            if crate::runs::runs_in_contents(runs, c) && !slot_free(runs, c, rs, k)
                && slot_record_ok(runs, c, rs, k) {
                // a live slot is never skipped, so the lookup landed on it
                assert(reference.record_number_spec() == inode.record_number_spec());
                let sv = crate::runs::stream_view(runs, c);
                let rec = sv.subrange(k * rs, k * rs + rs);
                crate::runs::lemma_stream_view_len(runs, c);
                assert((k + 1) * rs == k * rs + rs) by (nonlinear_arith);
                crate::record::lemma_sub_sub(sv, k * rs, rs as int, 0, 48);
                crate::record::lemma_sub_sub(
                    sv,
                    k * rs,
                    rs as int,
                    0,
                    record.header.real_size as int,
                );
                assert(record.raw_view() == rec.subrange(0, record.header.real_size as int));
                crate::record::lemma_sub_sub(
                    rec,
                    0,
                    record.header.real_size as int,
                    0,
                    48,
                );
                assert(record.header == crate::record::FileRecordHeader::read_spec(
                    rec.subrange(0, 48),
                ));
            }
        }
        match record.win32_file_name(self) {
            Ok(Some(found)) => Ok(found),
            Ok(None) => Err(NtfsError::NameNotFound),
            Err(e) => Err(e),
        }
    }

    /// The full path of the referenced record, resolved by following
    /// parent references until the root directory record.  The walk is
    /// bounded: a chain that never reaches the root — a corrupt volume
    /// can point parents in a cycle — is reported, not followed forever.
    /// Each hop is one record fetch and one name lookup, exact at their
    /// own contracts; the assembly of the collected names is pinned by
    /// [`join_path`].
    pub fn inode_path(&mut self, inode: &FileReference) -> (r: Result<String, NtfsError>)
        requires
            old(self).wf(),
        ensures
            final(self).wf(),
            final(self).contents() == old(self).contents(),
            r matches Ok(p) ==> p@.len() >= 1 && p@[0] == '\\',
            ({
                let runs = old(self).mft_runs();
                let c = old(self).contents();
                let rs = old(self).record_size_spec();
                let k = inode.record_number_spec() as int;
                let rec = crate::runs::stream_view(runs, c).subrange(k * rs, k * rs + rs);
                let hdr = crate::record::FileRecordHeader::read_spec(rec.subrange(0, 48));
                let raw = rec.subrange(0, hdr.real_size as int);
                let fnv = first_name_value(raw.skip(hdr.attribute_array_offset as int), 0);
                (crate::runs::runs_in_contents(runs, c) && !slot_free(runs, c, rs, k)
                    && slot_record_ok(runs, c, rs, k) && inode.record_number_spec()
                    < crate::reference::RECORD_NUMBER_LIMIT && hdr.attribute_array_offset
                    <= hdr.real_size && (fnv matches Some(Some(v)))) ==> match r {
                    Ok(p) => ({
                        // the path ends with a separator and the inode's
                        // own decoded name
                        let nm = crate::wide::utf16_str_of(
                            wide_units(
                                fnv.unwrap().unwrap().subrange(
                                    66,
                                    66 + 2 * crate::names::FileNameHeader::read_spec(
                                        fnv.unwrap().unwrap().subrange(0, 66),
                                    ).len,
                                ),
                            ),
                        );
                        &&& p@.len() >= 1 + nm.len()
                        &&& p@.subrange(p@.len() - nm.len(), p@.len() as int) == nm
                        &&& p@[p@.len() - nm.len() - 1] == '\\'
                    }),
                    Err(e) => true,
                }
            }),
    {
        let ghost name0 = ({
            let runs = old(self).mft_runs();
            let c = old(self).contents();
            let rs = old(self).record_size_spec();
            let k = inode.record_number_spec() as int;
            let rec = crate::runs::stream_view(runs, c).subrange(k * rs, k * rs + rs);
            let hdr = crate::record::FileRecordHeader::read_spec(rec.subrange(0, 48));
            let raw = rec.subrange(0, hdr.real_size as int);
            let fnv = first_name_value(raw.skip(hdr.attribute_array_offset as int), 0);
            crate::wide::utf16_str_of(
                wide_units(
                    fnv.unwrap().unwrap().subrange(
                        66,
                        66 + 2 * crate::names::FileNameHeader::read_spec(
                            fnv.unwrap().unwrap().subrange(0, 66),
                        ).len,
                    ),
                ),
            )
        });
        let ghost hop0 = ({
            let runs = old(self).mft_runs();
            let c = old(self).contents();
            let rs = old(self).record_size_spec();
            let k = inode.record_number_spec() as int;
            let rec = crate::runs::stream_view(runs, c).subrange(k * rs, k * rs + rs);
            let hdr = crate::record::FileRecordHeader::read_spec(rec.subrange(0, 48));
            let raw = rec.subrange(0, hdr.real_size as int);
            let fnv = first_name_value(raw.skip(hdr.attribute_array_offset as int), 0);
            crate::runs::runs_in_contents(runs, c) && !slot_free(runs, c, rs, k)
                && slot_record_ok(runs, c, rs, k) && inode.record_number_spec()
                < crate::reference::RECORD_NUMBER_LIMIT && hdr.attribute_array_offset
                <= hdr.real_size && (fnv matches Some(Some(v)))
        });
        let mut parts: Vec<String> = Vec::new();
        let mut current: FileReference = *inode;
        let mut depth: u32 = 0;
        let mut done: bool = false;
        while depth < PATH_DEPTH_LIMIT && !done
            invariant
                self.wf(),
                self.contents() == old(self).contents(),
                self.mft_runs() == old(self).mft_runs(),
                self.record_size_spec() == old(self).record_size_spec(),
                depth <= PATH_DEPTH_LIMIT,
                parts@.len() == 0 ==> current == *inode && !done,
                done ==> parts@.len() > 0,
                hop0 && parts@.len() > 0 ==> parts@[0]@ == name0,
            decreases PATH_DEPTH_LIMIT - depth, (if done { 0int } else { 1int }),
        {
            let (header, name) = match self.inode_name(&current) {
                Ok(v) => v,
                Err(e) => {
                    return Err(e);
                },
            };
            parts.push(name);
            if header.parent_reference.record_number() == ROOT_RECORD {
                done = true;
            } else {
                current = header.parent_reference;
                depth = depth + 1;
            }
        }
        if !done {
            return Err(NtfsError::PathTooDeep);
        }
        let path = join_path(&parts);
        proof {
            if hop0 {
                lemma_join_parts_tail(parts@.map_values(|s: String| s@));
                assert(parts@.map_values(|s: String| s@).first() == parts@[0]@);
            }
        }
        Ok(path)
    }
}


impl AttributeReader {
    /// Reads up to `n` bytes from whichever stream backs the attribute;
    /// the device is only touched for non-resident content.
    pub fn read<D: Disk>(&mut self, fs: &mut NTFileSystem<D>, n: usize) -> (r: Result<
        Vec<u8>,
        NtfsError,
    >)
        requires
            old(self).wf(),
            old(fs).wf(),
        ensures
            final(self).wf(),
            final(fs).wf(),
            final(fs).contents() == old(fs).contents(),
            final(fs).mft_runs() == old(fs).mft_runs(),
            final(fs).record_size_spec() == old(fs).record_size_spec(),
            (*old(self)) is Resident ==> (*final(self)) is Resident && *final(fs) == *old(fs)
                && r is Ok,
            r matches Ok(v) ==> v@.len() <= n,
            r matches Ok(v) ==> match (*old(self), *final(self)) {
                (AttributeReader::Resident(pre), AttributeReader::Resident(post)) => {
                    &&& post.data_view() == pre.data_view()
                    &&& v@ == pre.data_view().subrange(pre.pos_spec(), pre.pos_spec() + v@.len())
                    &&& post.pos_spec() == pre.pos_spec() + v@.len()
                    &&& v@.len() == (if pre.pos_spec() + n <= pre.data_view().len() {
                        n as int
                    } else {
                        pre.data_view().len() - pre.pos_spec()
                    })
                },
                (AttributeReader::NonResident(pre), AttributeReader::NonResident(post)) => {
                    &&& post.runs_view() == pre.runs_view()
                    &&& post.pos_spec() == pre.pos_spec() + v@.len()
                    &&& (v@.len() == 0 <==> n == 0 || pre.end_of_stream(old(fs).contents()))
                    &&& crate::runs::runs_in_contents(pre.runs_view(), old(fs).contents()) ==> v@
                        == crate::runs::stream_view(pre.runs_view(), old(fs).contents()).subrange(
                        pre.pos_spec(),
                        pre.pos_spec() + v@.len(),
                    )
                },
                _ => false,
            },
    {
        match self {
            AttributeReader::Resident(base) => Ok(base.read(n)),
            AttributeReader::NonResident(base) => base.read(&mut fs.disk, n),
        }
    }

    /// Reads until `n` bytes have arrived or the stream has nothing
    /// more to give.  Resident content owes the exact bytes: the shorter
    /// of the request and what remains of the held value.
    #[verifier::loop_isolation(true)]
    pub fn read_exact<D: Disk>(&mut self, fs: &mut NTFileSystem<D>, n: usize) -> (r: Result<
        Vec<u8>,
        NtfsError,
    >)
        requires
            old(self).wf(),
            old(fs).wf(),
        ensures
            final(self).wf(),
            final(fs).wf(),
            final(fs).contents() == old(fs).contents(),
            final(fs).mft_runs() == old(fs).mft_runs(),
            final(fs).record_size_spec() == old(fs).record_size_spec(),
            (*old(self)) is Resident ==> r is Ok,
            r matches Ok(v) ==> v@.len() <= n,
            r matches Ok(v) ==> match (*old(self), *final(self)) {
                (AttributeReader::Resident(pre), AttributeReader::Resident(post)) => {
                    &&& post.data_view() == pre.data_view()
                    &&& v@ == pre.data_view().subrange(pre.pos_spec(), pre.pos_spec() + v@.len())
                    &&& post.pos_spec() == pre.pos_spec() + v@.len()
                    &&& v@.len() == (if pre.pos_spec() + n <= pre.data_view().len() {
                        n as int
                    } else {
                        pre.data_view().len() - pre.pos_spec()
                    })
                },
                (AttributeReader::NonResident(pre), AttributeReader::NonResident(post)) => {
                    &&& post.runs_view() == pre.runs_view()
                    &&& post.pos_spec() == pre.pos_spec() + v@.len()
                    &&& crate::runs::runs_in_contents(pre.runs_view(), old(fs).contents()) ==> v@
                        == crate::runs::stream_view(pre.runs_view(), old(fs).contents()).subrange(
                        pre.pos_spec(),
                        pre.pos_spec() + v@.len(),
                    )
                },
                _ => false,
            },
    {
        proof {
            if (*self) is Resident {
                let pre = (*self)->Resident_0;
                pre.position_in_bounds();
                assert(pre.data_view().subrange(pre.pos_spec(), pre.pos_spec())
                    =~= Seq::<u8>::empty());
            } else {
                let pre = (*self)->NonResident_0;
                pre.pos_in_range();
                if crate::runs::runs_in_contents(pre.runs_view(), fs.contents()) {
                    crate::runs::lemma_stream_view_len(pre.runs_view(), fs.contents());
                    assert(crate::runs::stream_view(pre.runs_view(), fs.contents()).subrange(
                        pre.pos_spec(),
                        pre.pos_spec(),
                    ) =~= Seq::<u8>::empty());
                }
            }
        }
        let mut out: Vec<u8> = Vec::new();
        loop
            invariant
                (*old(self)).wf(),
                self.wf(),
                fs.wf(),
                fs.contents() == old(fs).contents(),
                fs.mft_runs() == old(fs).mft_runs(),
                fs.record_size_spec() == old(fs).record_size_spec(),
                out@.len() <= n,
                match (*old(self), *self) {
                    (AttributeReader::Resident(pre), AttributeReader::Resident(cur)) => {
                        &&& cur.data_view() == pre.data_view()
                        &&& out@ == pre.data_view().subrange(
                            pre.pos_spec(),
                            pre.pos_spec() + out@.len(),
                        )
                        &&& cur.pos_spec() == pre.pos_spec() + out@.len()
                    },
                    (AttributeReader::NonResident(pre), AttributeReader::NonResident(cur)) => {
                        &&& cur.runs_view() == pre.runs_view()
                        &&& cur.pos_spec() == pre.pos_spec() + out@.len()
                        &&& crate::runs::runs_in_contents(pre.runs_view(), old(fs).contents())
                            ==> out@ == crate::runs::stream_view(
                            pre.runs_view(),
                            old(fs).contents(),
                        ).subrange(pre.pos_spec(), pre.pos_spec() + out@.len())
                    },
                    _ => false,
                },
            ensures
                out@.len() <= n,
                match (*old(self), *self) {
                    (AttributeReader::Resident(pre), AttributeReader::Resident(cur)) => {
                        &&& cur.data_view() == pre.data_view()
                        &&& out@ == pre.data_view().subrange(
                            pre.pos_spec(),
                            pre.pos_spec() + out@.len(),
                        )
                        &&& cur.pos_spec() == pre.pos_spec() + out@.len()
                        &&& out@.len() == (if pre.pos_spec() + n <= pre.data_view().len() {
                            n as int
                        } else {
                            pre.data_view().len() - pre.pos_spec()
                        })
                    },
                    (AttributeReader::NonResident(pre), AttributeReader::NonResident(cur)) => {
                        &&& cur.runs_view() == pre.runs_view()
                        &&& cur.pos_spec() == pre.pos_spec() + out@.len()
                        &&& crate::runs::runs_in_contents(pre.runs_view(), old(fs).contents())
                            ==> out@ == crate::runs::stream_view(
                            pre.runs_view(),
                            old(fs).contents(),
                        ).subrange(pre.pos_spec(), pre.pos_spec() + out@.len())
                    },
                    _ => false,
                },
            decreases n - out@.len(),
        {
            let have: usize = out.len();
            proof {
                if (*self) is Resident {
                    (*self)->Resident_0.position_in_bounds();
                }
            }
            if have == n {
                break ;
            }
            let piece = match self.read(fs, n - have) {
                Ok(v) => v,
                Err(e) => {
                    return Err(e);
                },
            };
            proof {
                if (*self) is Resident {
                    (*self)->Resident_0.position_in_bounds();
                }
            }
            if piece.len() == 0 {
                break ;
            }
            let ghost pre_out = out@;
            let ghost piece_view = piece@;
            crate::flat::StoreExt::store_bytes(&mut out, piece.as_slice());
            proof {
                if (*old(self)) is Resident {
                    let pre = (*old(self))->Resident_0;
                    let cur = (*self)->Resident_0;
                    pre.position_in_bounds();
                    cur.position_in_bounds();
                    crate::flat::lemma_adjacent_subranges(
                        pre.data_view(),
                        pre.pos_spec(),
                        pre_out,
                        piece_view,
                    );
                } else {
                    let pre = (*old(self))->NonResident_0;
                    let cur = (*self)->NonResident_0;
                    pre.pos_in_range();
                    cur.pos_in_range();
                    if crate::runs::runs_in_contents(pre.runs_view(), old(fs).contents()) {
                        crate::runs::lemma_stream_view_len(pre.runs_view(), old(fs).contents());
                        crate::flat::lemma_adjacent_subranges(
                            crate::runs::stream_view(pre.runs_view(), old(fs).contents()),
                            pre.pos_spec(),
                            pre_out,
                            piece_view,
                        );
                    }
                }
            }
        }
        Ok(out)
    }
}

/// The value bytes of the first file-name attribute a record walk
/// accepts: type matches, the value is resident and well formed, and
/// its namespace is not DOS-only.  `Some(None)` means the walk ran out
/// of attributes with none acceptable; the outer `None` marks a walk
/// the resident world cannot decide — a malformed attribute, or a
/// non-resident name value whose bytes live on the device.
pub open spec fn first_name_value(data: Seq<u8>, pos: int) -> Option<Option<Seq<u8>>>
    decreases data.len() - pos,
    when 0 <= pos <= data.len()
{
    if data.len() - pos <= 8 {
        Some(None)
    } else if pos + 16 > data.len() {
        None
    } else {
        let h = AttributeHeader::read_spec(data.subrange(pos, pos + 16));
        if h.len < 16 || pos + h.len > data.len() {
            None
        } else if h.ty != ATTR_FILE_NAME {
            first_name_value(data, pos + h.len)
        } else if h.non_resident != 0 {
            None
        } else {
            let araw = data.subrange(pos, pos + h.len);
            if araw.len() < 24 {
                None
            } else {
                let info = ResidentHeader::read_spec(araw.subrange(16, 24));
                if info.value_offset + info.value_len > araw.len() {
                    None
                } else {
                    let value = araw.subrange(
                        info.value_offset as int,
                        info.value_offset + info.value_len,
                    );
                    if value.len() < 66 {
                        None
                    } else {
                        let fh = crate::names::FileNameHeader::read_spec(value.subrange(0, 66));
                        if (value.len() - 66) / 2 != fh.len {
                            None
                        } else if fh.namespace == NAMESPACE_DOS {
                            first_name_value(data, pos + h.len)
                        } else {
                            Some(Some(value))
                        }
                    }
                }
            }
        }
    }
}

impl FileRecord {
    /// The record's canonical display name: the first file-name
    /// attribute whose namespace is not DOS-only, its content
    /// materialized through the volume and parsed.  A record may carry
    /// several names; the DOS-only short name never stands for it.
    /// Where the walk stays in the resident, well-formed world,
    /// [`first_name_value`] pins the result exactly; a name value held
    /// in non-resident clusters is materialized from the device (one
    /// longer than 65536 bytes is refused as out of bounds), and a
    /// malformed attribute ends the record with its format error.
    #[verifier::loop_isolation(true)]
    #[verifier::rlimit(60)]
    pub fn win32_file_name<D: Disk>(&self, fs: &mut NTFileSystem<D>) -> (r: Result<
        Option<(FileNameHeader, String)>,
        NtfsError,
    >)
        requires
            old(fs).wf(),
        ensures
            final(fs).wf(),
            final(fs).contents() == old(fs).contents(),
            final(fs).mft_runs() == old(fs).mft_runs(),
            final(fs).record_size_spec() == old(fs).record_size_spec(),
            r matches Ok(Some((h, s))) ==> h.namespace != NAMESPACE_DOS,
            ({
                let data = self.raw_view().skip(self.header.attribute_array_offset as int);
                let fnv = first_name_value(data, 0);
                &&& (self.header.attribute_array_offset <= self.raw_view().len() && (
                fnv matches Some(Some(value)))) ==> match r {
                    Ok(Some((h, s))) => h == crate::names::FileNameHeader::read_spec(
                        fnv.unwrap().unwrap().subrange(0, 66),
                    ) && s@ == crate::wide::utf16_str_of(
                        wide_units(fnv.unwrap().unwrap().subrange(66, 66 + 2 * h.len)),
                    ),
                    Ok(None) => false,
                    Err(e) => e == NtfsError::InvalidName,
                }
                &&& (self.header.attribute_array_offset <= self.raw_view().len() && (
                fnv matches Some(None))) ==> r matches Ok(None)
            }),
    {
        let mut attrs = match self.attributes() {
            Ok(it) => it,
            Err(e) => {
                return Err(e);
            },
        };
        let ghost data = self.raw_view().skip(self.header.attribute_array_offset as int);
        let ghost fnv0 = first_name_value(data, 0);
        loop
            invariant
                fs.wf(),
                fs.contents() == old(fs).contents(),
                fs.mft_runs() == old(fs).mft_runs(),
                fs.record_size_spec() == old(fs).record_size_spec(),
                attrs.data_view() == data,
                data == self.raw_view().skip(self.header.attribute_array_offset as int),
                fnv0 == first_name_value(data, 0),
                0 <= attrs.pos_spec() <= data.len(),
                fnv0 == first_name_value(data, attrs.pos_spec()) || fnv0 is None,
            ensures
                fs.wf(),
                fs.contents() == old(fs).contents(),
            decreases attrs.data_view().len() - attrs.pos_spec(),
        {
            let ghost p = attrs.pos_spec();
            let attr = match attrs.next() {
                Ok(Some(a)) => a,
                Ok(None) => {
                    proof {
                        assert(first_name_value(data, p) == Some(Option::<Seq<u8>>::None));
                    }
                    return Ok(None);
                },
                Err(e) => {
                    proof {
                        if data.len() - p > 8 {
                            assert(first_name_value(data, p) is None);
                        }
                    }
                    return Err(e);
                },
            };
            let ghost h = attr.header;
            proof {
                assert(data.len() - p > 8 && p + 16 <= data.len());
                assert(h == AttributeHeader::read_spec(data.subrange(p, p + 16)));
                assert(16 <= h.len && p + h.len <= data.len());
                assert(attr.raw_view() == data.subrange(p, p + h.len));
            }
            if attr.ty() != ATTR_FILE_NAME {
                proof {
                    assert(first_name_value(data, p) == first_name_value(data, p + h.len));
                }
                continue ;
            }
            let content = match attr.content() {
                Ok(c) => c,
                Err(e) => {
                    proof {
                        assert(first_name_value(data, p) is None);
                    }
                    return Err(e);
                },
            };
            match content {
                AttributeContent::NonResident(runs_bytes, vcns, length) => {
                    // the name's bytes live on the device: nothing the
                    // record's own bytes can decide
                    proof {
                        assert(first_name_value(data, p) is None);
                    }
                    if length > 65536 {
                        return Err(NtfsError::OutOfBounds);
                    }
                    let size: usize = length as usize;
                    let mut reader = match fs.open(
                        AttributeContent::NonResident(runs_bytes, vcns, length),
                    ) {
                        Ok(r) => r,
                        Err(e) => {
                            return Err(e);
                        },
                    };
                    let bytes = match reader.read_exact(fs, size) {
                        Ok(v) => v,
                        Err(e) => {
                            return Err(e);
                        },
                    };
                    let name = match FileName::parse(bytes.as_slice()) {
                        Ok(n) => n,
                        Err(e) => {
                            return Err(e);
                        },
                    };
                    if name.header.namespace == NAMESPACE_DOS {
                        continue ;
                    }
                    let text = match name.name() {
                        Ok(s) => s,
                        Err(e) => {
                            return Err(e);
                        },
                    };
                    return Ok(Some((name.header, text)));
                },
                AttributeContent::Resident(v) => {
                    let ghost vview = v@;
                    proof {
                        assert(attr.raw_view().len() >= 24);
                        assert(vview == attr.raw_view().subrange(
                            ResidentHeader::read_spec(attr.raw_view().subrange(16, 24)).value_offset as int,
                            ResidentHeader::read_spec(attr.raw_view().subrange(16, 24)).value_offset
                                + ResidentHeader::read_spec(attr.raw_view().subrange(16, 24)).value_len,
                        ));
                    }
                    let size: usize = v.len();
                    let mut reader = match fs.open(AttributeContent::Resident(v)) {
                        Ok(r) => r,
                        Err(e) => {
                            proof {
                                assert(false);
                            }
                            return Err(e);
                        },
                    };
                    let bytes = match reader.read_exact(fs, size) {
                        Ok(v) => v,
                        Err(e) => {
                            proof {
                                assert(false);
                            }
                            return Err(e);
                        },
                    };
                    proof {
                        assert(bytes@ =~= vview);
                    }
                    let name = match FileName::parse(bytes.as_slice()) {
                        Ok(n) => n,
                        Err(e) => {
                            proof {
                                assert(first_name_value(data, p) is None);
                            }
                            return Err(e);
                        },
                    };
                    if name.header.namespace == NAMESPACE_DOS {
                        proof {
                            assert(first_name_value(data, p) == first_name_value(
                                data,
                                p + h.len,
                            ));
                        }
                        continue ;
                    }
                    proof {
                        assert(first_name_value(data, p) == Some(Some(vview)));
                    }
                    let text = match name.name() {
                        Ok(s) => s,
                        Err(e) => {
                            return Err(e);
                        },
                    };
                    return Ok(Some((name.header, text)));
                },
            }
        }
    }
}

/// Whether the record stream's slot `i` is deallocated: its first four
/// bytes, where a live record carries its signature, are zero.
pub open spec fn slot_free(runs: Seq<(u64, u64)>, contents: Seq<u8>, rs: u64, i: int) -> bool {
    crate::flat::le_value(
        crate::runs::stream_view(runs, contents).subrange(i * rs, i * rs + 4),
    ) == 0
}

/// Whether the record stream's slot `i` decodes as a record this volume
/// accepts: the signature, a real size within the slot, and an
/// allocated size equal to the configured record size.
pub open spec fn slot_record_ok(runs: Seq<(u64, u64)>, contents: Seq<u8>, rs: u64, i: int) -> bool {
    let rec = crate::runs::stream_view(runs, contents).subrange(i * rs, i * rs + rs);
    let hdr = crate::record::FileRecordHeader::read_spec(rec.subrange(0, 48));
    &&& hdr.magic == crate::record::RECORD_MAGIC
    &&& 48 <= hdr.real_size <= rs
    &&& hdr.allocated_size == rs
}

/// Sequential or by-reference access to MFT records through the MFT's
/// own data stream, skipping deallocated slots and validating sizes.
pub struct MFTReader {
    raw: DataRunReader,
    buffer: Vec<u8>,
    buf_start: usize,
    record_size: u64,
    capacity: usize,
    current_index: u64,
}

impl MFTReader {
    /// The slot index the next record will be read from.
    pub closed spec fn index_spec(&self) -> int {
        self.current_index as int
    }

    /// The configured size of one record.
    pub closed spec fn record_size_spec(&self) -> u64 {
        self.record_size
    }

    /// The run-backed stream the records come from.
    pub closed spec fn stream(&self) -> DataRunReader {
        self.raw
    }

    /// How many read-ahead bytes sit buffered and unconsumed.
    pub closed spec fn buffered_spec(&self) -> int {
        self.buffer@.len() - self.buf_start
    }

    /// The logical stream offset of the next unconsumed byte.
    pub open spec fn stream_pos_spec(&self) -> int {
        self.stream().pos_spec() - self.buffered_spec()
    }

    /// The buffered, unconsumed bytes are the record stream's own bytes
    /// at the cursor, as far as the extents lie inside the device.
    pub closed spec fn synced(&self, contents: Seq<u8>) -> bool {
        crate::runs::runs_in_contents(self.raw.runs_view(), contents) ==> {
            &&& 0 <= self.stream_pos_spec()
            &&& self.stream_pos_spec() + self.buffered_spec() <= crate::runs::runs_prefix_len(
                self.raw.runs_view(),
                self.raw.runs_view().len() as int,
            )
            &&& self.buffer@.skip(self.buf_start as int) == crate::runs::stream_view(
                self.raw.runs_view(),
                contents,
            ).subrange(self.stream_pos_spec(), self.stream_pos_spec() + self.buffered_spec())
        }
    }

    /// The stream stays well formed, buffered bytes stay inside the
    /// buffer, the record size both holds a header and fits a buffer
    /// index, and the cursor always rests on a slot boundary: the next
    /// unconsumed byte sits `current index * record size` bytes into the
    /// record stream.
    pub closed spec fn wf(&self) -> bool {
        &&& self.raw.wf()
        &&& self.buf_start <= self.buffer@.len()
        &&& 48 <= self.record_size <= u32::MAX
        &&& self.record_size <= self.capacity <= usize::MAX
        &&& self.raw.pos_spec() - (self.buffer@.len() - self.buf_start) == self.current_index
            * self.record_size
    }

    /// A reader over the given record stream, buffering `capacity`
    /// bytes' worth of records per device round trip.  The stream is
    /// taken at its front.
    pub fn new(raw: DataRunReader, record_size: u64, capacity: usize) -> (r: MFTReader)
        requires
            raw.wf(),
            raw.pos_spec() == 0,
            48 <= record_size <= u32::MAX,
            record_size <= capacity,
        ensures
            r.wf(),
            r.record_size_spec() == record_size,
            r.index_spec() == 0,
            r.stream() == raw,
            r.stream_pos_spec() == 0,
            forall|contents: Seq<u8>| #[trigger] r.synced(contents),
    {
        proof {
            raw.pos_in_range();
        }
        let m = MFTReader {
            raw,
            buffer: Vec::new(),
            buf_start: 0,
            record_size,
            capacity,
            current_index: 0,
        };
        proof {
            assert(m.current_index * m.record_size == 0) by (nonlinear_arith)
                requires
                    m.current_index == 0,
            ;
            assert forall|contents: Seq<u8>| #[trigger] m.synced(contents) by {
                if crate::runs::runs_in_contents(m.stream().runs_view(), contents) {
                    crate::runs::lemma_stream_view_len(m.stream().runs_view(), contents);
                    assert(m.buffer@.skip(0) =~= Seq::<u8>::empty());
                    assert(crate::runs::stream_view(m.stream().runs_view(), contents).subrange(
                        m.stream_pos_spec(),
                        m.stream_pos_spec(),
                    ) =~= Seq::<u8>::empty());
                }
            }
        }
        m
    }

    /// Points the reader at the referenced slot: the record stream is
    /// repositioned to `record_number * record_size` and the buffer
    /// dropped; the device itself is repositioned by the next read.  A
    /// slot beyond the mapped extents is refused; the reader is then
    /// left rewound at slot zero.
    #[verifier::rlimit(60)]
    pub fn seek(&mut self, inode: &FileReference) -> (r: Result<(), NtfsError>)
        requires
            old(self).wf(),
        ensures
            final(self).wf(),
            final(self).record_size_spec() == old(self).record_size_spec(),
            final(self).stream().runs_view() == old(self).stream().runs_view(),
            final(self).buffered_spec() == 0,
            r is Ok <==> inode.record_number_spec() * old(self).record_size_spec()
                <= old(self).stream().total_spec() && inode.record_number_spec()
                * old(self).record_size_spec() <= u64::MAX,
            r is Ok ==> final(self).index_spec() == inode.record_number_spec()
                && final(self).stream_pos_spec() == inode.record_number_spec()
                * old(self).record_size_spec(),
            r is Err ==> r == Err::<(), NtfsError>(NtfsError::SeekOutOfRange)
                && final(self).index_spec() == 0 && final(self).stream_pos_spec() == 0,
            forall|contents: Seq<u8>| #[trigger] final(self).synced(contents),
    {
        let number = inode.record_number();
        proof {
            assert((number as u128) * (self.record_size as u128) <= u128::MAX)
                by (nonlinear_arith)
                requires
                    number <= u64::MAX && self.record_size <= u64::MAX,
            ;
            self.raw.pos_in_range();
        }
        let wide: u128 = number as u128 * self.record_size as u128;
        let target_ok: bool = wide <= u64::MAX as u128;
        let sought = if target_ok {
            self.raw.seek(SeekPos::Start(wide as u64))
        } else {
            Err(NtfsError::SeekOutOfRange)
        };
        let outcome = match sought {
            Ok(_) => {
                self.current_index = number;
                self.buffer = Vec::new();
                self.buf_start = 0;
                Ok(())
            },
            Err(e) => {
                // the target lies outside the mapped extents: rest at a
                // definite place instead of a half-walked one
                match self.raw.seek(SeekPos::Start(0)) {
                    Ok(_) => (),
                    Err(_) => {
                        proof {
                            assert(false);
                        }
                    },
                }
                self.current_index = 0;
                self.buffer = Vec::new();
                self.buf_start = 0;
                Err(NtfsError::SeekOutOfRange)
            },
        };
        proof {
            self.raw.pos_in_range();
            assert(self.wf());
            assert forall|contents: Seq<u8>| #[trigger] self.synced(contents) by {
                if crate::runs::runs_in_contents(self.stream().runs_view(), contents) {
                    crate::runs::lemma_stream_view_len(self.stream().runs_view(), contents);
                    assert(self.buffer@.skip(0) =~= Seq::<u8>::empty());
                    assert(crate::runs::stream_view(self.stream().runs_view(), contents).subrange(
                        self.stream_pos_spec(),
                        self.stream_pos_spec(),
                    ) =~= Seq::<u8>::empty());
                }
            }
        }
        outcome
    }

    /// The next allocated record: refills the buffer from the stream
    /// when drained, skips slots whose first word is zero, and decodes
    /// the record at the cursor.  The returned reference packs the slot
    /// index with the record's own sequence number, and the consumed
    /// bytes end exactly one slot past it; a record whose allocated size
    /// disagrees with the volume's record size is refused.  Nothing
    /// comes back only once the stream is drained: the mapped extents
    /// are exhausted, the next extent byte lies past the device's end,
    /// or the cursor rests on a zero-length extent.
    #[verifier::loop_isolation(true)]
    pub fn next<D: Disk>(&mut self, fs: &mut NTFileSystem<D>) -> (r: Result<
        Option<(FileReference, FileRecord)>,
        NtfsError,
    >)
        requires
            old(self).wf(),
            old(fs).wf(),
            old(self).synced(old(fs).contents()),
        ensures
            final(self).wf(),
            final(fs).wf(),
            final(fs).contents() == old(fs).contents(),
            final(self).record_size_spec() == old(self).record_size_spec(),
            final(self).stream().runs_view() == old(self).stream().runs_view(),
            final(self).synced(final(fs).contents()),
            final(fs).mft_runs() == old(fs).mft_runs(),
            final(fs).record_size_spec() == old(fs).record_size_spec(),
            r matches Ok(Some((reference, record))) ==> ({
                &&& record.header == crate::record::FileRecordHeader::read_spec(
                    record.raw_view().subrange(0, 48),
                )
                &&& record.header.magic == crate::record::RECORD_MAGIC
                &&& record.header.allocated_size == old(self).record_size_spec()
                &&& 48 <= record.header.real_size <= record.header.allocated_size
                &&& record.raw_view().len() == record.header.real_size
                &&& reference.sequence_number_spec() == record.header.sequence_number
                &&& reference.record_number_spec() >= old(self).index_spec()
                &&& final(self).index_spec() == reference.record_number_spec() + 1
                &&& final(self).stream_pos_spec() == (reference.record_number_spec() + 1)
                    * old(self).record_size_spec()
                &&& crate::runs::runs_in_contents(old(self).stream().runs_view(), old(fs).contents())
                    ==> record.raw_view() == crate::runs::stream_view(
                    old(self).stream().runs_view(),
                    old(fs).contents(),
                ).subrange(
                    reference.record_number_spec() * old(self).record_size_spec(),
                    reference.record_number_spec() * old(self).record_size_spec()
                        + record.header.real_size,
                ) && (reference.record_number_spec() + 1) * old(self).record_size_spec()
                    <= crate::runs::runs_prefix_len(
                    old(self).stream().runs_view(),
                    old(self).stream().runs_view().len() as int,
                )
                &&& crate::runs::runs_in_contents(old(self).stream().runs_view(), old(fs).contents())
                    ==> forall|i: int|
                    old(self).index_spec() <= i < reference.record_number_spec()
                        ==> #[trigger] slot_free(
                        old(self).stream().runs_view(),
                        old(fs).contents(),
                        old(self).record_size_spec(),
                        i,
                    )
            }),
            r matches Ok(None) ==> final(self).buffered_spec() == 0 && ({
                let s = final(self).stream();
                ||| s.end_of_stream(final(fs).contents())
                ||| (0 <= s.index_spec() < s.runs_view().len() && s.runs_view()[s.index_spec()].1
                    == 0)
            }),
            r matches Ok(None) ==> (crate::runs::runs_in_contents(
                old(self).stream().runs_view(),
                old(fs).contents(),
            ) ==> forall|i: int|
                old(self).index_spec() <= i < final(self).index_spec() ==> #[trigger] slot_free(
                    old(self).stream().runs_view(),
                    old(fs).contents(),
                    old(self).record_size_spec(),
                    i,
                )),
            r matches Err(e) ==> e == NtfsError::Device || e == NtfsError::ShortRead || e
                == NtfsError::RecordSizeMismatch || e == NtfsError::OutOfBounds || e
                == NtfsError::BadSignature,
            (old(self).buffered_spec() == 0 && (old(self).stream().runs_view().len() == 0 || (
            old(self).stream().index_spec() + 1 == old(self).stream().runs_view().len() && old(
                self,
            ).stream().offset_spec() == old(self).stream().runs_view()[old(
                self,
            ).stream().index_spec()].1))) ==> r matches Ok(None),
            (crate::runs::runs_in_contents(old(self).stream().runs_view(), old(fs).contents())
                && old(self).buffered_spec() >= old(self).record_size_spec() && !slot_free(
                old(self).stream().runs_view(),
                old(fs).contents(),
                old(self).record_size_spec(),
                old(self).index_spec(),
            ) && slot_record_ok(
                old(self).stream().runs_view(),
                old(fs).contents(),
                old(self).record_size_spec(),
                old(self).index_spec(),
            ) && old(self).index_spec() < crate::reference::RECORD_NUMBER_LIMIT) ==> (
            r matches Ok(Some(t))),
    {
        let ghost at_stream_end = old(self).buffered_spec() == 0 && (old(
            self,
        ).stream().runs_view().len() == 0 || (old(self).stream().index_spec() + 1 == old(
            self,
        ).stream().runs_view().len() && old(self).stream().offset_spec() == old(
            self,
        ).stream().runs_view()[old(self).stream().index_spec()].1));
        let ghost slot_in_buffer = crate::runs::runs_in_contents(
            old(self).stream().runs_view(),
            old(fs).contents(),
        ) && old(self).buffered_spec() >= old(self).record_size_spec() && !slot_free(
            old(self).stream().runs_view(),
            old(fs).contents(),
            old(self).record_size_spec(),
            old(self).index_spec(),
        ) && slot_record_ok(
            old(self).stream().runs_view(),
            old(fs).contents(),
            old(self).record_size_spec(),
            old(self).index_spec(),
        ) && old(self).index_spec() < crate::reference::RECORD_NUMBER_LIMIT;
        loop
            invariant
                self.wf(),
                fs.wf(),
                fs.contents() == old(fs).contents(),
                fs.mft_runs() == old(fs).mft_runs(),
                fs.record_size_spec() == old(fs).record_size_spec(),
                self.record_size == old(self).record_size,
                self.current_index >= old(self).current_index,
                self.raw.runs_view() == old(self).raw.runs_view(),
                self.synced(fs.contents()),
                at_stream_end == (old(self).buffered_spec() == 0 && (old(
                    self,
                ).stream().runs_view().len() == 0 || (old(self).stream().index_spec() + 1 == old(
                    self,
                ).stream().runs_view().len() && old(self).stream().offset_spec() == old(
                    self,
                ).stream().runs_view()[old(self).stream().index_spec()].1))),
                slot_in_buffer == (crate::runs::runs_in_contents(
                    old(self).stream().runs_view(),
                    old(fs).contents(),
                ) && old(self).buffered_spec() >= old(self).record_size_spec() && !slot_free(
                    old(self).stream().runs_view(),
                    old(fs).contents(),
                    old(self).record_size_spec(),
                    old(self).index_spec(),
                ) && slot_record_ok(
                    old(self).stream().runs_view(),
                    old(fs).contents(),
                    old(self).record_size_spec(),
                    old(self).index_spec(),
                ) && old(self).index_spec() < crate::reference::RECORD_NUMBER_LIMIT),
                at_stream_end ==> *self == *old(self),
                slot_in_buffer ==> *self == *old(self),
                crate::runs::runs_in_contents(self.raw.runs_view(), fs.contents())
                    ==> forall|i: int|
                    old(self).index_spec() <= i < self.index_spec() ==> #[trigger] slot_free(
                        self.raw.runs_view(),
                        fs.contents(),
                        self.record_size,
                        i,
                    ),
            ensures
                self.wf(),
                fs.wf(),
                fs.contents() == old(fs).contents(),
                fs.mft_runs() == old(fs).mft_runs(),
                fs.record_size_spec() == old(fs).record_size_spec(),
                self.record_size == old(self).record_size,
                self.current_index >= old(self).current_index,
                self.raw.runs_view() == old(self).raw.runs_view(),
                self.synced(fs.contents()),
                crate::runs::runs_in_contents(self.raw.runs_view(), fs.contents())
                    ==> forall|i: int|
                    old(self).index_spec() <= i < self.index_spec() ==> #[trigger] slot_free(
                        self.raw.runs_view(),
                        fs.contents(),
                        self.record_size,
                        i,
                    ),
                self.buffer@.len() - self.buf_start >= self.record_size,
                crate::flat::le_value(
                    self.buffer@.subrange(self.buf_start as int, self.buf_start + 4),
                ) != 0,
            decreases
                    self.raw.total_spec() - self.raw.pos_spec(),
                    self.buffer@.len() - self.buf_start,
        {
            let blen: usize = self.buffer.len();
            if blen == self.buf_start {
                let ghost pre_raw = self.raw;
                let filled = match self.raw.read(&mut fs.disk, self.capacity) {
                    Ok(v) => v,
                    Err(e) => {
                        return Err(e);
                    },
                };
                if filled.len() == 0 {
                    proof {
                        // the stream gave nothing back: show the final
                        // cursor rests at the stream's end (or on a
                        // zero-length extent it just stepped onto)
                        let s1 = self.raw;
                        let contents = fs.contents();
                        if pre_raw.runs_view().len() > 0 {
                            s1.cursor_in_runs();
                            let runs = pre_raw.runs_view();
                            let fresh = pre_raw.index_spec() + 1 < runs.len()
                                && pre_raw.offset_spec() == runs[pre_raw.index_spec()].1;
                            let i = if fresh {
                                pre_raw.index_spec() + 1
                            } else {
                                pre_raw.index_spec()
                            };
                            let o = if fresh {
                                0int
                            } else {
                                pre_raw.offset_spec()
                            };
                            assert(s1.index_spec() == i && s1.offset_spec() == o);
                            assert(o == runs[i].1 || runs[i].0 + o >= contents.len());
                            if o == runs[i].1 {
                                if o == 0 {
                                    assert(runs[i].1 == 0);
                                } else {
                                    assert(!fresh && i == pre_raw.index_spec());
                                    assert(!(i + 1 < runs.len()));
                                    assert(s1.end_of_stream(contents));
                                }
                            } else {
                                assert(s1.end_of_stream(contents));
                            }
                        }
                    }
                    return Ok(None);
                }
                let ghost flen = filled@.len() as int;
                proof {
                    self.raw.pos_in_range();
                }
                self.buffer = filled;
                self.buf_start = 0;
                proof {
                    if crate::runs::runs_in_contents(self.raw.runs_view(), fs.contents()) {
                        crate::runs::lemma_stream_view_len(self.raw.runs_view(), fs.contents());
                        assert(self.buffer@.skip(0) =~= self.buffer@);
                        assert(self.buffer@ == crate::runs::stream_view(
                            self.raw.runs_view(),
                            fs.contents(),
                        ).subrange(self.stream_pos_spec(), self.stream_pos_spec() + flen));
                    }
                }
            }
            let blen: usize = self.buffer.len();
            if blen - self.buf_start < self.record_size as usize {
                return Err(NtfsError::ShortRead);
            }
            let word = u32::load(self.buffer.as_slice(), self.buf_start);
            if word != 0 {
                proof {
                    crate::flat::lemma_le_value_bound(
                        self.buffer@.subrange(self.buf_start as int, self.buf_start + 4),
                    );
                }
                break ;
            }
            if self.current_index == u64::MAX {
                return Err(NtfsError::OutOfBounds);
            }
            proof {
                assert((self.current_index + 1) * self.record_size == self.current_index
                    * self.record_size + self.record_size) by (nonlinear_arith);
                if crate::runs::runs_in_contents(self.raw.runs_view(), fs.contents()) {
                    let sv = crate::runs::stream_view(self.raw.runs_view(), fs.contents());
                    crate::runs::lemma_stream_view_len(self.raw.runs_view(), fs.contents());
                    crate::record::lemma_sub_sub(
                        self.buffer@,
                        self.buf_start as int,
                        self.buffer@.len() - self.buf_start,
                        0,
                        4,
                    );
                    crate::record::lemma_sub_sub(sv, self.stream_pos_spec(), self.buffered_spec(), 0, 4);
                    crate::flat::lemma_le_value_bound(
                        self.buffer@.subrange(self.buf_start as int, self.buf_start + 4),
                    );
                    reveal_with_fuel(crate::flat::pow256, 5);
                    assert(slot_free(
                        self.raw.runs_view(),
                        fs.contents(),
                        self.record_size,
                        self.index_spec(),
                    ));
                }
            }
            let ghost pre = *self;
            self.current_index = self.current_index + 1;
            self.buf_start = self.buf_start + self.record_size as usize;
            proof {
                if crate::runs::runs_in_contents(self.raw.runs_view(), fs.contents()) {
                    let sv = crate::runs::stream_view(self.raw.runs_view(), fs.contents());
                    let rs = self.record_size as int;
                    crate::runs::lemma_stream_view_len(self.raw.runs_view(), fs.contents());
                    assert(self.buffer@.skip(self.buf_start as int) =~= pre.buffer@.skip(
                        pre.buf_start as int,
                    ).subrange(rs, pre.buffered_spec()));
                    crate::record::lemma_sub_sub(
                        sv,
                        pre.stream_pos_spec(),
                        pre.buffered_spec(),
                        rs,
                        pre.buffered_spec(),
                    );
                }
            }
        }
        let record_len: usize = self.record_size as usize;
        let _blen: usize = self.buffer.len();
        let piece = vstd::slice::slice_subrange(
            self.buffer.as_slice(),
            self.buf_start,
            self.buf_start + record_len,
        );
        proof {
            if crate::runs::runs_in_contents(self.raw.runs_view(), fs.contents()) {
                let sv = crate::runs::stream_view(self.raw.runs_view(), fs.contents());
                let sp = self.stream_pos_spec();
                let rs = self.record_size as int;
                crate::runs::lemma_stream_view_len(self.raw.runs_view(), fs.contents());
                crate::record::lemma_sub_sub(
                    self.buffer@,
                    self.buf_start as int,
                    self.buffer@.len() - self.buf_start,
                    0,
                    rs,
                );
                assert(piece@ == self.buffer@.skip(self.buf_start as int).subrange(0, rs));
                crate::record::lemma_sub_sub(sv, sp, self.buffered_spec(), 0, rs);
                assert(piece@ == sv.subrange(sp, sp + rs));
                crate::record::lemma_sub_sub(sv, sp, rs, 0, 48);
                assert(piece@.subrange(0, 48) == sv.subrange(sp, sp + rs).subrange(0, 48));
            }
        }
        let record = match FileRecord::parse(piece) {
            Ok(rec) => rec,
            Err(e) => {
                return Err(e);
            },
        };
        if record.header.allocated_size as u64 != self.record_size {
            return Err(NtfsError::RecordSizeMismatch);
        }
        if self.current_index >= crate::reference::RECORD_NUMBER_LIMIT {
            return Err(NtfsError::OutOfBounds);
        }
        let reference = FileReference::new(self.current_index, record.header.sequence_number);
        proof {
            assert((self.current_index + 1) * self.record_size == self.current_index
                * self.record_size + self.record_size) by (nonlinear_arith);
            if crate::runs::runs_in_contents(self.raw.runs_view(), fs.contents()) {
                let sv = crate::runs::stream_view(self.raw.runs_view(), fs.contents());
                let sp = self.stream_pos_spec();
                let rs = self.record_size as int;
                crate::record::lemma_sub_sub(sv, sp, rs, 0, record.header.real_size as int);
                assert(record.raw_view() == sv.subrange(sp, sp + record.header.real_size));
            }
        }
        let ghost pre = *self;
        self.current_index = self.current_index + 1;
        self.buf_start = self.buf_start + record_len;
        proof {
            if crate::runs::runs_in_contents(self.raw.runs_view(), fs.contents()) {
                let sv = crate::runs::stream_view(self.raw.runs_view(), fs.contents());
                let rs = self.record_size as int;
                crate::runs::lemma_stream_view_len(self.raw.runs_view(), fs.contents());
                assert(self.buffer@.skip(self.buf_start as int) =~= pre.buffer@.skip(
                    pre.buf_start as int,
                ).subrange(rs, pre.buffered_spec()));
                crate::record::lemma_sub_sub(
                    sv,
                    pre.stream_pos_spec(),
                    pre.buffered_spec(),
                    rs,
                    pre.buffered_spec(),
                );
            }
        }
        Ok(Some((reference, record)))
    }

    /// A point lookup: seeks straight to the referenced slot and decodes
    /// one record there, without disturbing the buffer a sequential scan
    /// would use next.  Deallocated slots after the target are skipped
    /// the way a scan skips them, and the consumed bytes end exactly one
    /// slot past the returned record.
    pub fn read<D: Disk>(&mut self, fs: &mut NTFileSystem<D>, inode: &FileReference) -> (r: Result<
        Option<(FileReference, FileRecord)>,
        NtfsError,
    >)
        requires
            old(self).wf(),
            old(fs).wf(),
        ensures
            final(self).wf(),
            final(fs).wf(),
            final(fs).contents() == old(fs).contents(),
            final(self).record_size_spec() == old(self).record_size_spec(),
            final(self).stream().runs_view() == old(self).stream().runs_view(),
            final(fs).mft_runs() == old(fs).mft_runs(),
            final(fs).record_size_spec() == old(fs).record_size_spec(),
            r matches Ok(Some((reference, record))) ==> ({
                &&& record.header == crate::record::FileRecordHeader::read_spec(
                    record.raw_view().subrange(0, 48),
                )
                &&& record.header.magic == crate::record::RECORD_MAGIC
                &&& record.header.allocated_size == old(self).record_size_spec()
                &&& 48 <= record.header.real_size <= record.header.allocated_size
                &&& record.raw_view().len() == record.header.real_size
                &&& reference.sequence_number_spec() == record.header.sequence_number
                &&& reference.record_number_spec() >= inode.record_number_spec()
                &&& final(self).index_spec() == reference.record_number_spec() + 1
                &&& final(self).stream_pos_spec() == (reference.record_number_spec() + 1)
                    * old(self).record_size_spec()
                &&& crate::runs::runs_in_contents(old(self).stream().runs_view(), old(fs).contents())
                    ==> record.raw_view() == crate::runs::stream_view(
                    old(self).stream().runs_view(),
                    old(fs).contents(),
                ).subrange(
                    reference.record_number_spec() * old(self).record_size_spec(),
                    reference.record_number_spec() * old(self).record_size_spec()
                        + record.header.real_size,
                ) && (reference.record_number_spec() + 1) * old(self).record_size_spec()
                    <= crate::runs::runs_prefix_len(
                    old(self).stream().runs_view(),
                    old(self).stream().runs_view().len() as int,
                )
                &&& crate::runs::runs_in_contents(old(self).stream().runs_view(), old(fs).contents())
                    ==> forall|i: int|
                    inode.record_number_spec() <= i < reference.record_number_spec()
                        ==> #[trigger] slot_free(
                        old(self).stream().runs_view(),
                        old(fs).contents(),
                        old(self).record_size_spec(),
                        i,
                    )
            }),
            r matches Ok(None) ==> final(self).buffered_spec() == 0 && ({
                let s = final(self).stream();
                ||| s.end_of_stream(final(fs).contents())
                ||| (0 <= s.index_spec() < s.runs_view().len() && s.runs_view()[s.index_spec()].1
                    == 0)
            }),
            r matches Err(e) ==> e == NtfsError::Device || e == NtfsError::ShortRead || e
                == NtfsError::RecordSizeMismatch || e == NtfsError::OutOfBounds || e
                == NtfsError::BadSignature || e == NtfsError::SeekOutOfRange,
    {
        match self.seek(inode) {
            Ok(()) => (),
            Err(e) => {
                return Err(e);
            },
        }
        self.next(fs)
    }
}

} // verus!
