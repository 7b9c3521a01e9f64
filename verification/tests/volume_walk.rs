//! Whole-volume walks over a synthetic MFT and backing store.
use ntfs_read::device::MemDisk;
use ntfs_read::error::NtfsError;
use ntfs_read::flat::FlatDataImplMut;
use ntfs_read::flat::StoreExt;
use ntfs_read::reference::FileReference;
use ntfs_read::names::FileNameHeader;
use ntfs_read::record::FileRecordHeader;
use ntfs_read::volume::NTFileSystem;
use ntfs_read::volume::VolumeGeometry;

const RECORD: usize = 1024;

/// A resident file-name attribute for the given parent and name.
fn name_attr(parent: u64, parent_seq: u16, name: &str, namespace: u8, id: u16) -> Vec<u8> {
    let units: Vec<u16> = name.encode_utf16().collect();
    let value_len: usize = 66 + 2 * units.len();
    let attr_len: usize = 16 + 8 + value_len;
    let mut a: Vec<u8> = Vec::new();
    a.store_u32(0x30);
    a.store_u16(attr_len as u16);
    a.store_u16(0);
    a.store_u8(0); // resident
    a.store_u8(0);
    a.store_u16(0);
    a.store_u16(0);
    a.store_u16(id);
    a.store_u32(value_len as u32);
    a.store_u16(24);
    a.store_u8(0);
    a.store_u8(0);
    FileNameHeader {
        parent_reference: FileReference::new(parent, parent_seq),
        c_time: 0,
        a_time: 0,
        m_time: 0,
        r_time: 0,
        allocated_size: 0,
        real_size: 0,
        flags: 0,
        reserved: 0,
        len: units.len() as u8,
        namespace,
    }
    .append_to(&mut a);
    for u in &units {
        a.store_u16(*u);
    }
    a
}

/// A non-resident data attribute holding the given run encoding.
fn data_attr(run_bytes: &[u8], last_vcn: u32, size: u64) -> Vec<u8> {
    let attr_len: usize = 16 + 48 + run_bytes.len();
    let mut a: Vec<u8> = Vec::new();
    a.store_u32(0x80);
    a.store_u16(attr_len as u16);
    a.store_u16(0);
    a.store_u8(1); // non-resident
    a.store_u8(0);
    a.store_u16(0);
    a.store_u16(0);
    a.store_u16(0);
    a.store_u32(0); // first VCN
    a.store_u32(0);
    a.store_u32(last_vcn);
    a.store_u32(0);
    a.store_u16(64); // runs right after this descriptor
    a.store_u16(0);
    a.store_u32(0);
    a.store_u64(size);
    a.store_u64(size);
    a.store_u64(size);
    a.store_bytes(run_bytes);
    a
}

fn record_image(seq: u16, attrs: &[Vec<u8>], size: usize) -> Vec<u8> {
    let mut body: Vec<u8> = Vec::new();
    for a in attrs {
        body.store_bytes(a);
    }
    let mut r: Vec<u8> = Vec::new();
    FileRecordHeader {
        magic: 0x454c4946,
        update_sequence_offset: 0,
        update_sequence_size: 0,
        lsn: 0,
        sequence_number: seq,
        hard_link_count: 1,
        attribute_array_offset: 48,
        flags: 0,
        real_size: (48 + body.len()) as u32,
        allocated_size: size as u32,
        base_record: FileReference::new(0, 0),
        next_attribute_id: 0,
        reserved: 0,
        number: 0,
    }
    .append_to(&mut r);
    r.store_bytes(&body);
    while r.len() < size {
        r.push(0);
    }
    r
}

fn place(image: &mut Vec<u8>, offset: usize, bytes: &[u8]) {
    for (i, b) in bytes.iter().enumerate() {
        image[offset + i] = *b;
    }
}

/// A volume whose MFT holds eight slots at byte 2048: the MFT's own
/// record, four free slots, the root directory at slot five, and two
/// files below it.
fn volume_image(file_parent: u64, file_parent_seq: u16) -> Vec<u8> {
    let mut image: Vec<u8> = vec![0; 2048 + 8 * RECORD];
    // the MFT's own record: its data runs cover clusters 2..10
    let runs: Vec<u8> = vec![0x11, 0x08, 0x02, 0x00];
    let mft = record_image(1, &[data_attr(&runs, 7, 8 * RECORD as u64)], RECORD);
    place(&mut image, 2048, &mft);
    let root = record_image(1, &[name_attr(5, 1, ".", 3, 0)], RECORD);
    place(&mut image, 2048 + 5 * RECORD, &root);
    // the directory carries its DOS-only short name first
    let dir = record_image(
        1,
        &[name_attr(5, 1, "DIR~1", 2, 0), name_attr(5, 1, "dir", 1, 1)],
        RECORD,
    );
    place(&mut image, 2048 + 6 * RECORD, &dir);
    let file = record_image(
        2,
        &[name_attr(file_parent, file_parent_seq, "file.txt", 1, 0)],
        RECORD,
    );
    place(&mut image, 2048 + 7 * RECORD, &file);
    image
}

fn geometry() -> VolumeGeometry {
    VolumeGeometry {
        bytes_per_sector: 512,
        bytes_per_cluster: 1024,
        bytes_per_record: RECORD as u32,
        mft_start_cluster: 2,
    }
}

fn open_volume() -> NTFileSystem<MemDisk> {
    NTFileSystem::new(MemDisk::new(volume_image(6, 1)), geometry()).unwrap()
}

#[test]
fn three_records_in_ascending_slot_order() {
    // a synthetic four-record MFT: the root-standing first record (which
    // also maps the MFT itself), one allocated file record, one zeroed
    // slot, and another allocated file record
    let mut image: Vec<u8> = vec![0; 2048 + 4 * RECORD];
    let runs: Vec<u8> = vec![0x11, 0x04, 0x02, 0x00];
    let root = record_image(
        1,
        &[data_attr(&runs, 3, 4 * RECORD as u64), name_attr(0, 1, ".", 3, 0)],
        RECORD,
    );
    place(&mut image, 2048, &root);
    place(&mut image, 2048 + RECORD, &record_image(1, &[name_attr(0, 1, "a", 1, 0)], RECORD));
    place(&mut image, 2048 + 3 * RECORD, &record_image(4, &[name_attr(0, 1, "b", 1, 0)], RECORD));
    let mut fs = NTFileSystem::new(MemDisk::new(image), geometry()).unwrap();
    let mut mft = fs.open_mft(2).unwrap();
    let mut numbers: Vec<u64> = Vec::new();
    let mut seqs: Vec<u16> = Vec::new();
    for _ in 0..3 {
        let (reference, record) = mft.next(&mut fs).unwrap().unwrap();
        numbers.push(reference.record_number());
        seqs.push(record.header.sequence_number);
    }
    assert_eq!(numbers, vec![0, 1, 3]);
    assert_eq!(seqs, vec![1, 1, 4]);
    // the fourth call finds nothing further
    assert!(mft.next(&mut fs).unwrap().is_none());
}

#[test]
fn point_lookup_skips_zeroed_slots() {
    let mut fs = open_volume();
    let mut mft = fs.open_mft(1).unwrap();
    // slot one is free; the lookup lands on the next allocated slot
    let (reference, _) = mft.read(&mut fs, &FileReference::new(1, 0)).unwrap().unwrap();
    assert_eq!(reference.record_number(), 5);
    assert_eq!(reference.sequence_number(), 1);
    // an allocated slot is returned itself, never a later one
    let (direct, _) = mft.read(&mut fs, &FileReference::new(6, 1)).unwrap().unwrap();
    assert_eq!(direct.record_number(), 6);
}

#[test]
fn point_lookup_beyond_extents_is_refused() {
    let mut fs = open_volume();
    let mut mft = fs.open_mft(1).unwrap();
    // slot one hundred lies past the eight mapped slots
    let r = mft.read(&mut fs, &FileReference::new(100, 0));
    assert_eq!(r.unwrap_err(), NtfsError::SeekOutOfRange);
    // the failed lookup leaves the reader rewound at slot zero
    let (reference, _) = mft.next(&mut fs).unwrap().unwrap();
    assert_eq!(reference.record_number(), 0);
}

#[test]
fn record_size_disagreement_is_refused() {
    let mut image = volume_image(6, 1);
    // rewrite slot five's allocated size to half a record
    let bad = {
        let mut r = record_image(1, &[name_attr(5, 1, ".", 3, 0)], RECORD);
        r[28] = 0;
        r[29] = 2; // allocated size 512
        r
    };
    place(&mut image, 2048 + 5 * RECORD, &bad);
    let mut fs = NTFileSystem::new(MemDisk::new(image), geometry()).unwrap();
    let mut mft = fs.open_mft(1).unwrap();
    let r = mft.read(&mut fs, &FileReference::new(5, 1));
    assert_eq!(r.unwrap_err(), NtfsError::RecordSizeMismatch);
}

#[test]
fn truncated_record_stream_is_refused() {
    // the MFT's declared size covers one and a half records
    let mut image: Vec<u8> = vec![0; 2048 + 2 * RECORD];
    let runs: Vec<u8> = vec![0x11, 0x02, 0x02, 0x00];
    let mft_rec = record_image(
        1,
        &[data_attr(&runs, 1, RECORD as u64 + RECORD as u64 / 2)],
        RECORD,
    );
    place(&mut image, 2048, &mft_rec);
    place(&mut image, 2048 + RECORD, &record_image(1, &[], RECORD));
    let mut fs = NTFileSystem::new(MemDisk::new(image), geometry()).unwrap();
    let mut mft = fs.open_mft(2).unwrap();
    let first = mft.next(&mut fs).unwrap();
    assert!(first.is_some());
    assert_eq!(mft.next(&mut fs).unwrap_err(), NtfsError::ShortRead);
}

#[test]
fn volume_walk_returns_names_and_paths() {
    let mut fs = open_volume();
    let file = FileReference::new(7, 2);
    let (header, name) = fs.inode_name(&file).unwrap();
    assert_eq!(name, "file.txt");
    assert_eq!(header.parent_reference.record_number(), 6);
    // the DOS-only short name never wins
    let dir = FileReference::new(6, 1);
    let (_, dname) = fs.inode_name(&dir).unwrap();
    assert_eq!(dname, "dir");
    assert_eq!(fs.inode_path(&file).unwrap(), "\\dir\\file.txt");
    assert_eq!(fs.inode_path(&dir).unwrap(), "\\dir");
}

#[test]
fn cyclic_parent_chain_is_reported() {
    // the file's parent points at the file itself: a corrupt volume
    let mut fs = NTFileSystem::new(MemDisk::new(volume_image(7, 2)), geometry()).unwrap();
    let file = FileReference::new(7, 2);
    assert_eq!(fs.inode_path(&file).unwrap_err(), NtfsError::PathTooDeep);
}

#[test]
fn record_without_name_is_not_found() {
    let mut image = volume_image(6, 1);
    // blank slot six's name attributes into an empty record
    let bare = record_image(1, &[], RECORD);
    place(&mut image, 2048 + 6 * RECORD, &bare);
    let mut fs = NTFileSystem::new(MemDisk::new(image), geometry()).unwrap();
    assert_eq!(
        fs.inode_name(&FileReference::new(6, 1)).unwrap_err(),
        NtfsError::NameNotFound
    );
}

#[test]
fn unusable_geometry_is_refused() {
    let bad = VolumeGeometry {
        bytes_per_sector: 512,
        bytes_per_cluster: 0,
        bytes_per_record: RECORD as u32,
        mft_start_cluster: 2,
    };
    let r = NTFileSystem::new(MemDisk::new(volume_image(6, 1)), bad);
    assert!(matches!(r, Err(NtfsError::BadGeometry)));
}

#[test]
fn volume_without_mft_data_attribute_is_refused() {
    let mut image: Vec<u8> = vec![0; 2048 + 8 * RECORD];
    let mft = record_image(1, &[name_attr(5, 1, "$MFT", 3, 0)], RECORD);
    place(&mut image, 2048, &mft);
    let r = NTFileSystem::new(MemDisk::new(image), geometry());
    assert!(matches!(r, Err(NtfsError::AttributeNotFound)));
}

#[test]
fn resident_mft_data_is_refused() {
    let mut image: Vec<u8> = vec![0; 2048 + 8 * RECORD];
    // a resident data attribute where the MFT's map should be
    let mut a: Vec<u8> = Vec::new();
    a.store_u32(0x80);
    a.store_u16(28);
    a.store_u16(0);
    a.store_u8(0);
    a.store_u8(0);
    a.store_u16(0);
    a.store_u16(0);
    a.store_u16(0);
    a.store_u32(4);
    a.store_u16(24);
    a.store_u8(0);
    a.store_u8(0);
    a.store_u32(0);
    let mft = record_image(1, &[a], RECORD);
    place(&mut image, 2048, &mft);
    let r = NTFileSystem::new(MemDisk::new(image), geometry());
    assert!(matches!(r, Err(NtfsError::BadResidency)));
}
