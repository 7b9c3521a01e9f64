//! Record and attribute decoding against hand-built record images.
use ntfs_read::error::NtfsError;
use ntfs_read::flat::FlatDataImplMut;
use ntfs_read::flat::StoreExt;
use ntfs_read::reference::FileReference;
use ntfs_read::record::Attribute;
use ntfs_read::record::AttributeContent;
use ntfs_read::record::FileRecord;
use ntfs_read::record::FileRecordHeader;
use ntfs_read::names::FileName;
use ntfs_read::names::FileNameHeader;

/// A resident attribute: header, resident descriptor, then the value.
fn resident_attr(ty: u32, id: u16, value: &[u8]) -> Vec<u8> {
    let attr_len: usize = 16 + 8 + value.len();
    let mut a: Vec<u8> = Vec::new();
    a.store_u32(ty);
    a.store_u16(attr_len as u16);
    a.store_u16(0);
    a.store_u8(0); // resident
    a.store_u8(0); // no attribute name
    a.store_u16(0);
    a.store_u16(0);
    a.store_u16(id);
    a.store_u32(value.len() as u32);
    a.store_u16(24); // value right after the descriptor
    a.store_u8(0);
    a.store_u8(0);
    a.store_bytes(value);
    a
}

/// A file-name attribute value: the fixed header then the UTF-16 name.
fn file_name_value(parent: u64, parent_seq: u16, name: &str, namespace: u8) -> Vec<u8> {
    let units: Vec<u16> = name.encode_utf16().collect();
    let mut v: Vec<u8> = Vec::new();
    FileNameHeader {
        parent_reference: FileReference::new(parent, parent_seq),
        c_time: 0,
        a_time: 0,
        m_time: 0,
        r_time: 0,
        allocated_size: 0,
        real_size: 0,
        flags: 0,
        reserved: 0,
        len: units.len() as u8,
        namespace,
    }
    .append_to(&mut v);
    for u in &units {
        v.store_u16(*u);
    }
    v
}

/// One whole record image of `size` bytes holding the given attributes.
fn record_image(seq: u16, attrs: &[Vec<u8>], size: usize) -> Vec<u8> {
    let mut body: Vec<u8> = Vec::new();
    for a in attrs {
        body.store_bytes(a);
    }
    let mut r: Vec<u8> = Vec::new();
    FileRecordHeader {
        magic: 0x454c4946,
        update_sequence_offset: 0,
        update_sequence_size: 0,
        lsn: 0,
        sequence_number: seq,
        hard_link_count: 1,
        attribute_array_offset: 48,
        flags: 0,
        real_size: (48 + body.len()) as u32,
        allocated_size: size as u32,
        base_record: FileReference::new(0, 0),
        next_attribute_id: 0,
        reserved: 0,
        number: 0,
    }
    .append_to(&mut r);
    r.store_bytes(&body);
    while r.len() < size {
        r.push(0);
    }
    r
}

#[test]
fn parses_header_and_slices_to_real_size() {
    let attrs = vec![resident_attr(0x10, 0, &[1, 2, 3, 4])];
    let img = record_image(7, &attrs, 1024);
    let rec = FileRecord::parse(&img).unwrap();
    assert_eq!(rec.header.sequence_number, 7);
    assert_eq!(rec.header.allocated_size, 1024);
    assert_eq!(rec.header.attribute_array_offset, 48);
    assert_eq!(rec.header.real_size as usize, 48 + attrs[0].len());
    assert_eq!(rec.raw.len(), rec.header.real_size as usize);
    // round trip: the record's bytes are the buffer's own first bytes
    assert_eq!(rec.raw, img[..rec.header.real_size as usize].to_vec());
}

#[test]
fn wrong_signature_is_refused() {
    let mut img = record_image(1, &[], 1024);
    img[0] = 0x42;
    assert_eq!(FileRecord::parse(&img).unwrap_err(), NtfsError::BadSignature);
}

#[test]
fn short_buffer_is_refused() {
    let img: Vec<u8> = vec![0; 32];
    assert_eq!(FileRecord::parse(&img).unwrap_err(), NtfsError::OutOfBounds);
}

#[test]
fn attribute_walk_yields_types_and_content() {
    let value_a: Vec<u8> = vec![0xde, 0xad, 0xbe, 0xef];
    let value_b: Vec<u8> = vec![9, 8, 7];
    let attrs = vec![resident_attr(0x10, 0, &value_a), resident_attr(0x80, 1, &value_b)];
    let img = record_image(1, &attrs, 1024);
    let rec = FileRecord::parse(&img).unwrap();
    let mut it = rec.attributes().unwrap();
    let first = it.next().unwrap().unwrap();
    assert_eq!(first.ty(), 0x10);
    assert!(first.name().is_none());
    match first.content().unwrap() {
        AttributeContent::Resident(v) => assert_eq!(v, value_a),
        AttributeContent::NonResident(..) => panic!("resident value expected"),
    }
    let second = it.next().unwrap().unwrap();
    assert_eq!(second.ty(), 0x80);
    assert_eq!(second.header.id, 1);
    match second.content().unwrap() {
        AttributeContent::Resident(v) => assert_eq!(v, value_b),
        AttributeContent::NonResident(..) => panic!("resident value expected"),
    }
    assert!(it.next().unwrap().is_none());
}

#[test]
fn resident_content_reslices_the_original_buffer() {
    // byte-identical round trip straight against the record image
    let value: Vec<u8> = vec![5, 6, 7, 8, 9];
    let attrs = vec![resident_attr(0x80, 0, &value)];
    let img = record_image(1, &attrs, 512);
    let rec = FileRecord::parse(&img).unwrap();
    let mut it = rec.attributes().unwrap();
    let attr = it.next().unwrap().unwrap();
    match attr.content().unwrap() {
        AttributeContent::Resident(v) => {
            // 48 header + 16 attribute header + 8 descriptor
            assert_eq!(v, img[72..77].to_vec());
        },
        AttributeContent::NonResident(..) => panic!("resident value expected"),
    }
}

#[test]
fn named_attribute_exposes_its_name() {
    // attribute name "abc" at offset 24, value after it at offset 30
    let mut a: Vec<u8> = Vec::new();
    let value: Vec<u8> = vec![1, 2];
    let attr_len: usize = 16 + 8 + 6 + value.len();
    a.store_u32(0x80);
    a.store_u16(attr_len as u16);
    a.store_u16(0);
    a.store_u8(0);
    a.store_u8(3); // three name units
    a.store_u16(24);
    a.store_u16(0);
    a.store_u16(0);
    a.store_u32(value.len() as u32);
    a.store_u16(30);
    a.store_u8(0);
    a.store_u8(0);
    for u in "abc".encode_utf16() {
        a.store_u16(u);
    }
    a.store_bytes(&value);
    let attr = Attribute::parse(&a, 0).unwrap();
    assert_eq!(attr.name().unwrap().unwrap(), "abc");
    assert_eq!(attr.name_units().unwrap().unwrap(), vec![0x61, 0x62, 0x63]);
    match attr.content().unwrap() {
        AttributeContent::Resident(v) => assert_eq!(v, value),
        AttributeContent::NonResident(..) => panic!("resident value expected"),
    }
}

#[test]
fn ill_formed_name_is_reported() {
    // an unpaired surrogate unit is not a decodable name
    let mut a: Vec<u8> = Vec::new();
    a.store_u32(0x80);
    a.store_u16(26);
    a.store_u16(0);
    a.store_u8(0);
    a.store_u8(1);
    a.store_u16(24);
    a.store_u16(0);
    a.store_u16(0);
    a.store_u32(0);
    a.store_u16(26);
    a.store_u8(0);
    a.store_u8(0);
    a.store_u16(0xd800);
    let attr = Attribute::parse(&a, 0).unwrap();
    assert_eq!(attr.name().unwrap().unwrap_err(), NtfsError::InvalidName);
}

#[test]
fn residency_flag_outside_known_states_is_refused() {
    let mut a = resident_attr(0x80, 0, &[1]);
    a[8] = 2;
    let attr = Attribute::parse(&a, 0).unwrap();
    assert_eq!(attr.content().unwrap_err(), NtfsError::BadResidency);
}

#[test]
fn attribute_length_is_validated() {
    // a declared length shorter than the header itself
    let mut data: Vec<u8> = vec![0; 24];
    data[0] = 0x10;
    data[4] = 10;
    assert_eq!(Attribute::parse(&data, 0).unwrap_err(), NtfsError::OutOfBounds);
}

#[test]
fn file_name_value_parses_exactly() {
    let v = file_name_value(5, 1, "file.txt", 1);
    let name = FileName::parse(&v).unwrap();
    assert_eq!(name.header.parent_reference.record_number(), 5);
    assert_eq!(name.header.parent_reference.sequence_number(), 1);
    assert_eq!(name.header.len, 8);
    assert_eq!(name.header.namespace, 1);
    assert_eq!(name.name().unwrap(), "file.txt");
}

#[test]
fn file_name_length_mismatch_is_refused() {
    let mut v = file_name_value(5, 1, "file.txt", 1);
    v.push(0); // a stray byte the declared length does not cover
    v.push(0);
    assert_eq!(FileName::parse(&v).unwrap_err(), NtfsError::OutOfBounds);
}
