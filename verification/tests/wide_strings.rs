//! UTF-16 conversions.
use ntfs_read::flat::FlatDataImplMut;
use ntfs_read::flat::StoreExt;
use ntfs_read::names::FileName;
use ntfs_read::names::FileNameHeader;
use ntfs_read::reference::FileReference;
use ntfs_read::wide::ToUtf16;
use ntfs_read::wide::ToWide;

#[test]
fn strings_render_to_utf16_units() {
    let s = String::from("ab");
    assert_eq!(s.utf16_units(), vec![0x61, 0x62]);
    let empty = String::new();
    assert!(empty.utf16_units().is_empty());
}

#[test]
fn wide_strings_carry_one_terminator() {
    assert_eq!(String::from("ab").to_wide(), vec![0x61, 0x62, 0]);
    assert_eq!(String::new().to_wide(), vec![0]);
}

/// A file-name value holding the given units, for decoding them back.
fn value_with_units(units: &[u16]) -> Vec<u8> {
    let mut v: Vec<u8> = Vec::new();
    FileNameHeader {
        parent_reference: FileReference::new(5, 1),
        c_time: 0,
        a_time: 0,
        m_time: 0,
        r_time: 0,
        allocated_size: 0,
        real_size: 0,
        flags: 0,
        reserved: 0,
        len: units.len() as u8,
        namespace: 1,
    }
    .append_to(&mut v);
    for u in units {
        v.store_u16(*u);
    }
    v
}

#[test]
fn surrogate_pairs_round_trip() {
    let s = String::from("a\u{1d11e}b");
    let units = s.utf16_units();
    assert_eq!(units, vec![0x61, 0xd834, 0xdd1e, 0x62]);
    let name = FileName::parse(&value_with_units(&units)).unwrap();
    assert_eq!(name.name().unwrap(), s);
}

#[test]
fn file_names_render_to_wide_strings() {
    // a decoded on-disk name handed to a consumer of terminated wide
    // strings keeps its units and gains exactly one zero
    let name = FileName::parse(&value_with_units(&[0x61, 0x62])).unwrap();
    assert_eq!(name.utf16_units(), vec![0x61, 0x62]);
    assert_eq!(name.to_wide(), vec![0x61, 0x62, 0]);
}

#[test]
fn decoded_names_match_their_units() {
    let name = FileName::parse(&value_with_units(&[0x68, 0x69])).unwrap();
    assert_eq!(name.name().unwrap(), "hi");
    let empty = FileName::parse(&value_with_units(&[])).unwrap();
    assert_eq!(empty.name().unwrap(), "");
}
