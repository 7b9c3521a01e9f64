//! Typed byte views: little-endian loads and stores.
use ntfs_read::flat::ByteCursor;
use ntfs_read::flat::Flat;
use ntfs_read::flat::FlatBase;
use ntfs_read::flat::FlatMut;
use ntfs_read::flat::LoadExt;
use ntfs_read::flat::StoreExt;
use ntfs_read::flat::load_le;
use ntfs_read::flat::store_le;
use ntfs_read::flat::store_le_at;

#[test]
fn load_le_reads_little_endian() {
    let bytes: Vec<u8> = vec![0x78, 0x56, 0x34, 0x12, 0xff];
    assert_eq!(load_le(&bytes, 0, 4), 0x12345678);
    assert_eq!(load_le(&bytes, 1, 2), 0x3456);
    assert_eq!(load_le(&bytes, 0, 1), 0x78);
    assert_eq!(load_le(&bytes, 0, 0), 0);
}

#[test]
fn store_le_appends_little_endian() {
    let mut out: Vec<u8> = Vec::new();
    store_le(&mut out, 0x12345678, 4);
    assert_eq!(out, vec![0x78, 0x56, 0x34, 0x12]);
    store_le(&mut out, 0xab, 1);
    assert_eq!(out, vec![0x78, 0x56, 0x34, 0x12, 0xab]);
}

#[test]
fn store_le_at_overwrites_in_place() {
    let mut buf: Vec<u8> = vec![9, 9, 9, 9, 9];
    store_le_at(&mut buf, 1, 0xbbaa, 2);
    assert_eq!(buf, vec![9, 0xaa, 0xbb, 9, 9]);
}

#[test]
fn typed_loads_match_widths() {
    let bytes: Vec<u8> = vec![0x01, 0x02, 0x03, 0x04, 0x05, 0x06, 0x07, 0x08, 0x09];
    assert_eq!(u8::load(&bytes, 2), 0x03);
    assert_eq!(u16::load(&bytes, 0), 0x0201);
    assert_eq!(u32::load(&bytes, 1), 0x05040302);
    assert_eq!(u64::load(&bytes, 0), 0x0807060504030201);
    assert_eq!(u8::flat_size(), 1);
    assert_eq!(u16::flat_size(), 2);
    assert_eq!(u32::flat_size(), 4);
    assert_eq!(u64::flat_size(), 8);
}

#[test]
fn typed_store_then_load_round_trips() {
    let mut buf: Vec<u8> = vec![0; 16];
    0x1234u16.store(&mut buf, 0);
    0xdeadbeefu32.store(&mut buf, 2);
    0x0102030405060708u64.store(&mut buf, 6);
    assert_eq!(u16::load(&buf, 0), 0x1234);
    assert_eq!(u32::load(&buf, 2), 0xdeadbeef);
    assert_eq!(u64::load(&buf, 6), 0x0102030405060708);
    // untouched bytes stay zero
    assert_eq!(buf[14], 0);
    assert_eq!(buf[15], 0);
}

#[test]
fn cursor_loads_sequentially() {
    let bytes: Vec<u8> = vec![0xaa, 0x01, 0x02, 0x03, 0x04];
    let mut cur = ByteCursor::new(&bytes);
    assert_eq!(cur.load_u8(), 0xaa);
    let rest = cur.load_bytes(4);
    assert_eq!(rest, vec![0x01, 0x02, 0x03, 0x04]);
}

#[test]
fn builder_stores_sequentially() {
    let mut out: Vec<u8> = Vec::new();
    out.store_u8(0x11);
    out.store_u16(0x3322);
    out.store_u32(0x77665544);
    out.store_bytes(&[0x88, 0x99]);
    assert_eq!(out, vec![0x11, 0x22, 0x33, 0x44, 0x55, 0x66, 0x77, 0x88, 0x99]);
    let mut wide: Vec<u8> = Vec::new();
    wide.store_u64(0x0807060504030201);
    assert_eq!(wide, vec![1, 2, 3, 4, 5, 6, 7, 8]);
}
