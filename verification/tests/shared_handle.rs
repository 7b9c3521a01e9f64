//! The shared positioned handle: one device, many logical cursors.
use ntfs_read::device::Disk;
use ntfs_read::device::MemDisk;
use ntfs_read::shared::SharedFile;

fn image(n: usize) -> Vec<u8> {
    let mut v: Vec<u8> = Vec::new();
    for i in 0..n {
        v.push((i % 251) as u8);
    }
    v
}

#[test]
fn contiguous_cursors_cost_one_seek() {
    let mut sf = SharedFile::new(MemDisk::new(image(2048)));
    // the one physical seek: moving the first cursor off position zero
    let mut c1 = sf.cursor();
    sf.seek(&mut c1, 100).unwrap();
    let a = sf.read(&mut c1, 50).unwrap();
    // the second clone already believes exactly where the device now is
    let mut c2 = sf.cursor_at(150);
    let b = sf.read(&mut c2, 50).unwrap();
    assert_eq!(a[0], (100 % 251) as u8);
    assert_eq!(b[0], (150 % 251) as u8);
    // exactly one physical seek for the two reads, not two
    assert_eq!(sf.into_inner().seek_count(), 1);
}

#[test]
fn seek_to_current_position_is_elided() {
    let mut sf = SharedFile::new(MemDisk::new(image(512)));
    let mut c = sf.cursor();
    sf.seek(&mut c, 0).unwrap();
    sf.seek(&mut c, 0).unwrap();
    // the device already sat at zero when the handle adopted it
    assert_eq!(sf.into_inner().seek_count(), 0);
}

#[test]
fn interleaved_cursors_read_their_own_bytes() {
    let mut sf = SharedFile::new(MemDisk::new(image(2048)));
    let mut scan = sf.cursor();
    let mut lookup = sf.cursor();
    sf.seek(&mut scan, 0).unwrap();
    sf.seek(&mut lookup, 1000).unwrap();
    // reads through one cursor observe that cursor's position, however
    // the sibling moved the device in between
    let a1 = sf.read(&mut scan, 4).unwrap();
    let b1 = sf.read(&mut lookup, 4).unwrap();
    let a2 = sf.read(&mut scan, 4).unwrap();
    let b2 = sf.read(&mut lookup, 4).unwrap();
    assert_eq!(a1, vec![0, 1, 2, 3]);
    assert_eq!(b1, vec![(1000 % 251) as u8, (1001 % 251) as u8, (1002 % 251) as u8, (1003 % 251) as u8]);
    assert_eq!(a2, vec![4, 5, 6, 7]);
    assert_eq!(b2, vec![(1004 % 251) as u8, (1005 % 251) as u8, (1006 % 251) as u8, (1007 % 251) as u8]);
}

#[test]
fn reads_end_at_the_device_end() {
    let mut sf = SharedFile::new(MemDisk::new(image(10)));
    let mut c = sf.cursor();
    let a = sf.read(&mut c, 64).unwrap();
    assert_eq!(a.len(), 10);
    let b = sf.read(&mut c, 64).unwrap();
    assert!(b.is_empty());
}

#[test]
fn taking_over_a_device_adopts_its_position() {
    // a device already standing at an offset is adopted there: no seek
    // is issued, and the first cursor reads from that very offset
    let mut d = MemDisk::new(image(256));
    d.seek(37).unwrap();
    let mut sf = SharedFile::new(d);
    let mut c = sf.cursor();
    let v = sf.read(&mut c, 3).unwrap();
    assert_eq!(v, vec![37, 38, 39]);
    // the only seek ever issued was the one before the handover
    assert_eq!(sf.into_inner().seek_count(), 1);
}

#[test]
fn memdisk_reports_its_geometry() {
    let d = MemDisk::new(image(32));
    assert_eq!(d.seek_count(), 0);
    let mut d2 = d;
    d2.seek(9).unwrap();
    let v = d2.read(3).unwrap();
    assert_eq!(v, vec![9, 10, 11]);
    assert_eq!(d2.seek_count(), 1);
}
