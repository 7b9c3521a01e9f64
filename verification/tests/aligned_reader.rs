//! The sector-aligned reader.
use ntfs_read::aligned::AlignedFile;
use ntfs_read::aligned::floor;
use ntfs_read::device::Disk;
use ntfs_read::device::MemDisk;

#[test]
fn floor_rounds_down() {
    assert_eq!(floor(0, 512), 0);
    assert_eq!(floor(511, 512), 0);
    assert_eq!(floor(512, 512), 512);
    assert_eq!(floor(700, 512), 512);
    assert_eq!(floor(1024, 512), 1024);
}

#[test]
fn floor_rounds_toward_negative_infinity() {
    assert_eq!(floor(-1, 512), -512);
    assert_eq!(floor(-512, 512), -512);
    assert_eq!(floor(-513, 512), -1024);
    assert_eq!(floor(-700, 4), -700);
    assert_eq!(floor(-701, 4), -704);
}

fn image(n: usize) -> Vec<u8> {
    let mut v: Vec<u8> = Vec::new();
    for i in 0..n {
        v.push((i % 251) as u8);
    }
    v
}

#[test]
fn unaligned_read_matches_raw_bytes() {
    // K not a multiple of the sector size, N spanning sector boundaries:
    // what comes back must equal the device's raw bytes at [K, K + N).
    let raw = image(4096);
    let mut af = AlignedFile::new(MemDisk::new(raw.clone()), 512, 4);
    af.seek(700).unwrap();
    let mut got: Vec<u8> = Vec::new();
    while got.len() < 1000 {
        let piece = af.read(1000 - got.len()).unwrap();
        if piece.is_empty() {
            break;
        }
        got.extend_from_slice(&piece);
    }
    assert_eq!(got, raw[700..1700].to_vec());
}

#[test]
fn aligned_reader_is_a_plain_stream() {
    let raw = image(3000);
    let mut af = AlignedFile::new(MemDisk::new(raw.clone()), 512, 1);
    af.seek(0).unwrap();
    let mut got: Vec<u8> = Vec::new();
    loop {
        let piece = af.read(600).unwrap();
        if piece.is_empty() {
            break;
        }
        got.extend_from_slice(&piece);
    }
    assert_eq!(got, raw);
}

#[test]
fn seeking_past_the_end_reads_nothing() {
    let mut af = AlignedFile::new(MemDisk::new(image(1024)), 512, 2);
    af.seek(5000).unwrap();
    let piece = af.read(16).unwrap();
    assert!(piece.is_empty());
}

#[test]
fn reseek_lands_on_the_exact_byte() {
    let raw = image(2048);
    let mut af = AlignedFile::new(MemDisk::new(raw.clone()), 512, 2);
    af.seek(1) .unwrap();
    let a = af.read(3).unwrap();
    assert_eq!(a, raw[1..4].to_vec());
    af.seek(1500).unwrap();
    let b = af.read(4).unwrap();
    assert_eq!(b, raw[1500..1504].to_vec());
}
