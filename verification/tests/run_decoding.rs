//! The data-run decoder and the reader over decoded runs.
use ntfs_read::device::MemDisk;
use ntfs_read::error::NtfsError;
use ntfs_read::runs::DataRunReader;
use ntfs_read::runs::DataRuns;
use ntfs_read::runs::SeekPos;
use ntfs_read::shared::SharedFile;

#[test]
fn decodes_one_absolute_run() {
    // length-width 1, offset-width 3, length 0x10, offset 0x000004,
    // cluster size 4096: one run at absolute cluster 4.
    let bytes: Vec<u8> = vec![0x31, 0x10, 0x04, 0x00, 0x00];
    let runs = DataRuns::parse(&bytes, 4096, 0x10, 0x10 * 4096).unwrap();
    assert_eq!(runs.0, vec![(4 * 4096, 0x10 * 4096)]);
}

#[test]
fn sign_extends_negative_one_byte_delta() {
    // First run at cluster 4; second run's one-byte delta 0xFF must be
    // read as -1, placing it at cluster 3, never at 4 + 255.
    let bytes: Vec<u8> = vec![0x11, 0x02, 0x04, 0x11, 0x01, 0xff, 0x00];
    let runs = DataRuns::parse(&bytes, 4096, 3, 3 * 4096).unwrap();
    assert_eq!(runs.0, vec![(4 * 4096, 2 * 4096), (3 * 4096, 4096)]);
}

#[test]
fn sign_extends_two_byte_delta() {
    let bytes: Vec<u8> = vec![0x11, 0x01, 0x10, 0x21, 0x01, 0xfe, 0xff, 0x00];
    let runs = DataRuns::parse(&bytes, 1, 2, 2).unwrap();
    // delta 0xfffe over two bytes is -2: 0x10 - 2 == 0x0e
    assert_eq!(runs.0, vec![(0x10, 1), (0x0e, 1)]);
}

#[test]
fn zero_width_delta_stays_in_place() {
    // a run whose offset field has width zero moves nowhere: it stays at
    // the running cluster position, never one below it
    let bytes: Vec<u8> = vec![0x11, 0x01, 0x02, 0x01, 0x01, 0x00];
    let runs = DataRuns::parse(&bytes, 1024, 2, 2 * 1024).unwrap();
    assert_eq!(runs.0, vec![(2 * 1024, 1024), (2 * 1024, 1024)]);
}

#[test]
fn stops_at_zero_header() {
    let bytes: Vec<u8> = vec![0x00, 0x11, 0x01, 0x01];
    let runs = DataRuns::parse(&bytes, 512, 8, 4096).unwrap();
    assert!(runs.0.is_empty());
}

#[test]
fn stops_at_declared_cluster_count() {
    // Two encoded runs, but the declared count is reached after one.
    let bytes: Vec<u8> = vec![0x11, 0x02, 0x04, 0x11, 0x02, 0x01, 0x00];
    let runs = DataRuns::parse(&bytes, 512, 2, 2 * 512).unwrap();
    assert_eq!(runs.0, vec![(4 * 512, 2 * 512)]);
}

#[test]
fn trims_final_run_to_declared_size() {
    let bytes: Vec<u8> = vec![0x11, 0x10, 0x04, 0x00];
    let declared: u64 = 0x10 * 4096 - 100;
    let runs = DataRuns::parse(&bytes, 4096, 0x10, declared).unwrap();
    assert_eq!(runs.0, vec![(4 * 4096, declared)]);
}

#[test]
fn refuses_truncated_input() {
    let bytes: Vec<u8> = vec![0x31, 0x10];
    let r = DataRuns::parse(&bytes, 4096, 0x10, 0x10 * 4096);
    assert_eq!(r.unwrap_err(), NtfsError::OutOfBounds);
}

#[test]
fn refuses_field_wider_than_eight_bytes() {
    let mut bytes: Vec<u8> = vec![0x19];
    for _ in 0..9 {
        bytes.push(1);
    }
    let r = DataRuns::parse(&bytes, 1, 100, 100);
    assert_eq!(r.unwrap_err(), NtfsError::OutOfBounds);
}

fn counting_disk(n: usize) -> SharedFile<MemDisk> {
    let mut image: Vec<u8> = Vec::new();
    for i in 0..n {
        image.push((i % 251) as u8);
    }
    SharedFile::new(MemDisk::new(image))
}

#[test]
fn reader_reads_across_runs() {
    let mut disk = counting_disk(256);
    let runs = DataRuns(vec![(0, 10), (100, 10)]);
    let mut rdr = DataRunReader::new(disk.cursor(), runs);
    assert_eq!(rdr.seek(SeekPos::Start(5)).unwrap(), 5);
    // a read never crosses the current run's end
    let a = rdr.read(&mut disk, 10).unwrap();
    assert_eq!(a, vec![5, 6, 7, 8, 9]);
    // the next read advances into the second extent
    let b = rdr.read(&mut disk, 4).unwrap();
    assert_eq!(b, vec![100, 101, 102, 103]);
    assert_eq!(rdr.stream_position(), 14);
    // end of the mapped extents is end of stream, not an error
    assert_eq!(rdr.seek(SeekPos::End(0)).unwrap(), 20);
    let end = rdr.read(&mut disk, 4).unwrap();
    assert!(end.is_empty());
}

#[test]
fn reader_seeks_are_bounded() {
    let mut disk = counting_disk(256);
    let runs = DataRuns(vec![(0, 10), (100, 10)]);
    let mut rdr = DataRunReader::new(disk.cursor(), runs);
    assert_eq!(rdr.seek(SeekPos::Start(21)).unwrap_err(), NtfsError::SeekOutOfRange);
    assert_eq!(rdr.seek(SeekPos::End(-21)).unwrap_err(), NtfsError::SeekOutOfRange);
    assert_eq!(rdr.seek(SeekPos::End(-3)).unwrap(), 17);
    let tail = rdr.read(&mut disk, 8).unwrap();
    assert_eq!(tail, vec![107, 108, 109]);
    assert_eq!(rdr.seek(SeekPos::Current(-13)).unwrap(), 7);
    assert_eq!(rdr.seek(SeekPos::Current(-8)).unwrap_err(), NtfsError::SeekOutOfRange);
}

#[test]
fn sequential_reads_elide_reseeks() {
    let mut disk = counting_disk(256);
    let runs = DataRuns(vec![(0, 20)]);
    let mut rdr = DataRunReader::new(disk.cursor(), runs);
    let first = rdr.read(&mut disk, 5).unwrap();
    let second = rdr.read(&mut disk, 5).unwrap();
    assert_eq!(first, vec![0, 1, 2, 3, 4]);
    assert_eq!(second, vec![5, 6, 7, 8, 9]);
    // no physical seek at all: the handle adopted the device at zero,
    // and both reads found it where the cursor believed it to be
    assert_eq!(disk.into_inner().seek_count(), 0);
}
