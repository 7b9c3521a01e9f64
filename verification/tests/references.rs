//! Packed file references.
use ntfs_read::reference::FileReference;

#[test]
fn packs_and_unpacks_record_and_sequence() {
    let r = FileReference::new(5, 1);
    assert_eq!(r.record_number(), 5);
    assert_eq!(r.sequence_number(), 1);
    let top = FileReference::new((1u64 << 48) - 1, 0xffff);
    assert_eq!(top.record_number(), (1u64 << 48) - 1);
    assert_eq!(top.sequence_number(), 0xffff);
    let zero = FileReference::new(0, 0);
    assert_eq!(zero.record_number(), 0);
    assert_eq!(zero.sequence_number(), 0);
}

#[test]
fn raw_words_round_trip() {
    let r = FileReference::from_raw(0x0001_0000_0000_0005);
    assert_eq!(r.record_number(), 5);
    assert_eq!(r.sequence_number(), 1);
    assert_eq!(r, FileReference::new(5, 1));
    assert_ne!(r, FileReference::new(5, 2));
}

#[test]
fn sequence_numbers_tell_generations_apart() {
    // the same slot reused: only the generation differs, and the packed
    // words differ with it
    let before = FileReference::new(77, 3);
    let after = FileReference::new(77, 4);
    assert_eq!(before.record_number(), after.record_number());
    assert_ne!(before.sequence_number(), after.sequence_number());
    assert_ne!(before, after);
}
