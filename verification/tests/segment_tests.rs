use journal_server::errors::JournalError;
use journal_server::segment::SegmentStatus;
use journal_server::segment::ShardLog;
use journal_server::segment_file::SegmentFile;

#[test]
fn create_then_seal_lifecycle() {
    let mut log = ShardLog::new(1, 7);
    let id = log.create_segment(1000).unwrap();
    assert_eq!(id, 0);
    assert_eq!(log.segments.len(), 1);
    assert_eq!(log.segments[0].status, SegmentStatus::Active);
    assert_eq!(log.segments[0].start_offset, 0);

    // a second active segment is refused while the first is open
    assert_eq!(log.create_segment(1001), Err(JournalError::ShardBusy));

    log.append(40, 100).unwrap();
    assert_eq!(log.seal_segment(0, 40), Ok(()));
    assert_eq!(log.segments[0].status, SegmentStatus::Sealed);
    assert_eq!(log.segments[0].end_offset, 40);
}

#[test]
fn seal_non_active_always_fails() {
    let mut log = ShardLog::new(1, 7);
    log.create_segment(1000).unwrap();
    log.append(10, 100).unwrap();
    // wrong segment id: never silently succeeds
    assert_eq!(log.seal_segment(5, 10), Err(JournalError::NotActive));
    assert_eq!(log.segments[0].status, SegmentStatus::Active);
    // sealed segment cannot be sealed again
    log.seal_segment(0, 10).unwrap();
    assert_eq!(log.seal_segment(0, 10), Err(JournalError::NotActive));
    // end offset before the start is refused
    log.create_segment(1001).unwrap();
    assert_eq!(log.seal_segment(1, 3), Err(JournalError::NonMonotonicOffset));
}

#[test]
fn sealed_pairs_share_boundaries() {
    let mut log = ShardLog::new(1, 7);
    for round in 0..3u64 {
        let id = log.create_segment(round).unwrap();
        log.append(25, 100).unwrap();
        let end = log.segments[log.segments.len() - 1].end_offset;
        log.seal_segment(id, end).unwrap();
    }
    assert_eq!(log.segments.len(), 3);
    for i in 0..2usize {
        assert_eq!(log.segments[i].end_offset, log.segments[i + 1].start_offset);
        assert_eq!(log.segments[i].segment_id + 1, log.segments[i + 1].segment_id);
    }
    assert_eq!(log.segments[2].end_offset, 75);
}

#[test]
fn append_beyond_rotation_size_fails() {
    let mut log = ShardLog::new(1, 7);
    log.create_segment(0).unwrap();
    assert_eq!(log.append(60, 100), Ok((0, 60)));
    // 60 + 41 > 100: refused, nothing truncated or wrapped
    assert_eq!(log.append(41, 100), Err(JournalError::CapacityExceeded));
    assert_eq!(log.segments[0].end_offset, 60);
    assert_eq!(log.append(40, 100), Ok((60, 100)));
    assert_eq!(log.append(1, 100), Err(JournalError::CapacityExceeded));
}

#[test]
fn append_without_active_segment_fails() {
    let mut log = ShardLog::new(1, 7);
    assert_eq!(log.append(4, 100), Err(JournalError::NotActive));
}

#[test]
fn two_phase_delete_order_is_enforced() {
    let mut log = ShardLog::new(1, 7);
    log.create_segment(0).unwrap();
    log.append(10, 100).unwrap();
    // the active segment cannot be marked for deletion
    assert_eq!(log.mark_deleting(0), Err(JournalError::ShardBusy));
    log.seal_segment(0, 10).unwrap();
    // confirming before marking is out of order
    assert_eq!(log.confirm_deleted(0), Err(JournalError::InconsistentState));
    assert_eq!(log.mark_deleting(0), Ok(()));
    assert_eq!(log.segments[0].status, SegmentStatus::Deleting);
    // marking twice is harmless
    assert_eq!(log.mark_deleting(0), Ok(()));
    assert_eq!(log.confirm_deleted(0), Ok(()));
    assert_eq!(log.segments.len(), 0);
    // ids are never reused after a deletion
    let id = log.create_segment(1).unwrap();
    assert_eq!(id, 1);
    assert_eq!(log.segments[0].start_offset, 10);
    // unknown segment ids are reported
    assert_eq!(log.mark_deleting(9), Err(JournalError::InconsistentState));
}

#[test]
fn file_append_and_read_round_trip() {
    let mut file = SegmentFile::open_or_create(1, 7, 0, 100, true);
    let payload = vec![1u8, 2, 3, 4, 5];
    assert_eq!(file.append(&payload, 64), Ok((100, 105)));
    assert_eq!(file.synced_len, 5);
    assert_eq!(file.read(100, 5), Ok(vec![1u8, 2, 3, 4, 5]));
    assert_eq!(file.read(102, 2), Ok(vec![3u8, 4]));
    assert_eq!(file.read(103, 5), Err(JournalError::OutOfRange));
    assert_eq!(file.read(99, 1), Err(JournalError::OutOfRange));
}

#[test]
fn file_append_beyond_rotation_size_fails() {
    let mut file = SegmentFile::open_or_create(1, 7, 0, 0, false);
    let payload = vec![0u8; 8];
    assert_eq!(file.append(&payload, 10), Ok((0, 8)));
    // 8 + 8 > 10: the oversized append is refused whole
    assert_eq!(file.append(&payload, 10), Err(JournalError::CapacityExceeded));
    assert_eq!(file.size(), 8);
    // batched sync policy: bytes become durable only on the barrier
    assert_eq!(file.synced_len, 0);
    file.sync();
    assert_eq!(file.synced_len, 8);
}
