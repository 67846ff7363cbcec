use lake::heap::page_dir::{PageDir, PageLocation, PAGE_LOCATION_SIZE};
use lake::heap::PageId;

fn record(page_id: u32, location: u64) -> Vec<u8> {
    let mut bytes = page_id.to_be_bytes().to_vec();
    bytes.extend_from_slice(&location.to_be_bytes());
    bytes
}

#[test]
fn record_is_big_endian() {
    let bytes = PageDir::record(PageId(0x0102_0304), PageLocation(0x0a0b_0c0d));
    assert_eq!(&bytes[..], &[1, 2, 3, 4, 0, 0, 0, 0, 0x0a, 0x0b, 0x0c, 0x0d]);
    assert_eq!(bytes.len(), PAGE_LOCATION_SIZE);
    assert_eq!(&bytes[..], &record(0x0102_0304, 0x0a0b_0c0d)[..]);
}

#[test]
fn empty_log_is_an_empty_directory() {
    let dir = PageDir::new(&[]);
    assert_eq!(dir.lookup(PageId(0)), None);
    assert!(dir.snapshot().is_empty());
}

#[test]
fn last_record_of_a_page_wins() {
    let mut log = record(1, 100);
    log.extend_from_slice(&record(1, 200));
    let dir = PageDir::new(&log);
    assert_eq!(dir.lookup(PageId(1)), Some(PageLocation(200)));
    let snapshot = dir.snapshot();
    assert_eq!(snapshot, vec![(PageId(1), PageLocation(200))]);
    // the compacted log holds one record for page 1
    let mut compacted = Vec::new();
    for (page_id, location) in &snapshot {
        compacted.extend_from_slice(&PageDir::record(*page_id, *location));
    }
    assert_eq!(compacted, record(1, 200));
    let reopened = PageDir::new(&compacted);
    assert_eq!(reopened.lookup(PageId(1)), Some(PageLocation(200)));
}

#[test]
fn insert_then_reopen() {
    let mut log = Vec::new();
    let mut dir = PageDir::new(&log);
    for (page_id, location) in [(1u32, 100usize), (1, 200)] {
        log.extend_from_slice(&PageDir::record(PageId(page_id), PageLocation(location)));
        dir.insert(PageId(page_id), PageLocation(location));
    }
    assert_eq!(dir.lookup(PageId(1)), Some(PageLocation(200)));
    assert_eq!(log.len(), 24);
    let reopened = PageDir::new(&log);
    assert_eq!(reopened.lookup(PageId(1)), Some(PageLocation(200)));
    assert_eq!(reopened.snapshot().len(), 1);
}

#[test]
fn every_whole_record_is_replayed() {
    let mut log = Vec::new();
    for i in 0..100u32 {
        log.extend_from_slice(&record(i, 8192 * i as u64));
    }
    log.extend_from_slice(&record(3, 5));
    let dir = PageDir::new(&log);
    for i in 0..100u32 {
        let expected = if i == 3 { 5 } else { 8192 * i as usize };
        assert_eq!(dir.lookup(PageId(i)), Some(PageLocation(expected)));
    }
    assert_eq!(dir.lookup(PageId(100)), None);
    let mut snapshot = dir.snapshot();
    snapshot.sort();
    assert_eq!(snapshot.len(), 100);
    for (i, (page_id, location)) in snapshot.iter().enumerate() {
        assert_eq!(*page_id, PageId(i as u32));
        assert_eq!(*location, dir.lookup(*page_id).unwrap());
    }
}

#[test]
fn a_torn_record_at_the_end_is_ignored() {
    let mut log = record(1, 100);
    log.extend_from_slice(&record(2, 200)[..11]);
    let dir = PageDir::new(&log);
    assert_eq!(dir.lookup(PageId(1)), Some(PageLocation(100)));
    assert_eq!(dir.lookup(PageId(2)), None);
    assert_eq!(PageDir::new(&log[..11]).lookup(PageId(1)), None);
}

#[test]
fn insert_overwrites_one_page_only() {
    let mut dir = PageDir::new(&[]);
    dir.insert(PageId(1), PageLocation(10));
    dir.insert(PageId(2), PageLocation(20));
    dir.insert(PageId(1), PageLocation(30));
    assert_eq!(dir.lookup(PageId(1)), Some(PageLocation(30)));
    assert_eq!(dir.lookup(PageId(2)), Some(PageLocation(20)));
    assert_eq!(dir.lookup(PageId(3)), None);
    let mut snapshot = dir.snapshot();
    snapshot.sort();
    assert_eq!(snapshot, vec![(PageId(1), PageLocation(30)), (PageId(2), PageLocation(20))]);
}

#[test]
fn snapshot_replays_to_the_same_directory() {
    let mut dir = PageDir::new(&[]);
    for i in 0..50u32 {
        dir.insert(PageId(i * 3), PageLocation(i as usize * 8192));
    }
    let mut log = Vec::new();
    for (page_id, location) in dir.snapshot() {
        log.extend_from_slice(&PageDir::record(page_id, location));
    }
    assert_eq!(log.len(), 50 * 12);
    let again = PageDir::new(&log);
    for i in 0..150u32 {
        assert_eq!(again.lookup(PageId(i)), dir.lookup(PageId(i)));
    }
}
