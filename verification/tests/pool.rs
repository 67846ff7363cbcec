use bytes::BytesMut;
use lake::error::{Corruption, HeapError};
use lake::heap::page::{Page, PAGE_SIZE};
use lake::heap::page_dir::{PageDir, PageLocation};
use lake::heap::{Access, FrameState, HeapTable, PageGuard, PageId, TupleId, BUFFER_POOL_SIZE};

fn directory(pages: u32) -> PageDir {
    let mut dir = PageDir::new(&[]);
    for i in 1..=pages {
        dir.insert(PageId(i), PageLocation(i as usize * PAGE_SIZE));
    }
    dir
}

fn image(page_id: u32) -> BytesMut {
    Page::new(PageId(page_id)).encode()
}

/// Asks for a page that is not cached and plays the part of the disk.
fn load(pool: &mut HeapTable, page_id: u32, expected_frame: usize) -> PageGuard {
    match pool.get_page(PageId(page_id)).unwrap() {
        Access::Load { frame, location } => {
            assert_eq!(frame, expected_frame);
            assert_eq!(location, PageLocation(page_id as usize * PAGE_SIZE));
            assert_eq!(pool.frame_state(frame), Some(FrameState::Loading));
            pool.finish_load(frame, image(page_id)).unwrap()
        }
        other => panic!("{:?}", other),
    }
}

fn hit(pool: &mut HeapTable, page_id: u32, expected_frame: usize) -> PageGuard {
    match pool.get_page(PageId(page_id)).unwrap() {
        Access::Ready(guard) => {
            assert_eq!(guard.frame(), expected_frame);
            assert_eq!(guard.page_id(), PageId(page_id));
            guard
        }
        other => panic!("{:?}", other),
    }
}

#[test]
fn new_pool_has_the_fixed_capacity() {
    let pool = HeapTable::new(directory(1));
    assert_eq!(pool.capacity(), BUFFER_POOL_SIZE);
    assert_eq!(pool.capacity(), 1024);
    assert_eq!(pool.frame_state(0), Some(FrameState::Unloaded));
    assert_eq!(pool.frame_state(1023), Some(FrameState::Unloaded));
    assert_eq!(pool.frame_state(1024), None);
    assert_eq!(pool.locate(PageId(1)), Some(PageLocation(PAGE_SIZE)));
    assert_eq!(pool.locate(PageId(2)), None);
}

#[test]
fn unknown_page_is_not_found() {
    let mut pool = HeapTable::with_capacity(directory(1), 2);
    assert_eq!(pool.get_page(PageId(9)).err(), Some(HeapError::PageNotFound));
    assert_eq!(pool.frame_state(0), Some(FrameState::Unloaded));
    pool.assign(PageId(9), PageLocation(0));
    match pool.get_page(PageId(9)).unwrap() {
        Access::Load { frame, location } => {
            assert_eq!(frame, 0);
            assert_eq!(location, PageLocation(0));
        }
        other => panic!("{:?}", other),
    }
}

#[test]
fn second_request_is_served_from_the_cache() {
    let mut pool = HeapTable::with_capacity(directory(3), 2);
    let first = load(&mut pool, 1, 0);
    assert_eq!(pool.insert_tuple(&first, &[1, 2, 3]), Ok(TupleId(0)));
    // no second read: the page is handed out as it is in the cache
    let second = hit(&mut pool, 1, 0);
    assert_eq!(pool.get_tuple_bytes(&second, TupleId(0)).unwrap(), &[1, 2, 3]);
    assert_eq!(
        pool.get_tuple(&second, TupleId(0)).err(),
        Some(HeapError::Corruption(Corruption::TupleHeader))
    );
    assert_eq!(pool.get_tuple(&second, TupleId(1)).err(), Some(HeapError::TupleNotFound));
    assert_eq!(pool.page(&first).slot_count(), 1);
    assert!(pool.is_held(&first));
    assert!(pool.release(first));
    assert!(pool.is_held(&second));
    assert!(pool.release(second));
}

#[test]
fn a_page_that_is_being_read_is_busy() {
    let mut pool = HeapTable::with_capacity(directory(3), 2);
    let frame = match pool.get_page(PageId(1)).unwrap() {
        Access::Load { frame, .. } => frame,
        other => panic!("{:?}", other),
    };
    assert!(matches!(pool.get_page(PageId(1)).unwrap(), Access::Busy));
    pool.cancel_load(frame);
    assert_eq!(pool.frame_state(frame), Some(FrameState::Unloaded));
    let guard = load(&mut pool, 1, 0);
    assert!(pool.release(guard));
}

#[test]
fn a_corrupt_image_frees_the_frame() {
    let mut pool = HeapTable::with_capacity(directory(3), 2);
    let frame = match pool.get_page(PageId(1)).unwrap() {
        Access::Load { frame, .. } => frame,
        other => panic!("{:?}", other),
    };
    let r = pool.finish_load(frame, BytesMut::from(&[0u8; 5][..]));
    assert_eq!(r.err(), Some(HeapError::Corruption(Corruption::PageHeader)));
    assert_eq!(pool.frame_state(frame), Some(FrameState::Unloaded));
    let guard = load(&mut pool, 1, 0);
    assert!(pool.release(guard));
}

#[test]
fn released_guard_is_no_longer_held() {
    let mut pool = HeapTable::with_capacity(directory(3), 2);
    let guard = load(&mut pool, 1, 0);
    let other = hit(&mut pool, 1, 0);
    assert!(pool.release(guard));
    assert!(pool.release(other));
    // nobody holds the page now: a guard made for it elsewhere is refused
    let mut elsewhere = HeapTable::with_capacity(directory(3), 2);
    let stray = load(&mut elsewhere, 1, 0);
    assert!(!pool.is_held(&stray));
    assert!(!pool.release(stray));
}

#[test]
fn the_clock_takes_an_unpinned_page_never_a_pinned_one() {
    let mut pool = HeapTable::with_capacity(directory(5), 2);
    let pinned = load(&mut pool, 1, 0);
    let loose = load(&mut pool, 2, 1);
    assert!(pool.release(loose));
    // both frames are in use, page 1 is pinned: page 2 has to go
    let third = load(&mut pool, 3, 1);
    assert!(pool.is_held(&pinned));
    assert_eq!(pool.page(&pinned).page_id(), PageId(1));
    assert_eq!(pool.page(&third).page_id(), PageId(3));
    // both pinned now: nothing can be taken
    assert!(matches!(pool.get_page(PageId(4)).unwrap(), Access::Busy));
    assert!(pool.release(third));
    let fourth = load(&mut pool, 4, 1);
    assert!(pool.release(fourth));
    assert!(pool.release(pinned));
    // page 2 was evicted: it is read again
    let again = load(&mut pool, 2, 0);
    assert!(pool.release(again));
}

#[test]
fn the_clock_prefers_a_page_that_was_not_asked_for() {
    let mut pool = HeapTable::with_capacity(directory(6), 3);
    for (page, frame) in [(1u32, 0usize), (2, 1), (3, 2)] {
        let guard = load(&mut pool, page, frame);
        assert!(pool.release(guard));
    }
    // every flag is set: the clock clears them all and takes frame 0
    let guard = load(&mut pool, 4, 0);
    assert!(pool.release(guard));
    // page 2 is asked for, page 3 is not
    let guard = hit(&mut pool, 2, 1);
    assert!(pool.release(guard));
    // the hand stands at frame 1: page 2 is passed, page 3 is taken
    let guard = load(&mut pool, 5, 2);
    assert!(pool.release(guard));
    let guard = hit(&mut pool, 2, 1);
    assert!(pool.release(guard));
    let guard = hit(&mut pool, 4, 0);
    assert!(pool.release(guard));
}

#[test]
fn a_dirty_page_is_written_back_before_its_frame_is_taken() {
    let mut pool = HeapTable::with_capacity(directory(3), 1);
    let guard = load(&mut pool, 1, 0);
    assert_eq!(pool.insert_tuple(&guard, &[7, 7]), Ok(TupleId(0)));
    let expected = pool.page(&guard).encode();
    assert!(pool.release(guard));
    match pool.get_page(PageId(2)).unwrap() {
        Access::WriteBack { frame, location, image } => {
            assert_eq!(frame, 0);
            assert_eq!(location, PageLocation(PAGE_SIZE));
            assert_eq!(&image[..], &expected[..]);
            assert_eq!(image.len(), PAGE_SIZE);
            assert_eq!(pool.frame_state(0), Some(FrameState::Evicting));
            // meanwhile the page cannot be had
            assert!(matches!(pool.get_page(PageId(1)).unwrap(), Access::Busy));
            assert!(matches!(pool.get_page(PageId(2)).unwrap(), Access::Busy));
            pool.finish_evict(frame);
        }
        other => panic!("{:?}", other),
    }
    assert_eq!(pool.frame_state(0), Some(FrameState::Unloaded));
    let guard = load(&mut pool, 2, 0);
    assert!(pool.release(guard));
}

#[test]
fn a_failed_write_back_keeps_the_page() {
    let mut pool = HeapTable::with_capacity(directory(3), 1);
    let guard = load(&mut pool, 1, 0);
    pool.insert_tuple(&guard, &[7, 7]).unwrap();
    assert!(pool.release(guard));
    match pool.get_page(PageId(2)).unwrap() {
        Access::WriteBack { frame, .. } => pool.cancel_evict(frame),
        other => panic!("{:?}", other),
    }
    assert_eq!(pool.frame_state(0), Some(FrameState::Cached));
    let guard = hit(&mut pool, 1, 0);
    assert_eq!(pool.get_tuple_bytes(&guard, TupleId(0)).unwrap(), &[7, 7]);
    assert!(pool.release(guard));
    // still dirty
    assert!(pool.flush(PageId(1)).is_some());
}

#[test]
fn flush_hands_out_dirty_pages_once() {
    let mut pool = HeapTable::with_capacity(directory(4), 4);
    let one = load(&mut pool, 1, 0);
    let two = load(&mut pool, 2, 1);
    let three = load(&mut pool, 3, 2);
    assert_eq!(pool.flush(PageId(1)).map(|w| w.0), None);
    pool.insert_tuple(&one, &[1]).unwrap();
    pool.insert_tuple(&three, &[3, 3, 3]).unwrap();
    // a page without room is not made dirty
    assert_eq!(pool.insert_tuple(&two, &vec![0u8; PAGE_SIZE]), Err(HeapError::PageFull));
    let expected_one = pool.page(&one).encode();
    let (location, image) = pool.flush(PageId(1)).unwrap();
    assert_eq!(location, PageLocation(PAGE_SIZE));
    assert_eq!(&image[..], &expected_one[..]);
    // the write is under way: the page is not handed out again
    assert!(pool.flush(PageId(1)).is_none());
    assert!(pool.finish_flush(PageId(1)));
    // written and not changed since: clean
    assert!(pool.flush(PageId(1)).is_none());
    assert!(!pool.finish_flush(PageId(1)));
    assert!(!pool.cancel_flush(PageId(1)));
    assert!(pool.flush(PageId(2)).is_none());
    assert!(pool.flush(PageId(4)).is_none());
    assert!(!pool.finish_flush(PageId(4)));
    pool.insert_tuple(&one, &[1, 1]).unwrap();
    let expected = vec![
        (PageId(1), PageLocation(PAGE_SIZE), pool.page(&one).encode()),
        (PageId(3), PageLocation(3 * PAGE_SIZE), pool.page(&three).encode()),
    ];
    let images = pool.flush_all();
    assert_eq!(images, expected);
    assert!(pool.flush_all().is_empty());
    assert!(pool.finish_flush(PageId(1)));
    assert!(pool.finish_flush(PageId(3)));
    assert!(pool.flush_all().is_empty());
    let back = Page::try_from(images[0].2.clone()).unwrap();
    assert_eq!(back.get_tuple_bytes(TupleId(1)).unwrap(), &[1, 1]);
    assert!(pool.release(one));
    assert!(pool.release(two));
    assert!(pool.release(three));
}

#[test]
fn a_failed_flush_leaves_the_page_dirty() {
    let mut pool = HeapTable::with_capacity(directory(2), 2);
    let guard = load(&mut pool, 1, 0);
    pool.insert_tuple(&guard, &[1]).unwrap();
    assert!(pool.flush(PageId(1)).is_some());
    assert!(pool.cancel_flush(PageId(1)));
    // dirty again: the next flush hands the page out once more
    let (_, image) = pool.flush(PageId(1)).unwrap();
    assert_eq!(&image[..], &pool.page(&guard).encode()[..]);
    assert!(pool.finish_flush(PageId(1)));
    assert!(pool.flush(PageId(1)).is_none());
    assert!(pool.release(guard));
}

#[test]
fn a_page_changed_during_its_write_stays_dirty() {
    let mut pool = HeapTable::with_capacity(directory(2), 2);
    let guard = load(&mut pool, 1, 0);
    pool.insert_tuple(&guard, &[1]).unwrap();
    let (_, first) = pool.flush(PageId(1)).unwrap();
    pool.insert_tuple(&guard, &[2]).unwrap();
    assert!(pool.finish_flush(PageId(1)));
    let (_, second) = pool.flush(PageId(1)).unwrap();
    assert_ne!(&first[..], &second[..]);
    assert_eq!(&second[..], &pool.page(&guard).encode()[..]);
    assert!(pool.finish_flush(PageId(1)));
    assert!(pool.release(guard));
}

#[test]
fn the_clock_passes_a_page_whose_write_is_under_way() {
    let mut pool = HeapTable::with_capacity(directory(3), 1);
    let guard = load(&mut pool, 1, 0);
    pool.insert_tuple(&guard, &[1]).unwrap();
    assert!(pool.release(guard));
    assert!(pool.flush(PageId(1)).is_some());
    // nobody holds the page, but it may not be dropped before its write is reported
    assert!(matches!(pool.get_page(PageId(2)).unwrap(), Access::Busy));
    assert!(pool.cancel_flush(PageId(1)));
    // the write failed: the page is dirty and is written back before it goes
    match pool.get_page(PageId(2)).unwrap() {
        Access::WriteBack { frame, .. } => pool.finish_evict(frame),
        other => panic!("{:?}", other),
    }
    let guard = load(&mut pool, 2, 0);
    assert!(pool.release(guard));
}

#[test]
fn flush_goes_where_the_directory_says() {
    let mut pool = HeapTable::with_capacity(directory(2), 2);
    let guard = load(&mut pool, 1, 0);
    pool.insert_tuple(&guard, &[1]).unwrap();
    pool.assign(PageId(1), PageLocation(77));
    let (location, _) = pool.flush(PageId(1)).unwrap();
    assert_eq!(location, PageLocation(77));
    assert!(pool.release(guard));
}

#[test]
fn a_full_pool_of_the_fixed_size_evicts() {
    let mut pool = HeapTable::new(directory(1030));
    let mut held = Vec::new();
    for i in 0..1024u32 {
        let guard = load(&mut pool, i + 1, i as usize);
        if i < 3 {
            // pages 1, 2 and 3 stay pinned
            held.push(guard);
        } else {
            if i == 3 {
                pool.insert_tuple(&guard, &[4, 4]).unwrap();
            }
            assert!(pool.release(guard));
        }
    }
    // every frame holds a page
    for frame in 0..1024 {
        assert_eq!(pool.frame_state(frame), Some(FrameState::Cached));
    }
    assert_eq!(pool.capacity(), 1024);
    // frames 0 to 2 are pinned, so frame 3 goes; its page is dirty and is written first
    let expected = {
        let mut page = Page::new(PageId(4));
        page.insert_tuple(&[4, 4]).unwrap();
        page.encode()
    };
    match pool.get_page(PageId(1025)).unwrap() {
        Access::WriteBack { frame, location, image } => {
            assert_eq!(frame, 3);
            assert_eq!(location, PageLocation(4 * PAGE_SIZE));
            assert_eq!(&image[..], &expected[..]);
            pool.finish_evict(frame);
        }
        other => panic!("{:?}", other),
    }
    let guard = load(&mut pool, 1025, 3);
    assert!(pool.release(guard));
    assert_eq!(pool.capacity(), 1024);
    // the next page takes the next unpinned frame, whose page is clean
    let guard = load(&mut pool, 1026, 4);
    assert!(pool.release(guard));
    // the pinned pages are where they were
    for (i, guard) in held.into_iter().enumerate() {
        assert!(pool.is_held(&guard));
        assert_eq!(pool.page(&guard).page_id(), PageId(i as u32 + 1));
        assert!(pool.release(guard));
    }
    // pages 4 and 5 were evicted and are read again
    assert!(matches!(pool.get_page(PageId(4)).unwrap(), Access::Load { .. }));
    // a cache may have more frames than the index is made for
    let big = HeapTable::with_capacity(directory(1), 70_000);
    assert_eq!(big.capacity(), 70_000);
    assert_eq!(big.frame_state(69_999), Some(FrameState::Unloaded));
}
