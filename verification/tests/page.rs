use bytes::BytesMut;
use lake::error::{Corruption, HeapError};
use lake::heap::page::{Page, PageHeader, Slot, PAGE_HEADER_SIZE, PAGE_SIZE, SLOT_SIZE};
use lake::heap::tuple::Tuple;
use lake::heap::{PageId, TupleId};

fn image(page_id: u32, used: u32, slots: &[(u32, u64)], payload: &[u8], len: usize) -> BytesMut {
    let mut bytes = Vec::new();
    bytes.extend_from_slice(&page_id.to_be_bytes());
    bytes.extend_from_slice(&used.to_be_bytes());
    bytes.extend_from_slice(&(slots.len() as u32).to_be_bytes());
    for (id, offset) in slots {
        bytes.extend_from_slice(&id.to_be_bytes());
        bytes.extend_from_slice(&offset.to_be_bytes());
    }
    bytes.extend_from_slice(payload);
    if bytes.len() < len {
        bytes.resize(len, 0);
    }
    BytesMut::from(&bytes[..])
}

#[test]
fn new_page_is_empty() {
    let page = Page::new(PageId(7));
    assert_eq!(page.page_id(), PageId(7));
    assert_eq!(page.slot_count(), 0);
    assert_eq!(page.remaining(), PAGE_SIZE - PAGE_HEADER_SIZE);
    assert_eq!(page.remaining(), 8180);
    assert_eq!(page.room(), 8180);
    assert_eq!(page.header(), PageHeader { page_id: PageId(7), used_size: 12, slot_count: 0 });
    assert_eq!(page.next_tuple_id(), TupleId(0));
    assert!(!page.contains(TupleId(0)));
}

#[test]
fn encode_lays_out_header_slots_payload_and_zero_fill() {
    let mut page = Page::new(PageId(0x0102_0304));
    assert_eq!(page.insert_tuple(&[0xaa, 0xbb, 0xcc]), Ok(TupleId(0)));
    assert_eq!(page.insert_tuple(&[0xdd]), Ok(TupleId(1)));
    let bytes = page.encode();
    assert_eq!(bytes.len(), PAGE_SIZE);
    let mut expected = vec![
        1, 2, 3, 4, // page_id
        0, 0, 0, 40, // used_size: 12 + 2 * 12 + 4
        0, 0, 0, 2, // slot_count
        0, 0, 0, 0, 0, 0, 0, 0, 0, 0, 0, 36, // slot 0: tuple 0 at byte 36
        0, 0, 0, 1, 0, 0, 0, 0, 0, 0, 0, 39, // slot 1: tuple 1 at byte 39
        0xaa, 0xbb, 0xcc, 0xdd,
    ];
    expected.resize(PAGE_SIZE, 0);
    assert_eq!(&bytes[..], &expected[..]);
}

#[test]
fn decode_reads_what_encode_wrote() {
    let mut page = Page::new(PageId(42));
    let first: Vec<u8> = (0..100u8).collect();
    let second: Vec<u8> = vec![7; 33];
    page.insert_tuple(&first).unwrap();
    page.insert_tuple(&[]).unwrap();
    page.insert_tuple(&second).unwrap();
    let bytes = page.encode();
    let back = Page::try_from(bytes.clone()).unwrap();
    assert_eq!(back.page_id(), PageId(42));
    assert_eq!(back.slot_count(), 3);
    assert_eq!(back.header(), page.header());
    assert_eq!(back.remaining(), page.remaining());
    assert_eq!(back.get_tuple_bytes(TupleId(0)).unwrap(), &first[..]);
    assert_eq!(back.get_tuple_bytes(TupleId(1)).unwrap(), &[] as &[u8]);
    assert_eq!(back.get_tuple_bytes(TupleId(2)).unwrap(), &second[..]);
    assert_eq!(&back.encode()[..], &bytes[..]);
}

#[test]
fn decode_reads_a_hand_made_image() {
    let data = image(5, 12 + 24 + 5, &[(10, 36), (3, 38)], &[1, 2, 3, 4, 5], PAGE_SIZE);
    let page = Page::try_from(data).unwrap();
    assert_eq!(page.page_id(), PageId(5));
    assert_eq!(page.header(), PageHeader { page_id: PageId(5), used_size: 41, slot_count: 2 });
    assert_eq!(page.remaining(), PAGE_SIZE - 41);
    assert_eq!(page.get_tuple_bytes(TupleId(10)).unwrap(), &[1, 2]);
    assert_eq!(page.get_tuple_bytes(TupleId(3)).unwrap(), &[3, 4, 5]);
    assert_eq!(page.get_tuple_bytes(TupleId(0)), Err(HeapError::TupleNotFound));
    assert_eq!(page.next_tuple_id(), TupleId(0));
}

#[test]
fn decode_accepts_an_image_that_ends_with_the_payload() {
    let data = image(5, 12 + 12 + 2, &[(0, 24)], &[8, 9], 0);
    assert_eq!(data.len(), 26);
    let page = Page::try_from(data).unwrap();
    assert_eq!(page.get_tuple_bytes(TupleId(0)).unwrap(), &[8, 9]);
}

#[test]
fn page_shorter_than_header_is_corrupt() {
    for len in [0usize, 1, 11] {
        let data = BytesMut::from(&vec![0u8; len][..]);
        assert_eq!(Page::try_from(data).err(), Some(HeapError::Corruption(Corruption::PageHeader)));
    }
}

#[test]
fn page_with_too_many_slots_is_corrupt() {
    // three slots declared, bytes for two and a half
    let mut bytes = Vec::new();
    bytes.extend_from_slice(&1u32.to_be_bytes());
    bytes.extend_from_slice(&48u32.to_be_bytes());
    bytes.extend_from_slice(&3u32.to_be_bytes());
    bytes.resize(12 + 30, 0);
    let r = Page::try_from(BytesMut::from(&bytes[..]));
    assert_eq!(r.err(), Some(HeapError::Corruption(Corruption::TupleSlot)));
    // a huge count must not overflow anything
    let mut bytes = Vec::new();
    bytes.extend_from_slice(&1u32.to_be_bytes());
    bytes.extend_from_slice(&12u32.to_be_bytes());
    bytes.extend_from_slice(&u32::MAX.to_be_bytes());
    bytes.resize(PAGE_SIZE, 0);
    let r = Page::try_from(BytesMut::from(&bytes[..]));
    assert_eq!(r.err(), Some(HeapError::Corruption(Corruption::TupleSlot)));
}

#[test]
fn page_with_wrong_used_size_is_corrupt() {
    // more than a page
    let data = image(1, PAGE_SIZE as u32 + 1, &[], &[], PAGE_SIZE + 8);
    assert_eq!(Page::try_from(data).err(), Some(HeapError::Corruption(Corruption::PageSize)));
    let data = image(1, u32::MAX, &[], &[], PAGE_SIZE);
    assert_eq!(Page::try_from(data).err(), Some(HeapError::Corruption(Corruption::PageSize)));
    // exactly a page is fine
    let data = image(1, PAGE_SIZE as u32, &[], &vec![1u8; PAGE_SIZE - 12], PAGE_SIZE);
    assert_eq!(Page::try_from(data).unwrap().remaining(), 0);
}

#[test]
fn a_used_size_that_does_not_count_the_header_is_read_as_it_stands() {
    // twelve zero bytes
    let page = Page::try_from(BytesMut::from(&[0u8; 12][..])).unwrap();
    assert_eq!(page.header(), PageHeader { page_id: PageId(0), used_size: 0, slot_count: 0 });
    assert_eq!(page.page_id(), PageId(0));
    assert_eq!(page.slot_count(), 0);
    assert_eq!(page.remaining(), 8192);
    assert_eq!(page.room(), 8180);
    assert_eq!(page.get_tuple_bytes(TupleId(0)), Err(HeapError::TupleNotFound));
    assert_eq!(&page.encode()[..], &vec![0u8; PAGE_SIZE][..]);
    // a whole page of zero bytes
    let page = Page::try_from(BytesMut::from(&vec![0u8; PAGE_SIZE][..])).unwrap();
    assert_eq!(page.header(), PageHeader { page_id: PageId(0), used_size: 0, slot_count: 0 });
    assert_eq!(page.remaining(), 8192);
    let again = Page::try_from(page.encode()).unwrap();
    assert_eq!(again.header(), page.header());
    // used size 11: still no payload, whatever follows the header
    let page = Page::try_from(image(9, 11, &[], &[1, 2, 3], PAGE_SIZE)).unwrap();
    assert_eq!(page.header(), PageHeader { page_id: PageId(9), used_size: 11, slot_count: 0 });
    assert_eq!(page.remaining(), 8181);
    assert_eq!(page.room(), 8180);
    let mut expected = vec![0u8, 0, 0, 9, 0, 0, 0, 11, 0, 0, 0, 0];
    expected.resize(PAGE_SIZE, 0);
    assert_eq!(&page.encode()[..], &expected[..]);
    // with a slot no offset can lie inside a payload that ends before it begins
    let data = image(1, 12 + 11, &[(0, 24)], &[], PAGE_SIZE);
    assert_eq!(Page::try_from(data).err(), Some(HeapError::Corruption(Corruption::SlotOffset)));
    let data = image(1, 0, &[(0, 0)], &[], PAGE_SIZE);
    assert_eq!(Page::try_from(data).err(), Some(HeapError::Corruption(Corruption::SlotOffset)));
}

#[test]
fn the_first_insert_counts_the_header_in() {
    let mut page = Page::try_from(BytesMut::from(&[0u8; 12][..])).unwrap();
    // the image has room for 8180 bytes: 8169 and a slot record are one too many
    assert_eq!(page.insert_tuple(&vec![1u8; 8169]), Err(HeapError::PageFull));
    assert_eq!(page.remaining(), 8192);
    assert_eq!(page.slot_count(), 0);
    assert_eq!(page.insert_tuple(&vec![1u8; 8168]), Ok(TupleId(0)));
    assert_eq!(page.header(), PageHeader { page_id: PageId(0), used_size: 8192, slot_count: 1 });
    assert_eq!(page.remaining(), 0);
    assert_eq!(page.room(), 0);
    let back = Page::try_from(page.encode()).unwrap();
    assert_eq!(back.get_tuple_bytes(TupleId(0)).unwrap(), &vec![1u8; 8168][..]);
    // a small tuple
    let mut page = Page::try_from(image(3, 5, &[], &[], 12)).unwrap();
    assert_eq!(page.insert_tuple(&[7, 8]), Ok(TupleId(0)));
    assert_eq!(page.header(), PageHeader { page_id: PageId(3), used_size: 26, slot_count: 1 });
    assert_eq!(page.remaining(), PAGE_SIZE - 26);
    assert_eq!(page.room(), PAGE_SIZE - 26);
    assert_eq!(page.get_tuple_bytes(TupleId(0)).unwrap(), &[7, 8]);
    let bytes = page.encode();
    assert_eq!(&bytes[..26], &[0, 0, 0, 3, 0, 0, 0, 26, 0, 0, 0, 1, 0, 0, 0, 0, 0, 0, 0, 0, 0, 0, 0, 24, 7, 8]);
}

#[test]
fn an_image_that_ends_before_its_used_size_is_zero_filled() {
    // page 1, used size 8000, no slots, and nothing behind the header
    let data = BytesMut::from(&[0u8, 0, 0, 1, 0, 0, 0x1f, 0x40, 0, 0, 0, 0][..]);
    let page = Page::try_from(data).unwrap();
    assert_eq!(page.page_id(), PageId(1));
    assert_eq!(page.header(), PageHeader { page_id: PageId(1), used_size: 8000, slot_count: 0 });
    assert_eq!(page.slot_count(), 0);
    assert_eq!(page.remaining(), 192);
    assert_eq!(page.room(), 192);
    let mut expected = vec![0u8, 0, 0, 1, 0, 0, 0x1f, 0x40, 0, 0, 0, 0];
    expected.resize(PAGE_SIZE, 0);
    assert_eq!(&page.encode()[..], &expected[..]);
    // what is free is what can be inserted
    let mut full = Page::try_from(BytesMut::from(&[0u8, 0, 0, 1, 0, 0, 0x1f, 0x40, 0, 0, 0, 0][..])).unwrap();
    assert_eq!(full.insert_tuple(&vec![5u8; 181]), Err(HeapError::PageFull));
    assert_eq!(full.remaining(), 192);
    assert_eq!(full.insert_tuple(&vec![5u8; 180]), Ok(TupleId(0)));
    assert_eq!(full.remaining(), 0);
    assert_eq!(full.get_tuple_bytes(TupleId(0)).unwrap(), &vec![5u8; 180][..]);
    // a tuple that the image holds only in part
    let data = image(1, 12 + 12 + 6, &[(0, 24)], &[7, 8], 0);
    assert_eq!(data.len(), 26);
    let page = Page::try_from(data).unwrap();
    assert_eq!(page.get_tuple_bytes(TupleId(0)).unwrap(), &[7, 8, 0, 0, 0, 0]);
    assert_eq!(page.remaining(), PAGE_SIZE - 30);
}

#[test]
fn page_with_bad_offsets_is_corrupt() {
    // behind the used part
    let data = image(1, 12 + 12 + 4, &[(0, 29)], &[1, 2, 3, 4], PAGE_SIZE);
    assert_eq!(Page::try_from(data).err(), Some(HeapError::Corruption(Corruption::SlotOffset)));
    // at the end of the used part is an empty tuple
    let data = image(1, 12 + 12 + 4, &[(0, 28)], &[1, 2, 3, 4], PAGE_SIZE);
    assert_eq!(Page::try_from(data).unwrap().get_tuple_bytes(TupleId(0)).unwrap(), &[] as &[u8]);
    // inside the slot directory
    let data = image(1, 12 + 12 + 4, &[(0, 23)], &[1, 2, 3, 4], PAGE_SIZE);
    assert_eq!(Page::try_from(data).err(), Some(HeapError::Corruption(Corruption::SlotOffset)));
    // counted from the payload, not from the start of the image
    let data = image(1, 12 + 12 + 4, &[(0, 0)], &[1, 2, 3, 4], PAGE_SIZE);
    assert_eq!(Page::try_from(data).err(), Some(HeapError::Corruption(Corruption::SlotOffset)));
    // far beyond anything
    let data = image(1, 12 + 12 + 4, &[(0, u64::MAX)], &[1, 2, 3, 4], PAGE_SIZE);
    assert_eq!(Page::try_from(data).err(), Some(HeapError::Corruption(Corruption::SlotOffset)));
}

#[test]
fn slots_need_not_stand_in_the_order_of_their_tuples() {
    let payload: Vec<u8> = (1..=10).collect();
    // tuple 0 holds bytes 5..10 of the payload, tuple 1 bytes 0..5
    let data = image(1, 12 + 24 + 10, &[(0, 36 + 5), (1, 36)], &payload, PAGE_SIZE);
    let mut page = Page::try_from(data).unwrap();
    assert_eq!(page.get_tuple_bytes(TupleId(0)).unwrap(), &[6, 7, 8, 9, 10]);
    assert_eq!(page.get_tuple_bytes(TupleId(1)).unwrap(), &[1, 2, 3, 4, 5]);
    // two slots at one place: the one in front in the directory is empty
    let data = image(1, 12 + 36 + 4, &[(7, 50), (8, 48), (9, 50)], &[1, 2, 3, 4], PAGE_SIZE);
    let other = Page::try_from(data).unwrap();
    assert_eq!(other.get_tuple_bytes(TupleId(7)).unwrap(), &[] as &[u8]);
    assert_eq!(other.get_tuple_bytes(TupleId(8)).unwrap(), &[1, 2]);
    assert_eq!(other.get_tuple_bytes(TupleId(9)).unwrap(), &[3, 4]);
    // inserting keeps what was there
    assert_eq!(page.insert_tuple(&[11, 12]), Ok(TupleId(2)));
    assert_eq!(page.get_tuple_bytes(TupleId(0)).unwrap(), &[6, 7, 8, 9, 10]);
    assert_eq!(page.get_tuple_bytes(TupleId(1)).unwrap(), &[1, 2, 3, 4, 5]);
    assert_eq!(page.get_tuple_bytes(TupleId(2)).unwrap(), &[11, 12]);
    let back = Page::try_from(page.encode()).unwrap();
    assert_eq!(back.get_tuple_bytes(TupleId(0)).unwrap(), &[6, 7, 8, 9, 10]);
    assert_eq!(back.get_tuple_bytes(TupleId(1)).unwrap(), &[1, 2, 3, 4, 5]);
    assert_eq!(back.get_tuple_bytes(TupleId(2)).unwrap(), &[11, 12]);
}

#[test]
fn page_with_duplicate_tuple_is_corrupt() {
    let data = image(1, 12 + 36 + 4, &[(4, 48), (5, 49), (4, 50)], &[1, 2, 3, 4], PAGE_SIZE);
    assert_eq!(Page::try_from(data).err(), Some(HeapError::Corruption(Corruption::DuplicateTuple)));
}

#[test]
fn offsets_move_on_when_a_slot_record_is_added() {
    let mut page = Page::new(PageId(3));
    page.insert_tuple(&[1, 2, 3]).unwrap();
    let one = page.encode();
    // one slot: the tuple begins at byte 24
    assert_eq!(&one[12..24], &[0, 0, 0, 0, 0, 0, 0, 0, 0, 0, 0, 24]);
    assert_eq!(&one[24..27], &[1, 2, 3]);
    page.insert_tuple(&[4]).unwrap();
    let two = page.encode();
    // two slots: the first tuple begins at byte 36 now, the second at byte 39
    assert_eq!(&two[12..24], &[0, 0, 0, 0, 0, 0, 0, 0, 0, 0, 0, 36]);
    assert_eq!(&two[24..36], &[0, 0, 0, 1, 0, 0, 0, 0, 0, 0, 0, 39]);
    assert_eq!(&two[36..40], &[1, 2, 3, 4]);
    assert_eq!(&two[4..8], &[0, 0, 0, 40]);
}

#[test]
fn insert_takes_the_smallest_unused_identifier() {
    let data = image(1, 12 + 36, &[(0, 48), (1, 48), (3, 48)], &[], PAGE_SIZE);
    let mut page = Page::try_from(data).unwrap();
    assert_eq!(page.next_tuple_id(), TupleId(2));
    assert_eq!(page.insert_tuple(&[1]), Ok(TupleId(2)));
    assert_eq!(page.insert_tuple(&[2]), Ok(TupleId(4)));
    assert_eq!(page.insert_tuple(&[3]), Ok(TupleId(5)));
    assert_eq!(page.get_tuple_bytes(TupleId(2)).unwrap(), &[1]);
    assert_eq!(page.get_tuple_bytes(TupleId(4)).unwrap(), &[2]);
    assert_eq!(page.get_tuple_bytes(TupleId(5)).unwrap(), &[3]);
    assert_eq!(page.get_tuple_bytes(TupleId(3)).unwrap(), &[] as &[u8]);
}

#[test]
fn remaining_is_exact_and_a_full_page_refuses() {
    let mut page = Page::new(PageId(1));
    let tuple = vec![0x5au8; 1000];
    for i in 0..8u32 {
        assert_eq!(page.insert_tuple(&tuple), Ok(TupleId(i)));
        assert_eq!(page.remaining(), PAGE_SIZE - PAGE_HEADER_SIZE - (i as usize + 1) * (1000 + SLOT_SIZE));
    }
    // 8000 bytes of payload and eight slot records
    assert_eq!(page.remaining(), 8192 - 12 - 8000 - 96);
    assert_eq!(page.remaining(), 84);
    let before = page.encode();
    // 73 bytes and a slot record are one byte too many
    assert_eq!(page.insert_tuple(&vec![1u8; 73]), Err(HeapError::PageFull));
    assert_eq!(page.remaining(), 84);
    assert_eq!(page.slot_count(), 8);
    assert!(!page.contains(TupleId(8)));
    assert_eq!(&page.encode()[..], &before[..]);
    // 72 bytes fit exactly
    assert_eq!(page.insert_tuple(&vec![1u8; 72]), Ok(TupleId(8)));
    assert_eq!(page.remaining(), 0);
    assert_eq!(page.insert_tuple(&[]), Err(HeapError::PageFull));
    let back = Page::try_from(page.encode()).unwrap();
    assert_eq!(back.get_tuple_bytes(TupleId(8)).unwrap(), &vec![1u8; 72][..]);
    assert_eq!(back.get_tuple_bytes(TupleId(7)).unwrap(), &tuple[..]);
}

#[test]
fn a_page_with_less_room_than_a_slot_record_refuses_the_empty_tuple() {
    let mut page = Page::new(PageId(1));
    page.insert_tuple(&vec![0u8; 8192 - 12 - 12 - 11]).unwrap();
    assert_eq!(page.remaining(), 11);
    assert_eq!(page.insert_tuple(&[]), Err(HeapError::PageFull));
}

#[test]
fn missing_tuple_is_not_found() {
    let mut page = Page::new(PageId(1));
    assert_eq!(page.get_tuple_bytes(TupleId(0)), Err(HeapError::TupleNotFound));
    page.insert_tuple(&[1, 2, 3]).unwrap();
    assert_eq!(page.get_tuple_bytes(TupleId(0)).unwrap(), &[1, 2, 3]);
    assert_eq!(page.get_tuple_bytes(TupleId(1)), Err(HeapError::TupleNotFound));
}

#[test]
fn tuples_stored_in_a_page_decode_as_tuples() {
    let payload = [1u8, 2, 3];
    let tuple = Tuple::new(77, 0, 1, 0, &payload);
    let mut page = Page::new(PageId(1));
    let id = page.insert_tuple(&tuple.encode()).unwrap();
    let back = Page::try_from(page.encode()).unwrap();
    let stored = Tuple::try_from(back.get_tuple_bytes(id).unwrap()).unwrap();
    assert_eq!(stored.header().self_id, 77);
    assert_eq!(stored.data(), &payload);
    let direct = back.get_tuple(id).unwrap();
    assert_eq!(direct.header(), stored.header());
    assert_eq!(direct.data(), &payload);
    assert_eq!(back.get_tuple(TupleId(9)).err(), Some(HeapError::TupleNotFound));
    // bytes that are no tuple
    let mut odd = Page::new(PageId(2));
    let id = odd.insert_tuple(&[1, 2, 3]).unwrap();
    assert_eq!(odd.get_tuple(id).err(), Some(HeapError::Corruption(Corruption::TupleHeader)));
}

#[test]
fn header_and_slot_records_read_alone() {
    let bytes = [0u8, 0, 0, 9, 0, 0, 0, 12, 0, 0, 0, 0, 0xff];
    let (header, rest) = PageHeader::try_from(&bytes).unwrap();
    assert_eq!(header, PageHeader { page_id: PageId(9), used_size: 12, slot_count: 0 });
    assert_eq!(rest, &[0xff]);
    let bytes = [0u8, 0, 0, 2, 1, 2, 3, 4, 5, 6, 7, 8];
    let (slot, rest) = Slot::try_from(&bytes).unwrap();
    assert_eq!(slot, Slot { tuple_id: TupleId(2), offset: 0x0102_0304_0506_0708 });
    assert!(rest.is_empty());
    assert_eq!(Slot::try_from(&bytes[..11]).err(), Some(HeapError::Corruption(Corruption::TupleSlot)));
    assert_eq!(PageHeader::try_from(&bytes[..11]).err(), Some(HeapError::Corruption(Corruption::PageHeader)));
    let mut out = BytesMut::new();
    header.encode_into(&mut out);
    slot.encode_into(&mut out);
    assert_eq!(&out[..], &[0u8, 0, 0, 9, 0, 0, 0, 12, 0, 0, 0, 0, 0, 0, 0, 2, 1, 2, 3, 4, 5, 6, 7, 8]);
}
