//! The byte layout of a page and the operations on a page in memory.
//!
//! A page image has a fixed size. It starts with the header, goes on with one
//! slot record per tuple, then holds the tuples' bytes one after the other,
//! and is filled up with zero bytes:
//!
//! | bytes            | content                                         |
//! |------------------|-------------------------------------------------|
//! | 0..12            | page_id: u32, used_size: u32, slot_count: u32   |
//! | 12..12+12n       | n slot records: tuple_id: u32, offset: u64      |
//! | 12+12n..used     | payload                                         |
//! | used..8192       | zero                                            |
//!
//! All integers are big-endian. The used size counts the header and the slot
//! records as well as the payload, so that it is also the place in the image
//! where the payload ends. A slot's offset is the place in the image where
//! its tuple begins. The tuple ends where the next tuple behind it begins,
//! and the last one ends with the payload.
//!
//! A tuple that is inserted gets a slot record behind the others and its
//! bytes behind the payload. The new record pushes the payload back by 12
//! bytes, and so the offset of every slot grows by 12.
//!
//! An image may state a used size that does not count the header, down to
//! zero; a page of zero bytes is the plainest case. Such an image has no
//! slots, since no slot could point into its payload. It is read as an empty
//! page with the used size it states. The header takes its bytes of the
//! image all the same, so the first tuple that goes in counts it in.

use crate::codec::be_u32;
use crate::codec::be_u64;
use crate::codec::buffer_advance;
use crate::codec::buffer_as_slice;
use crate::codec::buffer_bytes;
use crate::codec::buffer_truncate;
use crate::codec::buffer_with_capacity;
use crate::codec::lemma_be_u32_of_bytes;
use crate::codec::lemma_be_u64_of_bytes;
use crate::codec::put_bytes;
use crate::codec::put_slice;
use crate::codec::put_u32;
use crate::codec::put_u64;
use crate::codec::take_u32;
use crate::codec::take_u64;
use crate::codec::u32_be;
use crate::codec::u64_be;
use crate::codec::zeros;
use crate::error::Corruption;
use crate::error::HeapError;
use crate::heap::ident::PageId;
use crate::heap::ident::TupleId;
use crate::heap::tuple::Tuple;
use crate::heap::tuple::TupleView;
use bytes::BytesMut;
use vstd::prelude::*;
use vstd::seq_lib::seq_to_set_is_finite;
use vstd::set_lib::lemma_int_range;
use vstd::set_lib::lemma_len_subset;
use vstd::set_lib::set_int_range;
use vstd::slice::slice_subrange;

verus! {

/// Length in bytes of a page image.
pub const PAGE_SIZE: usize = 8192;

/// Length in bytes of an encoded page header.
pub const PAGE_HEADER_SIZE: usize = 12;

/// Length in bytes of an encoded slot record.
pub const SLOT_SIZE: usize = 12;

/// The fixed part of a page.
#[derive(Debug, Clone, Copy, PartialEq, Eq, Structural)]
pub struct PageHeader {
    /// Identifier of the page.
    pub page_id: PageId,
    /// Bytes of the image in use: header, slot records and payload.
    pub used_size: u32,
    /// Number of slot records.
    pub slot_count: u32,
}

/// One entry of the slot directory.
#[derive(Debug, Clone, Copy, PartialEq, Eq, Structural)]
pub struct Slot {
    /// Identifier of the tuple.
    pub tuple_id: TupleId,
    /// Where in the page image the tuple's bytes begin.
    pub offset: u64,
}

impl PageHeader {
    /// The 12 bytes of a page header.
    pub open spec fn spec_encode(self) -> Seq<u8> {
        u32_be(self.page_id.0) + u32_be(self.used_size) + u32_be(self.slot_count)
    }

    /// The page header that the first 12 bytes of `bytes` spell.
    pub open spec fn spec_decode(bytes: Seq<u8>) -> PageHeader
        recommends
            bytes.len() >= PAGE_HEADER_SIZE,
    {
        PageHeader {
            page_id: PageId(be_u32(bytes.subrange(0, 4))),
            used_size: be_u32(bytes.subrange(4, 8)),
            slot_count: be_u32(bytes.subrange(8, 12)),
        }
    }

    /// Reads a page header from the front of `data` and returns it with the
    /// bytes that follow it. Fails exactly when `data` is shorter than a header.
    pub fn try_from<'a>(data: &'a [u8]) -> (r: Result<(PageHeader, &'a [u8]), HeapError>)
        ensures
            data@.len() < PAGE_HEADER_SIZE <==> r is Err,
            r is Err ==> r->Err_0 == HeapError::Corruption(Corruption::PageHeader),
            r is Ok ==> r->Ok_0.0 == PageHeader::spec_decode(data@) && r->Ok_0.1@
                == data@.subrange(PAGE_HEADER_SIZE as int, data@.len() as int),
    {
        if data.len() < PAGE_HEADER_SIZE {
            return Err(HeapError::Corruption(Corruption::PageHeader));
        }
        let (page_id, rest) = take_u32(data);
        let (used_size, rest) = take_u32(rest);
        let (slot_count, rest) = take_u32(rest);
        proof {
            let s = data@;
            let n = s.len() as int;
            assert(s.subrange(4, n).subrange(0, 4) =~= s.subrange(4, 8));
            assert(s.subrange(4, n).subrange(4, n - 4) =~= s.subrange(8, n));
            assert(s.subrange(8, n).subrange(0, 4) =~= s.subrange(8, 12));
            assert(s.subrange(8, n).subrange(4, n - 8) =~= s.subrange(12, n));
        }
        Ok((PageHeader { page_id: PageId(page_id), used_size, slot_count }, rest))
    }

    /// Appends the 12 bytes of this header to `out`.
    pub fn encode_into(&self, out: &mut BytesMut)
        requires
            buffer_bytes(*old(out)).len() + PAGE_HEADER_SIZE <= isize::MAX,
        ensures
            buffer_bytes(*final(out)) == buffer_bytes(*old(out)) + self.spec_encode(),
    {
        let ghost before = buffer_bytes(*out);
        put_u32(out, self.page_id.0);
        put_u32(out, self.used_size);
        put_u32(out, self.slot_count);
        assert(buffer_bytes(*out) =~= before + self.spec_encode());
    }

    /// An encoded page header has 12 bytes, and reading it back gives the header.
    pub proof fn lemma_decode_encode(self)
        ensures
            self.spec_encode().len() == PAGE_HEADER_SIZE,
            PageHeader::spec_decode(self.spec_encode()) == self,
    {
        let s = self.spec_encode();
        lemma_be_u32_of_bytes(self.page_id.0);
        lemma_be_u32_of_bytes(self.used_size);
        lemma_be_u32_of_bytes(self.slot_count);
        assert(s.subrange(0, 4) =~= u32_be(self.page_id.0));
        assert(s.subrange(4, 8) =~= u32_be(self.used_size));
        assert(s.subrange(8, 12) =~= u32_be(self.slot_count));
    }
}

impl Slot {
    /// The 12 bytes of a slot record.
    pub open spec fn spec_encode(self) -> Seq<u8> {
        u32_be(self.tuple_id.0) + u64_be(self.offset)
    }

    /// The slot record that the first 12 bytes of `bytes` spell.
    pub open spec fn spec_decode(bytes: Seq<u8>) -> Slot
        recommends
            bytes.len() >= SLOT_SIZE,
    {
        Slot { tuple_id: TupleId(be_u32(bytes.subrange(0, 4))), offset: be_u64(bytes.subrange(4, 12)) }
    }

    /// Reads a slot record from the front of `data` and returns it with the
    /// bytes that follow it. Fails exactly when `data` is shorter than a record.
    pub fn try_from<'a>(data: &'a [u8]) -> (r: Result<(Slot, &'a [u8]), HeapError>)
        ensures
            data@.len() < SLOT_SIZE <==> r is Err,
            r is Err ==> r->Err_0 == HeapError::Corruption(Corruption::TupleSlot),
            r is Ok ==> r->Ok_0.0 == Slot::spec_decode(data@) && r->Ok_0.1@ == data@.subrange(
                SLOT_SIZE as int,
                data@.len() as int,
            ),
    {
        if data.len() < SLOT_SIZE {
            return Err(HeapError::Corruption(Corruption::TupleSlot));
        }
        let (tuple_id, rest) = take_u32(data);
        let (offset, rest) = take_u64(rest);
        proof {
            let s = data@;
            let n = s.len() as int;
            assert(s.subrange(4, n).subrange(0, 8) =~= s.subrange(4, 12));
            assert(s.subrange(4, n).subrange(8, n - 4) =~= s.subrange(12, n));
        }
        Ok((Slot { tuple_id: TupleId(tuple_id), offset }, rest))
    }

    /// Appends the 12 bytes of this record to `out`.
    pub fn encode_into(&self, out: &mut BytesMut)
        requires
            buffer_bytes(*old(out)).len() + SLOT_SIZE <= isize::MAX,
        ensures
            buffer_bytes(*final(out)) == buffer_bytes(*old(out)) + self.spec_encode(),
    {
        let ghost before = buffer_bytes(*out);
        put_u32(out, self.tuple_id.0);
        put_u64(out, self.offset);
        assert(buffer_bytes(*out) =~= before + self.spec_encode());
    }

    /// An encoded slot record has 12 bytes, and reading it back gives the record.
    pub proof fn lemma_decode_encode(self)
        ensures
            self.spec_encode().len() == SLOT_SIZE,
            Slot::spec_decode(self.spec_encode()) == self,
    {
        let s = self.spec_encode();
        lemma_be_u32_of_bytes(self.tuple_id.0);
        lemma_be_u64_of_bytes(self.offset);
        assert(s.subrange(0, 4) =~= u32_be(self.tuple_id.0));
        assert(s.subrange(4, 12) =~= u64_be(self.offset));
    }
}

/// The bytes of a slot directory: the records of its slots, first to last.
pub open spec fn slots_bytes(slots: Seq<Slot>) -> Seq<u8>
    decreases slots.len(),
{
    if slots.len() == 0 {
        Seq::<u8>::empty()
    } else {
        slots_bytes(slots.drop_last()) + slots.last().spec_encode()
    }
}

/// The first `n` slot records that follow the page header in `bytes`.
pub open spec fn spec_decode_slots(bytes: Seq<u8>, n: nat) -> Seq<Slot> {
    Seq::new(
        n,
        |i: int|
            Slot::spec_decode(
                bytes.subrange(PAGE_HEADER_SIZE + SLOT_SIZE * i, PAGE_HEADER_SIZE + SLOT_SIZE * (i + 1)),
            ),
    )
}

/// An encoded slot directory takes 12 bytes per slot, and record `i` stands
/// at bytes `12 * i .. 12 * i + 12`.
pub proof fn lemma_slots_bytes(slots: Seq<Slot>)
    ensures
        slots_bytes(slots).len() == SLOT_SIZE * slots.len(),
        forall|i: int|
            0 <= i < slots.len() ==> #[trigger] slots_bytes(slots).subrange(
                SLOT_SIZE * i,
                SLOT_SIZE * (i + 1),
            ) == slots[i].spec_encode(),
    decreases slots.len(),
{
    if slots.len() > 0 {
        let front = slots.drop_last();
        let last = slots.last();
        lemma_slots_bytes(front);
        last.lemma_decode_encode();
        assert forall|i: int| 0 <= i < slots.len() implies #[trigger] slots_bytes(slots).subrange(
            SLOT_SIZE * i,
            SLOT_SIZE * (i + 1),
        ) == slots[i].spec_encode() by {
            if i < front.len() {
                assert(slots_bytes(slots).subrange(SLOT_SIZE * i, SLOT_SIZE * (i + 1))
                    =~= slots_bytes(front).subrange(SLOT_SIZE * i, SLOT_SIZE * (i + 1)));
                assert(front[i] == slots[i]);
            } else {
                assert(slots_bytes(slots).subrange(SLOT_SIZE * i, SLOT_SIZE * (i + 1))
                    =~= last.spec_encode());
            }
        }
    }
}

/// Appending a slot to a directory appends its record to the bytes.
pub proof fn lemma_slots_bytes_push(slots: Seq<Slot>, slot: Slot)
    ensures
        slots_bytes(slots.push(slot)) == slots_bytes(slots) + slot.spec_encode(),
{
    assert(slots.push(slot).drop_last() =~= slots);
}

/// Whether every slot begins inside the payload: not before the end of the
/// slot directory and not behind the used part of the image. A slot that
/// begins where the used part ends holds an empty tuple.
pub open spec fn offsets_inside(slots: Seq<Slot>, used_size: int) -> bool {
    forall|i: int|
        0 <= i < slots.len() ==> PAGE_HEADER_SIZE + SLOT_SIZE * slots.len() <= (
        #[trigger] slots[i]).offset <= used_size
}

/// Whether no tuple identifier stands in two slots.
pub open spec fn ids_unique(slots: Seq<Slot>) -> bool {
    forall|i: int, j: int| 0 <= i < j < slots.len() ==> slots[i].tuple_id != slots[j].tuple_id
}

/// Whether the tuple of slot `j` lies behind the tuple of slot `i`: it
/// begins further back, or at the same place with its slot further back in
/// the directory.
pub open spec fn follows(slots: Seq<Slot>, i: int, j: int) -> bool {
    slots[j].offset > slots[i].offset || (slots[j].offset == slots[i].offset && j > i)
}

/// The least of `limit` and the offsets of those of the first `m` slots
/// whose tuples lie behind the tuple of slot `i`.
pub open spec fn end_scan(slots: Seq<Slot>, i: int, limit: int, m: int) -> int
    decreases m,
{
    if m <= 0 {
        limit
    } else {
        let rest = end_scan(slots, i, limit, m - 1);
        if follows(slots, i, m - 1) && slots[m - 1].offset < rest {
            slots[m - 1].offset as int
        } else {
            rest
        }
    }
}

/// Whether `end` is the least of `limit` and the offsets of those of the
/// first `m` slots whose tuples lie behind the tuple of slot `i`.
pub open spec fn is_least_end(slots: Seq<Slot>, i: int, limit: int, m: int, end: int) -> bool {
    &&& end <= limit
    &&& forall|j: int| 0 <= j < m && #[trigger] follows(slots, i, j) ==> end <= slots[j].offset
    &&& (end == limit || exists|j: int|
        0 <= j < m && #[trigger] follows(slots, i, j) && end == slots[j].offset)
}

/// What [`end_scan`] computes is that least value.
pub proof fn lemma_end_scan(slots: Seq<Slot>, i: int, limit: int, m: int)
    requires
        0 <= m <= slots.len(),
    ensures
        is_least_end(slots, i, limit, m, end_scan(slots, i, limit, m)),
    decreases m,
{
    if m > 0 {
        lemma_end_scan(slots, i, limit, m - 1);
        let rest = end_scan(slots, i, limit, m - 1);
        let end = end_scan(slots, i, limit, m);
        if rest != limit && end == rest {
            let j = choose|j: int|
                0 <= j < m - 1 && #[trigger] follows(slots, i, j) && rest == slots[j].offset;
            assert(0 <= j < m && follows(slots, i, j) && end == slots[j].offset);
        }
        if end != rest {
            assert(follows(slots, i, m - 1) && end == slots[m - 1].offset);
        }
    }
}

/// There is one such least value only.
pub proof fn lemma_least_end_unique(slots: Seq<Slot>, i: int, limit: int, m: int, a: int, b: int)
    requires
        is_least_end(slots, i, limit, m, a),
        is_least_end(slots, i, limit, m, b),
    ensures
        a == b,
{
}

/// A page as the contracts see it: its identifier, its used size, its slot
/// directory in order, and its payload bytes.
pub struct PageView {
    pub page_id: PageId,
    /// The used size that the header states.
    pub used_size: int,
    pub slots: Seq<Slot>,
    pub payload: Seq<u8>,
}

impl PageView {
    /// Where in the image the slot directory ends and the payload begins.
    pub open spec fn directory_end(self) -> int {
        PAGE_HEADER_SIZE + SLOT_SIZE * self.slots.len()
    }

    /// Where in the image the payload ends: the bytes that header, slot
    /// records and payload take.
    pub open spec fn filled(self) -> int {
        self.directory_end() + self.payload.len()
    }

    /// The used size with the header and the slot records counted in, where
    /// it did not count them.
    pub open spec fn counted(self) -> int {
        if self.used_size < self.directory_end() {
            self.directory_end()
        } else {
            self.used_size
        }
    }

    /// Bytes still free: the capacity of a page less the used size.
    pub open spec fn remaining(self) -> int {
        PAGE_SIZE - self.used_size
    }

    /// Bytes that can still be put into the image. This is what
    /// [`PageView::remaining`] gives, but for a page whose used size does
    /// not count the header, where it is less by what is not counted.
    pub open spec fn room(self) -> int {
        PAGE_SIZE - self.counted()
    }

    /// The invariant of a page: the used size is no more than a page; the
    /// payload ends where the used size says, if that counts the header and
    /// the slot records, and is empty if it does not; every slot points into
    /// the payload; and no tuple identifier occurs twice.
    pub open spec fn wf(self) -> bool {
        &&& 0 <= self.used_size <= PAGE_SIZE
        &&& self.filled() == self.counted()
        &&& offsets_inside(self.slots, self.used_size)
        &&& ids_unique(self.slots)
    }

    /// Whether the page has a slot for `id`.
    pub open spec fn has(self, id: TupleId) -> bool {
        exists|i: int| 0 <= i < self.slots.len() && self.slots[i].tuple_id == id
    }

    /// The position in the directory of the slot for `id`.
    pub open spec fn index_of(self, id: TupleId) -> int
        recommends
            self.has(id),
    {
        choose|i: int| 0 <= i < self.slots.len() && self.slots[i].tuple_id == id
    }

    /// Where in the image the tuple of slot `i` ends: where the next tuple
    /// behind it begins, or with the payload if none lies behind it.
    pub open spec fn tuple_end(self, i: int) -> int {
        end_scan(self.slots, i, self.used_size, self.slots.len() as int)
    }

    /// The bytes of the tuple of slot `i`.
    pub open spec fn tuple_at(self, i: int) -> Seq<u8> {
        self.payload.subrange(
            self.slots[i].offset - self.directory_end(),
            self.tuple_end(i) - self.directory_end(),
        )
    }

    /// The bytes of the tuple `id`.
    pub open spec fn tuple_bytes(self, id: TupleId) -> Seq<u8>
        recommends
            self.has(id),
    {
        self.tuple_at(self.index_of(id))
    }

    /// Whether `id` is the identifier that the next inserted tuple gets: the
    /// smallest one that no slot of the page carries.
    pub open spec fn is_next_id(self, id: TupleId) -> bool {
        &&& !self.has(id)
        &&& forall|k: u32| k < id.0 ==> self.has(TupleId(k))
    }

    /// The page after the tuple `bytes` was appended under `id`. The new
    /// slot record pushes the payload back by its length, so every slot
    /// that was there points that much further; the new slot points behind
    /// what was the end of the payload. The used size grows by the length of
    /// the tuple and of one slot record, after the header was counted in if
    /// it was not.
    pub open spec fn spec_insert(self, id: TupleId, bytes: Seq<u8>) -> PageView {
        PageView {
            page_id: self.page_id,
            used_size: self.counted() + bytes.len() + SLOT_SIZE,
            slots: Seq::new(
                self.slots.len(),
                |i: int|
                    Slot {
                        tuple_id: self.slots[i].tuple_id,
                        offset: (self.slots[i].offset + SLOT_SIZE) as u64,
                    },
            ).push(Slot { tuple_id: id, offset: (self.counted() + SLOT_SIZE) as u64 }),
            payload: self.payload + bytes,
        }
    }

    /// The header that describes this page.
    pub open spec fn header(self) -> PageHeader {
        PageHeader {
            page_id: self.page_id,
            used_size: self.used_size as u32,
            slot_count: self.slots.len() as u32,
        }
    }

    /// The image of this page: header, slot records, payload, zero fill.
    pub open spec fn spec_encode(self) -> Seq<u8> {
        self.header().spec_encode() + slots_bytes(self.slots) + self.payload + zeros(
            (PAGE_SIZE - self.filled()) as nat,
        )
    }

    /// What reading a page from an image gives. The header and the slot
    /// records are taken as they stand. The payload is what the image holds
    /// between the slot directory and the used size; where the image ends
    /// before the used size, the bytes that are missing are read as the zero
    /// fill that an image ends with. A used size that ends before the slot
    /// directory does leaves no payload.
    ///
    /// The image is refused when it is shorter than a header; when it is
    /// shorter than the slot records that the header counts; when the used
    /// size is more than a page; when a slot begins outside the payload; and
    /// when two slots carry the same tuple identifier.
    pub open spec fn spec_decode(bytes: Seq<u8>) -> Result<PageView, HeapError> {
        if bytes.len() < PAGE_HEADER_SIZE {
            Err(HeapError::Corruption(Corruption::PageHeader))
        } else {
            let header = PageHeader::spec_decode(bytes);
            let directory_end = PAGE_HEADER_SIZE + SLOT_SIZE * header.slot_count;
            if bytes.len() < directory_end {
                Err(HeapError::Corruption(Corruption::TupleSlot))
            } else if header.used_size > PAGE_SIZE {
                Err(HeapError::Corruption(Corruption::PageSize))
            } else {
                let end = if header.used_size < directory_end {
                    directory_end
                } else {
                    header.used_size as int
                };
                let held = if bytes.len() < end {
                    bytes.len() as int
                } else {
                    end
                };
                let page = PageView {
                    page_id: header.page_id,
                    used_size: header.used_size as int,
                    slots: spec_decode_slots(bytes, header.slot_count as nat),
                    payload: bytes.subrange(directory_end, held) + zeros((end - held) as nat),
                };
                if !offsets_inside(page.slots, header.used_size as int) {
                    Err(HeapError::Corruption(Corruption::SlotOffset))
                } else if !ids_unique(page.slots) {
                    Err(HeapError::Corruption(Corruption::DuplicateTuple))
                } else {
                    Ok(page)
                }
            }
        }
    }

    /// A page with a slot counts its header and its slot records in its
    /// used size, so that what is free is what can be put in, and the
    /// payload ends where the used size says.
    pub proof fn lemma_room(self)
        requires
            self.wf(),
            self.slots.len() > 0 || self.used_size >= PAGE_HEADER_SIZE,
        ensures
            self.counted() == self.used_size,
            self.filled() == self.used_size,
            self.room() == self.remaining(),
    {
        if self.slots.len() > 0 {
            assert(self.directory_end() <= self.slots[0].offset <= self.used_size);
        }
    }

    /// The tuple of a slot begins at the slot's offset and ends inside the
    /// used part of the image.
    pub proof fn lemma_tuple_end(self, i: int)
        requires
            self.wf(),
            0 <= i < self.slots.len(),
        ensures
            self.slots[i].offset <= self.tuple_end(i) <= self.used_size,
    {
        lemma_end_scan(self.slots, i, self.used_size, self.slots.len() as int);
    }

    /// Appending a tuple under an unused identifier, where there is room for
    /// it, keeps the invariant and takes the tuple's length and one slot
    /// record from the room there was. The new tuple reads back as it went
    /// in, and every tuple that was there reads back as before.
    pub proof fn lemma_insert(self, id: TupleId, bytes: Seq<u8>)
        requires
            self.wf(),
            !self.has(id),
            self.room() >= bytes.len() + SLOT_SIZE,
        ensures
            self.spec_insert(id, bytes).wf(),
            self.spec_insert(id, bytes).remaining() == self.room() - bytes.len() - SLOT_SIZE,
            self.spec_insert(id, bytes).room() == self.room() - bytes.len() - SLOT_SIZE,
            self.spec_insert(id, bytes).has(id),
            self.spec_insert(id, bytes).tuple_bytes(id) == bytes,
            forall|other: TupleId| #[trigger]
                self.has(other) ==> self.spec_insert(id, bytes).has(other) && self.spec_insert(
                    id,
                    bytes,
                ).tuple_bytes(other) == self.tuple_bytes(other),
    {
        let after = self.spec_insert(id, bytes);
        let n = self.slots.len() as int;
        let used = self.counted();
        if n > 0 {
            self.lemma_room();
        }
        assert(after.slots.len() == n + 1);
        assert(after.slots[n].tuple_id == id);
        assert forall|i: int| 0 <= i < n implies (#[trigger] after.slots[i]).tuple_id
            == self.slots[i].tuple_id && after.slots[i].offset == self.slots[i].offset
            + SLOT_SIZE by {}
        assert forall|i: int, j: int| 0 <= i < j < after.slots.len() implies after.slots[i].tuple_id
            != after.slots[j].tuple_id by {
            if j == n {
                assert(self.slots[i].tuple_id != id);
            }
        }
        assert(after.index_of(id) == n);
        // the new tuple: nothing lies behind it
        assert(after.tuple_end(n) == after.used_size) by {
            lemma_end_scan(after.slots, n, after.used_size, n + 1);
            let end = after.tuple_end(n);
            if end != after.used_size {
                let j = choose|j: int|
                    0 <= j < n + 1 && #[trigger] follows(after.slots, n, j) && end
                        == after.slots[j].offset;
                assert(after.slots[j].offset <= used + SLOT_SIZE);
            }
        }
        assert(after.tuple_at(n) =~= bytes);
        // the tuples that were there: each ends where it ended, one record further back
        assert forall|i: int| 0 <= i < n implies #[trigger] after.tuple_end(i) == self.tuple_end(i)
            + SLOT_SIZE by {
            lemma_end_scan(self.slots, i, used, n);
            lemma_end_scan(after.slots, i, after.used_size, n + 1);
            let end = self.tuple_end(i);
            assert(follows(after.slots, i, n));
            assert forall|j: int| 0 <= j < n + 1 && #[trigger] follows(after.slots, i, j) implies end
                + SLOT_SIZE <= after.slots[j].offset by {
                if j < n {
                    assert(follows(self.slots, i, j));
                }
            }
            if end != used {
                let j = choose|j: int|
                    0 <= j < n && #[trigger] follows(self.slots, i, j) && end == self.slots[j].offset;
                assert(follows(after.slots, i, j) && end + SLOT_SIZE == after.slots[j].offset);
            } else {
                assert(end + SLOT_SIZE == after.slots[n].offset);
            }
            assert(is_least_end(after.slots, i, after.used_size, n + 1, end + SLOT_SIZE));
            lemma_least_end_unique(
                after.slots,
                i,
                after.used_size,
                n + 1,
                end + SLOT_SIZE,
                after.tuple_end(i),
            );
        }
        assert forall|other: TupleId| #[trigger] self.has(other) implies after.has(other)
            && after.tuple_bytes(other) == self.tuple_bytes(other) by {
            let i = self.index_of(other);
            assert(after.slots[i].tuple_id == other);
            assert(after.index_of(other) == i);
            self.lemma_tuple_end(i);
            assert(after.tuple_end(i) == self.tuple_end(i) + SLOT_SIZE);
            assert(after.tuple_at(i) =~= self.tuple_at(i));
        }
    }

    /// The image of a page that satisfies the invariant has the size of a
    /// page, and reading it gives the page back: the same identifier, the
    /// same slots in the same order, the same payload.
    pub proof fn lemma_decode_encode(self)
        requires
            self.wf(),
        ensures
            self.spec_encode().len() == PAGE_SIZE,
            PageView::spec_decode(self.spec_encode()) == Ok::<PageView, HeapError>(self),
    {
        let header = self.header();
        let n = self.slots.len();
        let image = self.spec_encode();
        let directory_end = PAGE_HEADER_SIZE + SLOT_SIZE * n;
        header.lemma_decode_encode();
        lemma_slots_bytes(self.slots);
        assert(image.subrange(0, 4) =~= header.spec_encode().subrange(0, 4));
        assert(image.subrange(4, 8) =~= header.spec_encode().subrange(4, 8));
        assert(image.subrange(8, 12) =~= header.spec_encode().subrange(8, 12));
        assert(PageHeader::spec_decode(image) == header);
        let slots = spec_decode_slots(image, n);
        assert forall|i: int| 0 <= i < n implies slots[i] == self.slots[i] by {
            let window = image.subrange(PAGE_HEADER_SIZE + SLOT_SIZE * i, PAGE_HEADER_SIZE + SLOT_SIZE * (i + 1));
            assert(window =~= slots_bytes(self.slots).subrange(SLOT_SIZE * i, SLOT_SIZE * (i + 1)));
            self.slots[i].lemma_decode_encode();
        }
        assert(slots =~= self.slots);
        assert(image.subrange(directory_end, self.counted()) + zeros(0) =~= self.payload);
    }

    /// Every image that holds a header and the slot records that the header
    /// counts reads as a page, if its used size is no more than a page, its
    /// slots point into the payload, and no two of them carry the same
    /// tuple. The page has the identifier, the used size and the slots of
    /// the image, and what it has free is the capacity of a page less that
    /// used size.
    pub proof fn lemma_decode_accepts(bytes: Seq<u8>)
        requires
            bytes.len() >= PAGE_HEADER_SIZE,
            bytes.len() >= PAGE_HEADER_SIZE + SLOT_SIZE * PageHeader::spec_decode(bytes).slot_count,
            PageHeader::spec_decode(bytes).used_size <= PAGE_SIZE,
            offsets_inside(
                spec_decode_slots(bytes, PageHeader::spec_decode(bytes).slot_count as nat),
                PageHeader::spec_decode(bytes).used_size as int,
            ),
            ids_unique(spec_decode_slots(bytes, PageHeader::spec_decode(bytes).slot_count as nat)),
        ensures
            PageView::spec_decode(bytes) is Ok,
            PageView::spec_decode(bytes)->Ok_0.wf(),
            PageView::spec_decode(bytes)->Ok_0.header() == PageHeader::spec_decode(bytes),
            PageView::spec_decode(bytes)->Ok_0.slots == spec_decode_slots(
                bytes,
                PageHeader::spec_decode(bytes).slot_count as nat,
            ),
            PageView::spec_decode(bytes)->Ok_0.remaining() == PAGE_SIZE - PageHeader::spec_decode(
                bytes,
            ).used_size,
    {
    }

    /// A directory that holds every identifier below `m` has at least `m` slots.
    pub proof fn lemma_ids_below(self, m: nat)
        requires
            forall|k: u32| k < m ==> self.has(TupleId(k)),
            m <= u32::MAX,
        ensures
            m <= self.slots.len(),
    {
        let ids = Seq::new(self.slots.len(), |i: int| self.slots[i].tuple_id.0 as int);
        assert forall|k: int| set_int_range(0, m as int).contains(k) implies ids.to_set().contains(
            k,
        ) by {
            assert(self.has(TupleId(k as u32)));
            let i = choose|i: int| 0 <= i < self.slots.len() && self.slots[i].tuple_id == TupleId(k as u32);
            assert(ids[i] == k);
        }
        lemma_int_range(0, m as int);
        seq_to_set_is_finite(ids);
        lemma_len_subset(set_int_range(0, m as int), ids.to_set());
        ids.lemma_cardinality_of_set();
    }
}

/// Whether every slot begins inside the payload.
fn check_offsets(slots: &Vec<Slot>, directory_end: usize, used: usize) -> (ok: bool)
    requires
        directory_end == PAGE_HEADER_SIZE + SLOT_SIZE * slots@.len(),
    ensures
        ok == offsets_inside(slots@, used as int),
{
    let n = slots.len();
    for i in 0..n
        invariant
            n == slots@.len(),
            directory_end == PAGE_HEADER_SIZE + SLOT_SIZE * slots@.len(),
            forall|a: int|
                0 <= a < i ==> directory_end <= (#[trigger] slots@[a]).offset <= used,
    {
        let offset = slots[i].offset;
        if offset < directory_end as u64 || offset > used as u64 {
            return false;
        }
    }
    true
}

/// Whether no tuple identifier stands in two slots.
fn check_ids(slots: &Vec<Slot>) -> (ok: bool)
    ensures
        ok == ids_unique(slots@),
{
    let n = slots.len();
    for j in 0..n
        invariant
            n == slots@.len(),
            forall|a: int, b: int| 0 <= a < b < j ==> slots@[a].tuple_id != slots@[b].tuple_id,
    {
        for i in 0..j
            invariant
                n == slots@.len(),
                j < n,
                forall|a: int| 0 <= a < i ==> slots@[a].tuple_id != slots@[j as int].tuple_id,
        {
            if slots[i].tuple_id.0 == slots[j].tuple_id.0 {
                return false;
            }
        }
    }
    true
}

/// A page in memory: the header, the slot directory and the payload.
#[derive(Debug)]
pub struct Page {
    header: PageHeader,
    slots: Vec<Slot>,
    inner: BytesMut,
}

impl Page {
    /// The identifier, the used size, the slot directory and the payload of
    /// this page.
    pub closed spec fn view(&self) -> PageView {
        PageView {
            page_id: self.header.page_id,
            used_size: self.header.used_size as int,
            slots: self.slots@,
            payload: buffer_bytes(self.inner),
        }
    }

    /// Whether the header kept in memory counts the slots of the directory.
    pub closed spec fn header_agrees(&self) -> bool {
        self.header == self@.header()
    }

    /// The invariant of a page in memory. Every page that this module hands
    /// out satisfies it.
    pub open spec fn wf(&self) -> bool {
        self@.wf() && self.header_agrees()
    }

    /// An empty page. Its used size is what the header takes.
    pub fn new(page_id: PageId) -> (page: Page)
        ensures
            page.wf(),
            page@ == (PageView {
                page_id,
                used_size: PAGE_HEADER_SIZE as int,
                slots: Seq::<Slot>::empty(),
                payload: Seq::<u8>::empty(),
            }),
    {
        Page {
            header: PageHeader { page_id, used_size: PAGE_HEADER_SIZE as u32, slot_count: 0 },
            slots: Vec::new(),
            inner: buffer_with_capacity(0),
        }
    }

    /// Reads a page from its image, as [`PageView::spec_decode`] says. The
    /// image is given up: on success the page keeps its payload bytes.
    pub fn try_from(data: BytesMut) -> (r: Result<Page, HeapError>)
        ensures
            match r {
                Ok(page) => page.wf() && PageView::spec_decode(buffer_bytes(data)) == Ok::<
                    PageView,
                    HeapError,
                >(page@),
                Err(e) => PageView::spec_decode(buffer_bytes(data)) == Err::<PageView, HeapError>(e),
            },
            r is Ok ==> r->Ok_0@.header() == PageHeader::spec_decode(buffer_bytes(data))
                && r->Ok_0@.slots == spec_decode_slots(
                buffer_bytes(data),
                PageHeader::spec_decode(buffer_bytes(data)).slot_count as nat,
            ) && r->Ok_0@.remaining() == PAGE_SIZE - PageHeader::spec_decode(
                buffer_bytes(data),
            ).used_size,
            buffer_bytes(data).len() < PAGE_HEADER_SIZE ==> r is Err && r->Err_0
                == HeapError::Corruption(Corruption::PageHeader),
            buffer_bytes(data).len() >= PAGE_HEADER_SIZE && buffer_bytes(data).len()
                < PAGE_HEADER_SIZE + SLOT_SIZE * be_u32(buffer_bytes(data).subrange(8, 12)) ==> r is Err
                && r->Err_0 == HeapError::Corruption(Corruption::TupleSlot),
    {
        let mut data = data;
        let ghost image = buffer_bytes(data);
        let bytes = buffer_as_slice(&data);
        let len = bytes.len();
        let (header, mut rest) = match PageHeader::try_from(bytes) {
            Err(e) => { return Err(e); },
            Ok(parsed) => parsed,
        };
        let nslots = header.slot_count as usize;
        if rest.len() / SLOT_SIZE < nslots {
            return Err(HeapError::Corruption(Corruption::TupleSlot));
        }
        let directory_end = PAGE_HEADER_SIZE + SLOT_SIZE * nslots;
        let used = header.used_size as usize;
        if used > PAGE_SIZE {
            return Err(HeapError::Corruption(Corruption::PageSize));
        }
        let mut slots: Vec<Slot> = Vec::new();
        for i in 0..nslots
            invariant
                image.len() == len,
                directory_end == PAGE_HEADER_SIZE + SLOT_SIZE * nslots,
                directory_end <= len,
                rest@ == image.subrange(PAGE_HEADER_SIZE + SLOT_SIZE * i, len as int),
                slots@ == spec_decode_slots(image, i as nat),
        {
            match Slot::try_from(rest) {
                Err(e) => { return Err(e); },
                Ok((slot, tail)) => {
                    proof {
                        let at = PAGE_HEADER_SIZE + SLOT_SIZE * i;
                        let window = image.subrange(at, at + SLOT_SIZE);
                        assert(window.subrange(0, 4) =~= rest@.subrange(0, 4));
                        assert(window.subrange(4, 12) =~= rest@.subrange(4, 12));
                        assert(tail@ =~= image.subrange(at + SLOT_SIZE, len as int));
                        assert(slots@.push(slot) =~= spec_decode_slots(image, (i + 1) as nat));
                    }
                    slots.push(slot);
                    rest = tail;
                },
            }
        }
        if !check_offsets(&slots, directory_end, used) {
            return Err(HeapError::Corruption(Corruption::SlotOffset));
        }
        if !check_ids(&slots) {
            return Err(HeapError::Corruption(Corruption::DuplicateTuple));
        }
        buffer_advance(&mut data, directory_end);
        if used < directory_end {
            buffer_truncate(&mut data, 0);
            assert(buffer_bytes(data) =~= image.subrange(directory_end as int, directory_end as int)
                + zeros(0));
        } else if used <= len {
            buffer_truncate(&mut data, used - directory_end);
            assert(buffer_bytes(data) =~= image.subrange(directory_end as int, used as int) + zeros(0));
        } else {
            put_bytes(&mut data, 0, used - len);
            assert(buffer_bytes(data) =~= image.subrange(directory_end as int, len as int) + zeros(
                (used - len) as nat,
            ));
        }
        Ok(Page { header, slots, inner: data })
    }

    /// The free space of the page: its capacity less its used size.
    pub fn remaining(&self) -> (free: usize)
        requires
            self.wf(),
        ensures
            free == self@.remaining(),
            free == PAGE_SIZE - self@.used_size,
            self@.slots.len() > 0 || self@.used_size >= PAGE_HEADER_SIZE ==> free == self@.room(),
    {
        proof {
            if self@.slots.len() > 0 || self@.used_size >= PAGE_HEADER_SIZE {
                self@.lemma_room();
            }
        }
        PAGE_SIZE - self.header.used_size as usize
    }

    /// The bytes that can still be put into the page: its capacity less what
    /// header, slot records and payload take. This is what
    /// [`Page::remaining`] gives, but for a page without slots whose used
    /// size does not count the header.
    pub fn room(&self) -> (free: usize)
        requires
            self.wf(),
        ensures
            free == self@.room(),
            free == PAGE_SIZE - self@.filled(),
            self@.slots.len() > 0 || self@.used_size >= PAGE_HEADER_SIZE ==> free
                == self@.remaining(),
    {
        proof {
            if self@.slots.len() > 0 {
                self@.lemma_room();
            }
        }
        let used = self.header.used_size as usize;
        let directory_end = PAGE_HEADER_SIZE + SLOT_SIZE * self.slots.len();
        if used < directory_end {
            PAGE_SIZE - directory_end
        } else {
            PAGE_SIZE - used
        }
    }

    /// The identifier of the page.
    pub fn page_id(&self) -> (id: PageId)
        ensures
            id == self@.page_id,
    {
        self.header.page_id
    }

    /// The header that describes the page.
    pub fn header(&self) -> (header: PageHeader)
        requires
            self.wf(),
        ensures
            header == self@.header(),
    {
        self.header
    }

    /// The number of tuples in the page.
    pub fn slot_count(&self) -> (n: usize)
        ensures
            n == self@.slots.len(),
    {
        self.slots.len()
    }

    /// The position in the directory of the slot for `tuple_id`.
    fn find(&self, tuple_id: TupleId) -> (found: Option<usize>)
        ensures
            match found {
                Some(i) => i < self@.slots.len() && self@.slots[i as int].tuple_id == tuple_id,
                None => !self@.has(tuple_id),
            },
    {
        let n = self.slots.len();
        for i in 0..n
            invariant
                n == self.slots@.len(),
                forall|a: int| 0 <= a < i ==> self.slots@[a].tuple_id != tuple_id,
        {
            if self.slots[i].tuple_id.0 == tuple_id.0 {
                return Some(i);
            }
        }
        None
    }

    /// Whether the page has a slot for `tuple_id`.
    pub fn contains(&self, tuple_id: TupleId) -> (found: bool)
        ensures
            found == self@.has(tuple_id),
    {
        self.find(tuple_id).is_some()
    }

    /// The bytes of the tuple `tuple_id`. Fails exactly when the page has no
    /// slot for it.
    pub fn get_tuple_bytes(&self, tuple_id: TupleId) -> (r: Result<&[u8], HeapError>)
        requires
            self.wf(),
        ensures
            r is Ok <==> self@.has(tuple_id),
            r is Ok ==> r->Ok_0@ == self@.tuple_bytes(tuple_id),
            r is Err ==> r->Err_0 == HeapError::TupleNotFound,
    {
        match self.find(tuple_id) {
            None => Err(HeapError::TupleNotFound),
            Some(i) => {
                let payload = buffer_as_slice(&self.inner);
                let directory_end = PAGE_HEADER_SIZE + SLOT_SIZE * self.slots.len();
                let begin = self.slots[i].offset as usize;
                let end = self.tuple_end(i) as usize;
                assert(self@.index_of(tuple_id) == i);
                Ok(slice_subrange(payload, begin - directory_end, end - directory_end))
            },
        }
    }

    /// Where in the image the tuple of slot `i` ends.
    fn tuple_end(&self, i: usize) -> (end: u64)
        requires
            self.wf(),
            i < self@.slots.len(),
        ensures
            end == self@.tuple_end(i as int),
            self@.slots[i as int].offset <= end <= self@.used_size,
    {
        let n = self.slots.len();
        let own = self.slots[i].offset;
        let mut end = self.header.used_size as u64;
        for j in 0..n
            invariant
                n == self@.slots.len(),
                i < n,
                own == self@.slots[i as int].offset,
                own <= end <= self@.used_size,
                end == end_scan(self@.slots, i as int, self@.used_size, j as int),
        {
            let offset = self.slots[j].offset;
            if (offset > own || (offset == own && j > i)) && offset < end {
                end = offset;
            }
        }
        end
    }

    /// The tuple `tuple_id`, read from its bytes in the page. Fails when the
    /// page has no slot for it, and when its bytes do not read as a tuple.
    pub fn get_tuple(&self, tuple_id: TupleId) -> (r: Result<Tuple<'_>, HeapError>)
        requires
            self.wf(),
        ensures
            !self@.has(tuple_id) ==> r is Err && r->Err_0 == HeapError::TupleNotFound,
            self@.has(tuple_id) ==> match r {
                Ok(tuple) => tuple@.wf() && TupleView::spec_decode(self@.tuple_bytes(tuple_id)) == Ok::<
                    TupleView,
                    HeapError,
                >(tuple@),
                Err(e) => TupleView::spec_decode(self@.tuple_bytes(tuple_id)) == Err::<
                    TupleView,
                    HeapError,
                >(e),
            },
    {
        match self.get_tuple_bytes(tuple_id) {
            Err(e) => Err(e),
            Ok(bytes) => Tuple::try_from(bytes),
        }
    }

    /// The identifier that the next inserted tuple gets: the smallest one
    /// that no slot of the page carries.
    pub fn next_tuple_id(&self) -> (id: TupleId)
        requires
            self.wf(),
        ensures
            self@.is_next_id(id),
    {
        let mut candidate: u32 = 0;
        while self.find(TupleId(candidate)).is_some()
            invariant
                self.wf(),
                candidate <= self@.slots.len(),
                forall|k: u32| k < candidate ==> self@.has(TupleId(k)),
            decreases self@.slots.len() - candidate,
        {
            proof {
                self@.lemma_ids_below((candidate + 1) as nat);
            }
            candidate = candidate + 1;
        }
        TupleId(candidate)
    }

    /// Appends a tuple to the page: gives it the next unused identifier, puts
    /// its bytes behind the payload and a slot behind the directory, whose
    /// growth moves every offset on by one record. Fails, and leaves the page
    /// as it is, exactly when the page has no room for the bytes and one more
    /// slot record.
    ///
    /// The room is what [`Page::remaining`] gives. Only in a page without
    /// slots whose used size does not count the header it is less, by what
    /// is not counted: the header is in the image all the same, and is
    /// counted in when the first tuple goes in.
    pub fn insert_tuple(&mut self, tuple_bytes: &[u8]) -> (r: Result<TupleId, HeapError>)
        requires
            old(self).wf(),
        ensures
            final(self).wf(),
            r is Err <==> old(self)@.room() < tuple_bytes@.len() + SLOT_SIZE,
            old(self)@.slots.len() > 0 || old(self)@.used_size >= PAGE_HEADER_SIZE ==> (r is Err
                <==> old(self)@.remaining() < tuple_bytes@.len() + SLOT_SIZE),
            r is Err ==> r->Err_0 == HeapError::PageFull && final(self)@ == old(self)@,
            r is Ok ==> old(self)@.is_next_id(r->Ok_0) && final(self)@ == old(self)@.spec_insert(
                r->Ok_0,
                tuple_bytes@,
            ),
            r is Ok ==> final(self)@.remaining() == old(self)@.room() - tuple_bytes@.len()
                - SLOT_SIZE,
            r is Ok ==> final(self)@.used_size == old(self)@.counted() + tuple_bytes@.len()
                + SLOT_SIZE && final(self)@.slots.len() == old(self)@.slots.len() + 1,
            r is Ok ==> final(self)@.has(r->Ok_0) && final(self)@.tuple_bytes(r->Ok_0)
                == tuple_bytes@,
    {
        let free = self.room();
        if free < SLOT_SIZE || free - SLOT_SIZE < tuple_bytes.len() {
            return Err(HeapError::PageFull);
        }
        let id = self.next_tuple_id();
        let ghost before = self@;
        proof {
            before.lemma_insert(id, tuple_bytes@);
        }
        let n = self.slots.len();
        let used = PAGE_SIZE - free;
        proof {
            if n > 0 {
                before.lemma_room();
            }
        }
        for i in 0..n
            invariant
                n == before.slots.len(),
                before.wf(),
                n > 0 ==> before.counted() == before.used_size,
                self.slots@.len() == n,
                self.header == before.header(),
                buffer_bytes(self.inner) == before.payload,
                forall|k: int|
                    0 <= k < n ==> #[trigger] self.slots@[k] == if k < i {
                        Slot {
                            tuple_id: before.slots[k].tuple_id,
                            offset: (before.slots[k].offset + SLOT_SIZE) as u64,
                        }
                    } else {
                        before.slots[k]
                    },
        {
            let slot = self.slots[i];
            assert(slot == before.slots[i as int]);
            self.slots.set(i, Slot { tuple_id: slot.tuple_id, offset: slot.offset + SLOT_SIZE as u64 });
        }
        self.slots.push(Slot { tuple_id: id, offset: (used + SLOT_SIZE) as u64 });
        put_slice(&mut self.inner, tuple_bytes);
        self.header.used_size = (used + tuple_bytes.len() + SLOT_SIZE) as u32;
        self.header.slot_count = self.header.slot_count + 1;
        assert(self@.slots =~= before.spec_insert(id, tuple_bytes@).slots);
        assert(self@ == before.spec_insert(id, tuple_bytes@));
        Ok(id)
    }

    /// The image of the page: header, slot records, payload, zero fill.
    pub fn encode(&self) -> (out: BytesMut)
        requires
            self.wf(),
        ensures
            buffer_bytes(out) == self@.spec_encode(),
            buffer_bytes(out).len() == PAGE_SIZE,
    {
        let mut out = buffer_with_capacity(PAGE_SIZE);
        self.header.encode_into(&mut out);
        let n = self.slots.len();
        proof {
            self.header.lemma_decode_encode();
            lemma_slots_bytes(self.slots@);
        }
        for i in 0..n
            invariant
                n == self.slots@.len(),
                n <= PAGE_SIZE,
                buffer_bytes(out) == self.header.spec_encode() + slots_bytes(
                    self.slots@.subrange(0, i as int),
                ),
                buffer_bytes(out).len() == PAGE_HEADER_SIZE + SLOT_SIZE * i,
        {
            proof {
                lemma_slots_bytes_push(self.slots@.subrange(0, i as int), self.slots@[i as int]);
                assert(self.slots@.subrange(0, i as int).push(self.slots@[i as int])
                    =~= self.slots@.subrange(0, i + 1));
                self.slots@[i as int].lemma_decode_encode();
            }
            self.slots[i].encode_into(&mut out);
            assert(buffer_bytes(out) =~= self.header.spec_encode() + slots_bytes(
                self.slots@.subrange(0, i + 1),
            ));
        }
        assert(self.slots@.subrange(0, n as int) =~= self.slots@);
        put_slice(&mut out, buffer_as_slice(&self.inner));
        put_bytes(&mut out, 0, self.room());
        assert(buffer_bytes(out) =~= self@.spec_encode());
        out
    }
}

} // verus!

