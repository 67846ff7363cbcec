//! The page directory: where in the data file each page begins.
//!
//! The directory is kept as a log of records, 12 bytes each: the page
//! identifier as a big-endian `u32`, then the location as a big-endian `u64`.
//! Records are only ever appended. Replaying the log from its first record to
//! its last, each record overwriting what an earlier one said of the same
//! page, gives the directory. A snapshot of the directory holds one record
//! per page and replays to the same directory.

use crate::codec::be_u32;
use crate::codec::be_u64;
use crate::codec::buffer_bytes;
use crate::codec::buffer_with_capacity;
use crate::codec::lemma_be_u32_of_bytes;
use crate::codec::lemma_be_u64_of_bytes;
use crate::codec::put_u32;
use crate::codec::put_u64;
use crate::codec::take_u32;
use crate::codec::take_u64;
use crate::codec::u32_be;
use crate::codec::u64_be;
use crate::heap::ident::PageId;
use crate::shared_map::map_entries;
use crate::shared_map::map_get;
use crate::shared_map::map_insert;
use crate::shared_map::map_pairs;
use crate::shared_map::map_with_capacity;
use bytes::BytesMut;
use dashmap::DashMap;
use vstd::prelude::*;

verus! {

/// Length in bytes of a directory record.
pub const PAGE_LOCATION_SIZE: usize = 12;

/// Byte offset in the data file at which the image of a page begins.
#[derive(Debug, Clone, Copy, PartialEq, Eq, PartialOrd, Ord, Hash, Structural)]
pub struct PageLocation(pub usize);

/// The 12 bytes of a directory record.
pub open spec fn spec_record(page_id: PageId, location: PageLocation) -> Seq<u8> {
    u32_be(page_id.0) + u64_be(location.0 as u64)
}

/// Record `i` of a log.
pub open spec fn spec_record_at(log: Seq<u8>, i: int) -> (PageId, PageLocation) {
    (
        PageId(be_u32(log.subrange(PAGE_LOCATION_SIZE * i, PAGE_LOCATION_SIZE * i + 4))),
        PageLocation(
            be_u64(log.subrange(PAGE_LOCATION_SIZE * i + 4, PAGE_LOCATION_SIZE * (i + 1))) as usize,
        ),
    )
}

/// The directory after the first `n` records of a log: each record in turn
/// overwrites what was known of its page.
pub open spec fn spec_replay_first(log: Seq<u8>, n: nat) -> Map<PageId, PageLocation>
    decreases n,
{
    if n == 0 {
        Map::empty()
    } else {
        let record = spec_record_at(log, n - 1);
        spec_replay_first(log, (n - 1) as nat).insert(record.0, record.1)
    }
}

/// The directory that a log spells: the replay of all its whole records.
/// Bytes behind the last whole record are ignored.
pub open spec fn spec_replay(log: Seq<u8>) -> Map<PageId, PageLocation> {
    spec_replay_first(log, log.len() / PAGE_LOCATION_SIZE as nat)
}

/// The log that holds the given records, first to last.
pub open spec fn spec_log(records: Seq<(PageId, PageLocation)>) -> Seq<u8>
    decreases records.len(),
{
    if records.len() == 0 {
        Seq::<u8>::empty()
    } else {
        spec_log(records.drop_last()) + spec_record(records.last().0, records.last().1)
    }
}

/// The directory after the given records were inserted, first to last.
pub open spec fn spec_apply(records: Seq<(PageId, PageLocation)>) -> Map<PageId, PageLocation>
    decreases records.len(),
{
    if records.len() == 0 {
        Map::empty()
    } else {
        spec_apply(records.drop_last()).insert(records.last().0, records.last().1)
    }
}

/// The directory that a map from raw identifiers to raw locations stands for.
pub open spec fn dir_view(entries: Map<u32, usize>) -> Map<PageId, PageLocation> {
    Map::new(
        |id: PageId| entries.contains_key(id.0),
        |id: PageId| PageLocation(entries[id.0]),
    )
}

/// Whether `records` is a snapshot of `dir`: every record is an entry of the
/// directory, every page of the directory has a record, and no page has two.
pub open spec fn is_snapshot(
    records: Seq<(PageId, PageLocation)>,
    dir: Map<PageId, PageLocation>,
) -> bool {
    &&& forall|i: int|
        0 <= i < records.len() ==> dir.contains_key(#[trigger] records[i].0) && dir[records[i].0]
            == records[i].1
    &&& forall|i: int, j: int| 0 <= i < j < records.len() ==> records[i].0 != records[j].0
    &&& forall|id: PageId|
        dir.contains_key(id) ==> exists|i: int| 0 <= i < records.len() && #[trigger] records[i].0 == id
}

/// A record reads back as the page and the location it was made of.
pub proof fn lemma_record(page_id: PageId, location: PageLocation)
    ensures
        spec_record(page_id, location).len() == PAGE_LOCATION_SIZE,
        spec_record_at(spec_record(page_id, location), 0) == (page_id, location),
{
    let record = spec_record(page_id, location);
    lemma_be_u32_of_bytes(page_id.0);
    lemma_be_u64_of_bytes(location.0 as u64);
    assert(record.subrange(0, 4) =~= u32_be(page_id.0));
    assert(record.subrange(4, 12) =~= u64_be(location.0 as u64));
}

/// The replay of the first `n` records depends on the first `12 * n` bytes only.
pub proof fn lemma_replay_prefix(a: Seq<u8>, b: Seq<u8>, n: nat)
    requires
        PAGE_LOCATION_SIZE * n <= a.len(),
        PAGE_LOCATION_SIZE * n <= b.len(),
        a.subrange(0, PAGE_LOCATION_SIZE * n as int) == b.subrange(0, PAGE_LOCATION_SIZE * n as int),
    ensures
        spec_replay_first(a, n) == spec_replay_first(b, n),
    decreases n,
{
    if n > 0 {
        let m: int = n - 1;
        let whole: int = PAGE_LOCATION_SIZE * n;
        assert(a.subrange(0, 12 * m) =~= a.subrange(0, whole).subrange(0, 12 * m));
        assert(b.subrange(0, 12 * m) =~= b.subrange(0, whole).subrange(0, 12 * m));
        lemma_replay_prefix(a, b, m as nat);
        assert(a.subrange(12 * m, 12 * m + 4) =~= a.subrange(0, whole).subrange(12 * m, 12 * m + 4));
        assert(b.subrange(12 * m, 12 * m + 4) =~= b.subrange(0, whole).subrange(12 * m, 12 * m + 4));
        assert(a.subrange(12 * m + 4, 12 * (m + 1)) =~= a.subrange(0, whole).subrange(
            12 * m + 4,
            12 * (m + 1),
        ));
        assert(b.subrange(12 * m + 4, 12 * (m + 1)) =~= b.subrange(0, whole).subrange(
            12 * m + 4,
            12 * (m + 1),
        ));
    }
}

/// Last write wins: a record appended to a log of whole records overwrites
/// what the log said of its page and leaves the other pages as they were.
pub proof fn lemma_replay_append(log: Seq<u8>, page_id: PageId, location: PageLocation)
    requires
        log.len() % PAGE_LOCATION_SIZE as nat == 0,
    ensures
        spec_replay(log + spec_record(page_id, location)) == spec_replay(log).insert(
            page_id,
            location,
        ),
{
    let record = spec_record(page_id, location);
    let longer = log + record;
    let n: int = log.len() as int / 12;
    lemma_record(page_id, location);
    assert(longer.len() as int / 12 == n + 1);
    assert(longer.subrange(0, 12 * n) =~= log.subrange(0, 12 * n));
    lemma_replay_prefix(longer, log, n as nat);
    assert(longer.subrange(12 * n, 12 * n + 4) =~= record.subrange(0, 4));
    assert(longer.subrange(12 * n + 4, 12 * (n + 1)) =~= record.subrange(4, 12));
    assert(spec_record_at(longer, n) == (page_id, location));
}

/// The log of some records takes 12 bytes for each and replays to what
/// inserting them one after the other gives.
pub proof fn lemma_replay_log(records: Seq<(PageId, PageLocation)>)
    ensures
        spec_log(records).len() == PAGE_LOCATION_SIZE * records.len(),
        spec_replay(spec_log(records)) == spec_apply(records),
    decreases records.len(),
{
    if records.len() > 0 {
        let front = records.drop_last();
        lemma_replay_log(front);
        lemma_record(records.last().0, records.last().1);
        lemma_replay_append(spec_log(front), records.last().0, records.last().1);
    }
}

/// Inserting the records of a snapshot one after the other gives the
/// directory that the snapshot was taken of.
pub proof fn lemma_apply_snapshot(
    records: Seq<(PageId, PageLocation)>,
    dir: Map<PageId, PageLocation>,
)
    requires
        is_snapshot(records, dir),
    ensures
        spec_apply(records) == dir,
    decreases records.len(),
{
    if records.len() == 0 {
        assert(dir =~= Map::empty());
    } else {
        let front = records.drop_last();
        let last = records.last();
        let rest = dir.remove(last.0);
        assert(records[records.len() - 1] == last);
        assert forall|id: PageId| rest.contains_key(id) implies exists|i: int|
            0 <= i < front.len() && #[trigger] front[i].0 == id by {
            let i = choose|i: int| 0 <= i < records.len() && #[trigger] records[i].0 == id;
            assert(front[i].0 == id);
        }
        assert forall|i: int| 0 <= i < front.len() implies rest.contains_key(#[trigger] front[i].0)
            && rest[front[i].0] == front[i].1 by {
            assert(records[i].0 != records[records.len() - 1].0);
            assert(front[i] == records[i]);
        }
        assert forall|i: int, j: int| 0 <= i < j < front.len() implies front[i].0 != front[j].0 by {
            assert(front[i] == records[i] && front[j] == records[j]);
        }
        lemma_apply_snapshot(front, rest);
        assert(rest.insert(last.0, last.1) =~= dir);
    }
}

/// The directory in memory.
#[derive(Debug)]
pub struct PageDir {
    inner: DashMap<u32, usize>,
}

impl PageDir {
    /// The location of every page that the directory knows.
    pub closed spec fn view(&self) -> Map<PageId, PageLocation> {
        dir_view(map_entries(self.inner))
    }

    /// The directory that a log spells. Every whole record is replayed in the
    /// order of the log; a later record of a page overwrites an earlier one.
    /// Bytes behind the last whole record are ignored.
    pub fn new(log: &[u8]) -> (dir: PageDir)
        ensures
            dir@ == spec_replay(log@),
    {
        let n = log.len() / PAGE_LOCATION_SIZE;
        let mut inner = map_with_capacity(0);
        let mut rest = log;
        assert(dir_view(map_entries(inner)) =~= spec_replay_first(log@, 0));
        assert(rest@ =~= log@.subrange(0, log@.len() as int));
        for i in 0..n
            invariant
                n == log@.len() / PAGE_LOCATION_SIZE as nat,
                rest@ == log@.subrange(PAGE_LOCATION_SIZE * i, log@.len() as int),
                dir_view(map_entries(inner)) == spec_replay_first(log@, i as nat),
        {
            let ghost before = map_entries(inner);
            let (page_id, tail) = take_u32(rest);
            let (offset, tail) = take_u64(tail);
            let location = #[verifier::truncate] (offset as usize);
            map_insert(&mut inner, page_id, location);
            proof {
                let at = PAGE_LOCATION_SIZE * i;
                let len = log@.len() as int;
                assert(rest@.subrange(0, 4) =~= log@.subrange(at, at + 4));
                assert(rest@.subrange(4, len - at).subrange(0, 8) =~= log@.subrange(
                    at + 4,
                    at + 12,
                ));
                assert(tail@ =~= log@.subrange(at + 12, len));
                assert(dir_view(before.insert(page_id, location)) =~= dir_view(before).insert(
                    PageId(page_id),
                    PageLocation(location),
                ));
            }
            rest = tail;
        }
        PageDir { inner }
    }

    /// The record that says that `page_id` begins at `location`. Appended to
    /// the log, it makes the log spell what [`PageDir::insert`] makes of the
    /// directory.
    pub fn record(page_id: PageId, location: PageLocation) -> (bytes: BytesMut)
        ensures
            buffer_bytes(bytes) == spec_record(page_id, location),
            buffer_bytes(bytes).len() == PAGE_LOCATION_SIZE,
    {
        let mut bytes = buffer_with_capacity(PAGE_LOCATION_SIZE);
        put_u32(&mut bytes, page_id.0);
        proof {
            lemma_be_u32_of_bytes(page_id.0);
            lemma_be_u64_of_bytes(location.0 as u64);
        }
        put_u64(&mut bytes, location.0 as u64);
        assert(buffer_bytes(bytes) =~= spec_record(page_id, location));
        bytes
    }

    /// Notes that `page_id` begins at `location`, in place of what was known
    /// of that page. The other pages stay as they are.
    pub fn insert(&mut self, page_id: PageId, location: PageLocation)
        ensures
            final(self)@ == old(self)@.insert(page_id, location),
    {
        let ghost before = map_entries(self.inner);
        map_insert(&mut self.inner, page_id.0, location.0);
        assert(dir_view(before.insert(page_id.0, location.0)) =~= dir_view(before).insert(
            page_id,
            location,
        ));
    }

    /// Where `page_id` begins, if the directory knows the page.
    pub fn lookup(&self, page_id: PageId) -> (location: Option<PageLocation>)
        ensures
            location == if self@.contains_key(page_id) {
                Some(self@[page_id])
            } else {
                None
            },
    {
        match map_get(&self.inner, page_id.0) {
            Some(offset) => Some(PageLocation(offset)),
            None => None,
        }
    }

    /// The directory as records, one for each page, in no particular order.
    /// Written out one after the other they make a log that spells this
    /// directory again.
    pub fn snapshot(&self) -> (records: Vec<(PageId, PageLocation)>)
        ensures
            is_snapshot(records@, self@),
            spec_replay(spec_log(records@)) == self@,
    {
        let pairs = map_pairs(&self.inner);
        let n = pairs.len();
        let mut records: Vec<(PageId, PageLocation)> = Vec::new();
        for i in 0..n
            invariant
                n == pairs@.len(),
                records@.len() == i,
                forall|a: int|
                    0 <= a < i ==> #[trigger] records@[a] == (
                        PageId(pairs@[a].0),
                        PageLocation(pairs@[a].1),
                    ),
        {
            let pair = pairs[i];
            records.push((PageId(pair.0), PageLocation(pair.1)));
        }
        proof {
            let entries = map_entries(self.inner);
            assert forall|a: int| 0 <= a < records@.len() implies self@.contains_key(
                #[trigger] records@[a].0,
            ) && self@[records@[a].0] == records@[a].1 by {
                assert(entries.contains_key(pairs@[a].0));
            }
            assert forall|a: int, b: int| 0 <= a < b < records@.len() implies records@[a].0
                != records@[b].0 by {
                assert(pairs@[a].0 != pairs@[b].0);
            }
            assert forall|id: PageId| self@.contains_key(id) implies exists|a: int|
                0 <= a < records@.len() && #[trigger] records@[a].0 == id by {
                let a = choose|a: int| 0 <= a < pairs@.len() && #[trigger] pairs@[a].0 == id.0;
                assert(records@[a].0 == id);
            }
            lemma_replay_log(records@);
            lemma_apply_snapshot(records@, self@);
        }
        records
    }
}

} // verus!
