//! The heap: page-organised storage of tuples, and the cache that holds its
//! pages in memory.
//!
//! The cache decides and never touches a file. Where a page has to be read
//! or written, [`HeapTable::get_page`] and [`HeapTable::flush`] say so in
//! what they return; the caller does the reading or writing and reports back
//! with [`HeapTable::finish_load`], [`HeapTable::finish_evict`] or
//! [`HeapTable::finish_flush`], or with one of the `cancel` functions where
//! the reading or writing failed.
//!
//! Each frame of the cache goes through the states of [`FrameState`]:
//! unloaded, loading, cached (clean or dirty), evicting, and unloaded again.
//! A frame is chosen for eviction by a clock: a cursor goes round the frames,
//! clears the "recently used" flag of each frame it passes, and stops at the
//! first frame that holds a page, is not pinned and has its flag clear.

pub mod ident;
pub mod page;
pub mod page_dir;
pub mod tuple;

pub use ident::Oid;
pub use ident::PageId;
pub use ident::TupleId;

use crate::codec::buffer_bytes;
use crate::error::HeapError;
use crate::shared_map::map_entries;
use crate::shared_map::map_get;
use crate::shared_map::map_insert;
use crate::shared_map::map_remove;
use crate::shared_map::map_with_capacity;
use bytes::BytesMut;
use dashmap::DashMap;
use page::Page;
use page::PageView;
use page::SLOT_SIZE;
use page_dir::PageDir;
use tuple::Tuple;
use tuple::TupleView;
use page_dir::PageLocation;
use vstd::prelude::*;

verus! {

/// Number of frames of a cache made by [`HeapTable::new`].
pub const BUFFER_POOL_SIZE: usize = 1024;

/// Largest starting capacity that the index from pages to frames is made
/// with. The index grows as it is filled, so a cache may have more frames.
const INDEX_CAPACITY: usize = 0xffff;

/// Where a frame of the cache stands.
#[derive(Debug, Clone, Copy, PartialEq, Eq, Structural)]
pub enum FrameState {
    /// The frame is free.
    Unloaded,
    /// The frame is kept for a page whose image is being read.
    Loading,
    /// The frame holds a page.
    Cached,
    /// The frame holds a page whose image is being written back, after
    /// which the frame becomes free.
    Evicting,
}

/// A frame of the cache as the contracts see it.
pub struct FrameView {
    pub state: FrameState,
    /// The page that the frame is kept for or holds.
    pub page_id: PageId,
    /// The page that the frame holds.
    pub page: Option<PageView>,
    /// Whether the page was changed since its image was last read, or last
    /// handed out for writing.
    pub dirty: bool,
    /// Whether an image of the page was handed out for writing and the
    /// write was not reported yet.
    pub flushing: bool,
    /// Number of guards that hold the page.
    pub pins: nat,
    /// Whether the page was asked for since the clock last passed the frame.
    pub used: bool,
}

/// The cache as the contracts see it.
pub struct PoolView {
    pub frames: Seq<FrameView>,
    /// The frame that the clock looks at next.
    pub hand: int,
    /// The page directory.
    pub dir: Map<PageId, PageLocation>,
}

/// An [`Access`] as the contracts see it.
pub enum AccessView {
    Ready { frame: int, page_id: PageId },
    Load { frame: int, location: PageLocation },
    WriteBack { frame: int, location: PageLocation, image: Seq<u8> },
    Busy,
}

/// The right to use a cached page. As long as a guard is held, its page is
/// pinned and the clock passes it by; [`HeapTable::release`] takes the guard
/// back and unpins the page.
#[derive(Debug)]
pub struct PageGuard {
    frame: usize,
    page_id: PageId,
}

/// What [`HeapTable::get_page`] found, and what the caller is to do next.
#[derive(Debug)]
pub enum Access {
    /// The page is in the cache and now pinned once more.
    Ready(PageGuard),
    /// The page is not in the cache. Frame `frame` is kept for it: read one
    /// page image at `location` and hand it to [`HeapTable::finish_load`].
    Load { frame: usize, location: PageLocation },
    /// No frame is free, and the page in frame `frame` has to make room:
    /// write `image` at `location`, report with [`HeapTable::finish_evict`],
    /// and ask for the page again.
    WriteBack { frame: usize, location: PageLocation, image: BytesMut },
    /// Nothing can be done for now: the page is being read or written back,
    /// or every frame is pinned or busy. Ask again later.
    Busy,
}

#[derive(Debug)]
struct Frame {
    state: FrameState,
    page_id: PageId,
    page: Option<Page>,
    dirty: bool,
    flushing: bool,
    pins: usize,
    used: bool,
}

/// The page cache of a heap, with the page directory that says where the
/// pages are.
#[derive(Debug)]
pub struct HeapTable {
    frames: Vec<Frame>,
    hand: usize,
    index: DashMap<u32, usize>,
    page_dir: PageDir,
}

impl FrameView {
    /// The free frame.
    pub open spec fn unloaded() -> FrameView {
        FrameView {
            state: FrameState::Unloaded,
            page_id: PageId(0),
            page: None,
            dirty: false,
            flushing: false,
            pins: 0,
            used: false,
        }
    }

    /// A frame kept for `page_id` while its image is read.
    pub open spec fn loading(page_id: PageId) -> FrameView {
        FrameView {
            state: FrameState::Loading,
            page_id,
            page: None,
            dirty: false,
            flushing: false,
            pins: 0,
            used: false,
        }
    }

    /// The invariant of a frame: a free frame holds nothing; a frame that
    /// waits for its page holds nothing yet; a cached page satisfies the
    /// invariant of pages; a page is evicted only while nobody holds it and
    /// no other write of it is under way, and is written back because it is
    /// dirty.
    pub open spec fn wf(self) -> bool {
        match self.state {
            FrameState::Unloaded => self == FrameView::unloaded(),
            FrameState::Loading => self == FrameView::loading(self.page_id),
            FrameState::Cached => self.page is Some && self.page->Some_0.wf(),
            FrameState::Evicting => self.page is Some && self.page->Some_0.wf() && self.pins == 0
                && self.dirty && !self.flushing,
        }
    }

    /// Whether the clock may take the frame: it holds a page that nobody
    /// holds and of which no write is under way.
    pub open spec fn evictable(self) -> bool {
        self.state == FrameState::Cached && self.pins == 0 && !self.flushing
    }

    /// Whether the page is to be written out: it is cached and dirty, and no
    /// write of it is under way.
    pub open spec fn flushable(self) -> bool {
        self.state == FrameState::Cached && self.dirty && !self.flushing
    }

    /// This frame after an image of its page was handed out for writing:
    /// what is changed from now on makes the page dirty again.
    pub open spec fn handed_out(self) -> FrameView {
        FrameView { dirty: false, flushing: true, ..self }
    }
}

impl PoolView {
    /// The invariant of the cache: it has a frame; the clock points at a
    /// frame; every frame satisfies its invariant; every page in the cache is
    /// in the directory; no page is in two frames.
    pub open spec fn wf(self) -> bool {
        &&& 0 < self.frames.len()
        &&& 0 <= self.hand < self.frames.len()
        &&& forall|i: int| 0 <= i < self.frames.len() ==> (#[trigger] self.frames[i]).wf()
        &&& forall|i: int|
            0 <= i < self.frames.len() && (#[trigger] self.frames[i]).state
                != FrameState::Unloaded ==> self.dir.contains_key(self.frames[i].page_id)
        &&& forall|i: int, j: int|
            0 <= i < j < self.frames.len() && (#[trigger] self.frames[i]).state
                != FrameState::Unloaded && (#[trigger] self.frames[j]).state
                != FrameState::Unloaded ==> self.frames[i].page_id != self.frames[j].page_id
    }

    /// Whether some frame is kept for `page_id` or holds it.
    pub open spec fn tracks(self, page_id: PageId) -> bool {
        exists|i: int|
            0 <= i < self.frames.len() && (#[trigger] self.frames[i]).state != FrameState::Unloaded
                && self.frames[i].page_id == page_id
    }

    /// The frame that is kept for `page_id` or holds it.
    pub open spec fn frame_of(self, page_id: PageId) -> int
        recommends
            self.tracks(page_id),
    {
        choose|i: int|
            0 <= i < self.frames.len() && (#[trigger] self.frames[i]).state != FrameState::Unloaded
                && self.frames[i].page_id == page_id
    }

    /// Whether a guard for `page_id` in frame `frame` is in force.
    pub open spec fn holds(self, frame: int, page_id: PageId) -> bool {
        &&& 0 <= frame < self.frames.len()
        &&& self.frames[frame].state == FrameState::Cached
        &&& self.frames[frame].page_id == page_id
        &&& self.frames[frame].pins > 0
    }

    /// Whether frame `i` is the first free frame.
    pub open spec fn is_first_free(self, i: int) -> bool {
        &&& 0 <= i < self.frames.len()
        &&& self.frames[i].state == FrameState::Unloaded
        &&& forall|j: int| 0 <= j < i ==> (#[trigger] self.frames[j]).state != FrameState::Unloaded
    }

    /// Whether some frame is free.
    pub open spec fn has_free(self) -> bool {
        exists|i: int|
            0 <= i < self.frames.len() && (#[trigger] self.frames[i]).state == FrameState::Unloaded
    }

    /// Whether the clock may take some frame.
    pub open spec fn has_evictable(self) -> bool {
        exists|i: int| 0 <= i < self.frames.len() && (#[trigger] self.frames[i]).evictable()
    }

    /// The frame that the clock looks at on step `k` of a sweep, the first
    /// step being step 0: it starts at the hand and goes round.
    pub open spec fn visit_pos(self, k: int) -> int {
        let n = self.frames.len() as int;
        if self.hand + k < n {
            self.hand + k
        } else if self.hand + k < 2 * n {
            self.hand + k - n
        } else {
            self.hand + k - 2 * n
        }
    }

    /// Whether the clock takes the frame it looks at on step `k`: the frame
    /// holds a page that nobody holds, and its flag is clear, which on the
    /// second round it is because the first round cleared it.
    pub open spec fn stops_at(self, k: int) -> bool {
        let frame = self.frames[self.visit_pos(k)];
        frame.evictable() && (k >= self.frames.len() || !frame.used)
    }

    /// Whether step `k` is where a sweep ends: the first step at which the
    /// clock takes a frame.
    pub open spec fn is_stop(self, k: int) -> bool {
        &&& 0 <= k < 2 * self.frames.len()
        &&& self.stops_at(k)
        &&& forall|j: int| 0 <= j < k ==> !#[trigger] self.stops_at(j)
    }

    /// Whether the clock passes frame `i` on the steps before step `k`.
    pub open spec fn passed(self, i: int, k: int) -> bool {
        k >= self.frames.len() || self.hand <= i < self.hand + k || i + self.frames.len()
            < self.hand + k
    }

    /// The cache after a sweep that ended on step `k`: the flag of every
    /// frame that the clock passed is clear, and the hand stands behind the
    /// frame that the clock took.
    pub open spec fn swept(self, k: int) -> PoolView {
        PoolView {
            frames: Seq::new(
                self.frames.len(),
                |i: int|
                    if self.passed(i, k) {
                        FrameView { used: false, ..self.frames[i] }
                    } else {
                        self.frames[i]
                    },
            ),
            hand: if self.visit_pos(k) + 1 == self.frames.len() {
                0
            } else {
                self.visit_pos(k) + 1
            },
            dir: self.dir,
        }
    }

    /// This cache after the page in frame `i` was asked for: it has one
    /// holder more, and its flag is set.
    pub open spec fn pinned(self, i: int) -> PoolView {
        self.with_frame(
            i,
            FrameView { pins: self.frames[i].pins + 1, used: true, ..self.frames[i] },
        )
    }

    /// What [`HeapTable::get_page`] does where the page is not in the cache,
    /// no frame is free, and the clock stops on step `k`: a clean page gives
    /// up its frame at once, a dirty one is to be written back first.
    pub open spec fn evicts(self, page_id: PageId, k: int, after: PoolView, told: AccessView) -> bool {
        let victim = self.visit_pos(k);
        let swept = self.swept(k);
        if self.frames[victim].dirty {
            &&& told == AccessView::WriteBack {
                frame: victim,
                location: self.dir[self.frames[victim].page_id],
                image: self.frames[victim].page->Some_0.spec_encode(),
            }
            &&& after == swept.with_frame(
                victim,
                FrameView { state: FrameState::Evicting, ..swept.frames[victim] },
            )
        } else {
            &&& told == AccessView::Load { frame: victim, location: self.dir[page_id] }
            &&& after == swept.with_frame(victim, FrameView::loading(page_id))
        }
    }

    /// The images that [`HeapTable::flush_all`] hands out for the first `n`
    /// frames: for each dirty cached page of which no write is under way, in
    /// the order of the frames, which page it is, where it goes and what is
    /// to be written.
    pub open spec fn dirty_pages(self, n: int) -> Seq<(PageId, PageLocation, Seq<u8>)>
        decreases n,
    {
        if n <= 0 {
            Seq::empty()
        } else {
            let frame = self.frames[n - 1];
            if frame.flushable() {
                self.dirty_pages(n - 1).push(
                    (frame.page_id, self.dir[frame.page_id], frame.page->Some_0.spec_encode()),
                )
            } else {
                self.dirty_pages(n - 1)
            }
        }
    }

    /// This cache after the images of the first `n` frames were handed out.
    pub open spec fn flushed(self, n: int) -> PoolView {
        PoolView {
            frames: Seq::new(
                self.frames.len(),
                |i: int|
                    if i < n && self.frames[i].flushable() {
                        self.frames[i].handed_out()
                    } else {
                        self.frames[i]
                    },
            ),
            hand: self.hand,
            dir: self.dir,
        }
    }

    /// Among the steps at which the clock would take a frame there is a first.
    proof fn lemma_first_stop(self, bound: int)
        requires
            0 <= bound < 2 * self.frames.len(),
            self.stops_at(bound),
        ensures
            exists|k: int| 0 <= k <= bound && #[trigger] self.is_stop(k),
        decreases bound,
    {
        if exists|j: int| 0 <= j < bound && #[trigger] self.stops_at(j) {
            let j = choose|j: int| 0 <= j < bound && #[trigger] self.stops_at(j);
            self.lemma_first_stop(j);
        } else {
            assert(self.is_stop(bound));
        }
    }

    /// The clock finds a frame whenever some frame holds a page that nobody
    /// holds: going round twice is enough.
    pub proof fn lemma_clock_stops(self)
        requires
            self.wf(),
            self.has_evictable(),
        ensures
            exists|k: int| #[trigger] self.is_stop(k),
    {
        let n = self.frames.len() as int;
        let e = choose|i: int| 0 <= i < self.frames.len() && (#[trigger] self.frames[i]).evictable();
        let second = if e >= self.hand {
            e - self.hand + n
        } else {
            e - self.hand + 2 * n
        };
        assert(self.visit_pos(second) == e);
        assert(self.stops_at(second));
        self.lemma_first_stop(second);
    }

    /// A sweep of the clock ends in one place only.
    pub proof fn lemma_stop_unique(self, a: int, b: int)
        requires
            self.is_stop(a),
            self.is_stop(b),
        ensures
            a == b,
    {
        if a < b {
            assert(!self.stops_at(a));
        } else if b < a {
            assert(!self.stops_at(b));
        }
    }

    /// The frame that the clock takes holds a page that nobody holds: a
    /// pinned page is never taken. And where some such page was not asked
    /// for since the clock last passed, the page taken is one of those.
    pub proof fn lemma_victim(self, k: int)
        requires
            self.wf(),
            self.is_stop(k),
        ensures
            0 <= self.visit_pos(k) < self.frames.len(),
            self.frames[self.visit_pos(k)].state == FrameState::Cached,
            self.frames[self.visit_pos(k)].pins == 0,
            !self.frames[self.visit_pos(k)].flushing,
            (exists|i: int|
                0 <= i < self.frames.len() && (#[trigger] self.frames[i]).evictable()
                    && !self.frames[i].used) ==> !self.frames[self.visit_pos(k)].used,
    {
        let n = self.frames.len() as int;
        if exists|i: int|
            0 <= i < self.frames.len() && (#[trigger] self.frames[i]).evictable()
                && !self.frames[i].used {
            let i = choose|i: int|
                0 <= i < self.frames.len() && (#[trigger] self.frames[i]).evictable()
                    && !self.frames[i].used;
            let first = if i >= self.hand {
                i - self.hand
            } else {
                i - self.hand + n
            };
            assert(self.visit_pos(first) == i);
            assert(self.stops_at(first));
            assert(k <= first);
        }
    }

    /// What making room changes, in a cache of any size and however it was
    /// filled: the number of frames stays; one frame changes, the one that
    /// the clock took, which held a page that nobody held; every other
    /// frame, and so every pinned page, keeps its page; and a dirty page is
    /// handed out for writing, and stays in its frame, before the frame is
    /// given away.
    pub proof fn lemma_evicts(self, page_id: PageId, k: int, after: PoolView, told: AccessView)
        requires
            self.wf(),
            self.is_stop(k),
            self.evicts(page_id, k, after, told),
        ensures
            after.frames.len() == self.frames.len(),
            self.frames[self.visit_pos(k)].evictable(),
            forall|i: int|
                0 <= i < self.frames.len() && i != self.visit_pos(k) ==> (
                #[trigger] after.frames[i]).state == self.frames[i].state && after.frames[i].page_id
                    == self.frames[i].page_id && after.frames[i].page == self.frames[i].page
                    && after.frames[i].pins == self.frames[i].pins && after.frames[i].dirty
                    == self.frames[i].dirty,
            forall|i: int|
                0 <= i < self.frames.len() && self.frames[i].pins > 0 ==> (
                #[trigger] after.frames[i]).state == self.frames[i].state && after.frames[i].page
                    == self.frames[i].page,
            self.frames[self.visit_pos(k)].dirty ==> told is WriteBack && told->WriteBack_image
                == self.frames[self.visit_pos(k)].page->Some_0.spec_encode()
                && after.frames[self.visit_pos(k)].state == FrameState::Evicting
                && after.frames[self.visit_pos(k)].page == self.frames[self.visit_pos(k)].page,
            !self.frames[self.visit_pos(k)].dirty ==> told is Load && after.frames[self.visit_pos(
                k,
            )] == FrameView::loading(page_id),
    {
        self.lemma_victim(k);
    }

    /// A page in the cache stays where it is when it is asked for again: the
    /// same frame holds the same page, so that nothing is read a second time.
    pub proof fn lemma_second_request(self, i: int)
        requires
            self.wf(),
            0 <= i < self.frames.len(),
            self.frames[i].state == FrameState::Cached,
        ensures
            self.tracks(self.frames[i].page_id),
            self.frame_of(self.frames[i].page_id) == i,
            self.pinned(i).wf(),
            self.pinned(i).tracks(self.frames[i].page_id),
            self.pinned(i).frame_of(self.frames[i].page_id) == i,
            self.pinned(i).frames[i].state == FrameState::Cached,
            self.pinned(i).frames[i].page == self.frames[i].page,
            self.pinned(i).frames[i].pins == self.frames[i].pins + 1,
    {
        let page_id = self.frames[i].page_id;
        let after = self.pinned(i);
        assert(self.frames[i].wf());
        let c = self.frame_of(page_id);
        if c < i {
            assert(self.frames[c].page_id != self.frames[i].page_id);
        } else if i < c {
            assert(self.frames[i].page_id != self.frames[c].page_id);
        }
        assert forall|j: int| 0 <= j < after.frames.len() implies (#[trigger] after.frames[j]).wf() by {
            if j != i {
                assert(self.frames[j].wf());
            }
        }
        assert forall|j: int|
            0 <= j < after.frames.len() && (#[trigger] after.frames[j]).state
                != FrameState::Unloaded implies after.dir.contains_key(after.frames[j].page_id) by {
            assert(self.frames[j].state != FrameState::Unloaded);
        }
        assert forall|a: int, b: int|
            0 <= a < b < after.frames.len() && (#[trigger] after.frames[a]).state
                != FrameState::Unloaded && (#[trigger] after.frames[b]).state
                != FrameState::Unloaded implies after.frames[a].page_id != after.frames[b].page_id by {
            assert(self.frames[a].state != FrameState::Unloaded);
            assert(self.frames[b].state != FrameState::Unloaded);
        }
        assert(after.frames[i].state != FrameState::Unloaded && after.frames[i].page_id == page_id);
        let d = after.frame_of(page_id);
        if d < i {
            assert(after.frames[d].page_id != after.frames[i].page_id);
        } else if i < d {
            assert(after.frames[i].page_id != after.frames[d].page_id);
        }
    }

    /// This cache with frame `i` replaced.
    pub open spec fn with_frame(self, i: int, frame: FrameView) -> PoolView {
        PoolView { frames: self.frames.update(i, frame), hand: self.hand, dir: self.dir }
    }
}

impl Access {
    /// What the caller was told, with the guard and the image as plain values.
    pub open spec fn view(&self) -> AccessView {
        match *self {
            Access::Ready(guard) => AccessView::Ready {
                frame: guard.spec_frame(),
                page_id: guard.spec_page_id(),
            },
            Access::Load { frame, location } => AccessView::Load { frame: frame as int, location },
            Access::WriteBack { frame, location, image } => AccessView::WriteBack {
                frame: frame as int,
                location,
                image: buffer_bytes(image),
            },
            Access::Busy => AccessView::Busy,
        }
    }
}

impl PageGuard {
    /// The frame that holds the page.
    pub closed spec fn spec_frame(&self) -> int {
        self.frame as int
    }

    /// The page that the guard is for.
    pub closed spec fn spec_page_id(&self) -> PageId {
        self.page_id
    }

    /// The frame that holds the page.
    pub fn frame(&self) -> (frame: usize)
        ensures
            frame == self.spec_frame(),
    {
        self.frame
    }

    /// The page that the guard is for.
    pub fn page_id(&self) -> (page_id: PageId)
        ensures
            page_id == self.spec_page_id(),
    {
        self.page_id
    }
}

impl Frame {
    spec fn view(&self) -> FrameView {
        FrameView {
            state: self.state,
            page_id: self.page_id,
            page: match self.page {
                Some(page) => Some(page@),
                None => None,
            },
            dirty: self.dirty,
            flushing: self.flushing,
            pins: self.pins as nat,
            used: self.used,
        }
    }

    spec fn wf(&self) -> bool {
        self@.wf() && (self.page is Some ==> self.page->Some_0.wf())
    }

    fn unloaded() -> (frame: Frame)
        ensures
            frame.wf(),
            frame@ == FrameView::unloaded(),
    {
        Frame {
            state: FrameState::Unloaded,
            page_id: PageId(0),
            page: None,
            dirty: false,
            flushing: false,
            pins: 0,
            used: false,
        }
    }
}

impl HeapTable {
    /// The frames, the clock and the directory of this cache.
    pub closed spec fn view(&self) -> PoolView {
        PoolView {
            frames: Seq::new(self.frames@.len(), |i: int| self.frames@[i]@),
            hand: self.hand as int,
            dir: self.page_dir@,
        }
    }

    /// Whether the parts of the cache that the view does not show agree with
    /// it: the pages in memory with their views, and the index from page
    /// identifiers to frames with the frames.
    pub closed spec fn consistent(&self) -> bool {
        &&& forall|i: int| 0 <= i < self.frames@.len() ==> (#[trigger] self.frames@[i]).wf()
        &&& forall|key: u32| #[trigger]
            map_entries(self.index).contains_key(key) ==> {
                let i = map_entries(self.index)[key];
                &&& i < self.frames@.len()
                &&& self.frames@[i as int].state != FrameState::Unloaded
                &&& self.frames@[i as int].page_id == PageId(key)
            }
        &&& forall|i: int|
            0 <= i < self.frames@.len() && (#[trigger] self.frames@[i]).state
                != FrameState::Unloaded ==> map_entries(self.index).contains_key(
                self.frames@[i].page_id.0,
            ) && map_entries(self.index)[self.frames@[i].page_id.0] == i
    }

    /// The invariant of the cache. Every function of the cache keeps it.
    pub open spec fn wf(&self) -> bool {
        self@.wf() && self.consistent()
    }

    /// A cache of [`BUFFER_POOL_SIZE`] free frames over the given directory.
    pub fn new(page_dir: PageDir) -> (table: HeapTable)
        ensures
            table.wf(),
            table@.frames == Seq::new(BUFFER_POOL_SIZE as nat, |i: int| FrameView::unloaded()),
            table@.hand == 0,
            table@.dir == page_dir@,
    {
        HeapTable::with_capacity(page_dir, BUFFER_POOL_SIZE)
    }

    /// A cache of `capacity` free frames over the given directory.
    pub fn with_capacity(page_dir: PageDir, capacity: usize) -> (table: HeapTable)
        requires
            0 < capacity,
        ensures
            table.wf(),
            table@.frames == Seq::new(capacity as nat, |i: int| FrameView::unloaded()),
            table@.hand == 0,
            table@.dir == page_dir@,
    {
        let mut frames: Vec<Frame> = Vec::new();
        for i in 0..capacity
            invariant
                frames@.len() == i,
                forall|a: int| 0 <= a < i ==> (#[trigger] frames@[a]).wf() && frames@[a]@
                    == FrameView::unloaded(),
        {
            frames.push(Frame::unloaded());
        }
        let room = if capacity <= INDEX_CAPACITY {
            capacity
        } else {
            INDEX_CAPACITY
        };
        let table = HeapTable { frames, hand: 0, index: map_with_capacity(room), page_dir };
        assert(table@.frames =~= Seq::new(capacity as nat, |i: int| FrameView::unloaded()));
        table
    }

    /// The first free frame, if there is one.
    fn find_free(&self) -> (found: Option<usize>)
        ensures
            match found {
                Some(i) => self@.is_first_free(i as int),
                None => !self@.has_free(),
            },
    {
        let n = self.frames.len();
        for i in 0..n
            invariant
                n == self.frames@.len(),
                forall|j: int| 0 <= j < i ==> (#[trigger] self@.frames[j]).state != FrameState::Unloaded,
        {
            if self.frames[i].state == FrameState::Unloaded {
                assert(self@.frames[i as int].state == FrameState::Unloaded);
                return Some(i);
            }
            assert(self@.frames[i as int].state != FrameState::Unloaded);
        }
        None
    }

    /// Whether the clock may take some frame.
    fn any_evictable(&self) -> (found: bool)
        ensures
            found == self@.has_evictable(),
    {
        let n = self.frames.len();
        for i in 0..n
            invariant
                n == self.frames@.len(),
                forall|j: int| 0 <= j < i ==> !(#[trigger] self@.frames[j]).evictable(),
        {
            if self.frames[i].state == FrameState::Cached && self.frames[i].pins == 0
                && !self.frames[i].flushing {
                assert(self@.frames[i as int].evictable());
                return true;
            }
            assert(!self@.frames[i as int].evictable());
        }
        false
    }

    /// Keeps the free frame `i` for `page_id`.
    fn reserve(&mut self, i: usize, page_id: PageId)
        requires
            old(self).wf(),
            i < old(self)@.frames.len(),
            old(self)@.frames[i as int].state == FrameState::Unloaded,
            !old(self)@.tracks(page_id),
            old(self)@.dir.contains_key(page_id),
        ensures
            final(self).wf(),
            final(self)@ == old(self)@.with_frame(i as int, FrameView::loading(page_id)),
    {
        let ghost before = *self;
        self.frames[i].state = FrameState::Loading;
        self.frames[i].page_id = page_id;
        map_insert(&mut self.index, page_id.0, i);
        proof {
            assert(before.frames@[i as int].wf());
            assert(before@.frames[i as int].wf());
            assert forall|j: int|
                0 <= j < before.frames@.len() && j != i && (#[trigger] before.frames@[j]).state
                    != FrameState::Unloaded implies before.frames@[j].page_id != page_id by {
                assert(before@.frames[j].state != FrameState::Unloaded);
            }
            HeapTable::lemma_frame_replaced(before, *self, i as int);
        }
    }

    /// Frees frame `i`, whatever it held.
    fn discard(&mut self, i: usize)
        requires
            old(self).wf(),
            i < old(self)@.frames.len(),
            old(self)@.frames[i as int].state != FrameState::Unloaded,
        ensures
            final(self).wf(),
            final(self)@ == old(self)@.with_frame(i as int, FrameView::unloaded()),
    {
        let ghost before = *self;
        let key = self.frames[i].page_id.0;
        assert(before@.frames[i as int].state != FrameState::Unloaded);
        map_remove(&mut self.index, key);
        self.frames.set(i, Frame::unloaded());
        proof {
            HeapTable::lemma_frame_replaced(before, *self, i as int);
        }
    }

    /// Lets the clock look at the frames `from..to` in turn. It stops at the
    /// first one that holds a page, is not pinned and has its flag clear, and
    /// clears the flag of every frame it passes on the way.
    #[verifier::loop_isolation(false)]
    fn sweep_range(&mut self, from: usize, to: usize) -> (victim: Option<usize>)
        requires
            old(self).wf(),
            from <= to <= old(self)@.frames.len(),
        ensures
            final(self).wf(),
            final(self)@.hand == old(self)@.hand,
            final(self)@.dir == old(self)@.dir,
            final(self)@.frames.len() == old(self)@.frames.len(),
            match victim {
                Some(v) => from <= v < to && old(self)@.frames[v as int].evictable() && !old(
                    self,
                )@.frames[v as int].used,
                None => true,
            },
            forall|j: int|
                from <= j < (if victim is Some {
                    victim->Some_0
                } else {
                    to
                }) ==> !((#[trigger] old(self)@.frames[j]).evictable() && !old(self)@.frames[j].used),
            forall|j: int|
                0 <= j < old(self)@.frames.len() ==> #[trigger] final(self)@.frames[j] == if from <= j
                    < (if victim is Some {
                    victim->Some_0
                } else {
                    to
                }) {
                    FrameView { used: false, ..old(self)@.frames[j] }
                } else {
                    old(self)@.frames[j]
                },
    {
        let ghost before = *self;
        let mut i = from;
        while i < to
            invariant
                from <= i <= to <= self.frames@.len(),
                self.wf(),
                before.wf(),
                self@.hand == before@.hand,
                self@.dir == before@.dir,
                self@.frames.len() == before@.frames.len(),
                forall|j: int|
                    from <= j < i ==> !((#[trigger] before@.frames[j]).evictable()
                        && !before@.frames[j].used),
                forall|j: int|
                    0 <= j < before@.frames.len() ==> #[trigger] self@.frames[j] == if from <= j < i {
                        FrameView { used: false, ..before@.frames[j] }
                    } else {
                        before@.frames[j]
                    },
            decreases to - i,
        {
            assert(self@.frames[i as int] == before@.frames[i as int]);
            if self.frames[i].state == FrameState::Cached && self.frames[i].pins == 0
                && !self.frames[i].flushing && !self.frames[i].used {
                return Some(i);
            }
            let ghost prev = *self;
            self.frames[i].used = false;
            proof {
                assert(prev.frames@[i as int].wf());
                assert(prev@.frames[i as int].wf());
                HeapTable::lemma_frame_changed(prev, *self, i as int);
                assert forall|j: int| 0 <= j < before@.frames.len() implies #[trigger] self@.frames[j]
                    == if from <= j < i + 1 {
                    FrameView { used: false, ..before@.frames[j] }
                } else {
                    before@.frames[j]
                } by {
                    if j != i {
                        assert(self@.frames[j] == prev@.frames[j]);
                    }
                }
            }
            i = i + 1;
        }
        None
    }

    /// Runs the clock: starting at the hand it goes round the frames, at most
    /// twice, clears the flag of each frame it passes, and takes the first
    /// frame that holds a page, is not pinned and has its flag clear. The
    /// hand is left behind the frame taken.
    fn sweep(&mut self) -> (victim: usize)
        requires
            old(self).wf(),
            old(self)@.has_evictable(),
        ensures
            final(self).wf(),
            exists|k: int| #[trigger]
                old(self)@.is_stop(k) && victim == old(self)@.visit_pos(k) && final(self)@ == old(
                    self,
                )@.swept(k),
    {
        let ghost start = self@;
        let n = self.frames.len();
        let hand = self.hand;
        let ghost mut k: int = 0;
        let first = self.sweep_range(hand, n);
        let ghost mid = self@;
        let victim = match first {
            Some(v) => {
                proof {
                    k = v - hand;
                    assert(start.visit_pos(k) == v);
                    assert forall|j: int| 0 <= j < k implies !#[trigger] start.stops_at(j) by {
                        assert(start.visit_pos(j) == hand + j);
                        assert(!(start.frames[hand + j].evictable() && !start.frames[hand + j].used));
                    }
                    assert forall|i: int| 0 <= i < n implies #[trigger] self@.frames[i]
                        == start.swept(k).frames[i] by {
                        assert(mid.frames[i] == self@.frames[i]);
                    }
                }
                v
            },
            None => {
                let second = self.sweep_range(0, n);
                let ghost late = self@;
                match second {
                    Some(v) => {
                        proof {
                            k = n - hand + v;
                            assert(start.visit_pos(k) == v);
                            assert(mid.frames[v as int].evictable());
                            assert(start.frames[v as int].evictable());
                            assert(start.stops_at(k));
                            assert forall|j: int| 0 <= j < k implies !#[trigger] start.stops_at(
                                j,
                            ) by {
                                if j < n - hand {
                                    assert(start.visit_pos(j) == hand + j);
                                    assert(!(start.frames[hand + j].evictable() && !start.frames[hand
                                        + j].used));
                                } else {
                                    let pos = j - (n - hand);
                                    assert(start.visit_pos(j) == pos);
                                    assert(mid.frames[pos] == if hand <= pos < n {
                                        FrameView { used: false, ..start.frames[pos] }
                                    } else {
                                        start.frames[pos]
                                    });
                                    assert(!(mid.frames[pos].evictable() && !mid.frames[pos].used));
                                }
                            }
                            assert forall|i: int| 0 <= i < n implies #[trigger] self@.frames[i]
                                == start.swept(k).frames[i] by {
                                assert(late.frames[i] == self@.frames[i]);
                                assert(mid.frames[i] == if hand <= i < n {
                                    FrameView { used: false, ..start.frames[i] }
                                } else {
                                    start.frames[i]
                                });
                            }
                        }
                        v
                    },
                    None => {
                        let third = self.sweep_range(0, hand);
                        match third {
                            Some(v) => {
                                proof {
                                    k = 2 * n - hand + v;
                                    assert(start.visit_pos(k) == v);
                                    assert(late.frames[v as int].evictable());
                                    assert(mid.frames[v as int].evictable());
                                    assert(start.frames[v as int].evictable());
                                    assert(start.stops_at(k));
                                    assert forall|j: int| 0 <= j < k implies !#[trigger] start.stops_at(
                                        j,
                                    ) by {
                                        if j < n - hand {
                                            assert(start.visit_pos(j) == hand + j);
                                            assert(!(start.frames[hand + j].evictable()
                                                && !start.frames[hand + j].used));
                                        } else if j < 2 * n - hand {
                                            let pos = j - (n - hand);
                                            assert(start.visit_pos(j) == pos);
                                            assert(mid.frames[pos] == if hand <= pos < n {
                                                FrameView { used: false, ..start.frames[pos] }
                                            } else {
                                                start.frames[pos]
                                            });
                                            assert(!(mid.frames[pos].evictable()
                                                && !mid.frames[pos].used));
                                        } else {
                                            let pos = j - (2 * n - hand);
                                            assert(start.visit_pos(j) == pos);
                                            assert(mid.frames[pos] == start.frames[pos]);
                                            assert(late.frames[pos] == FrameView {
                                                used: false,
                                                ..mid.frames[pos]
                                            });
                                            assert(!(late.frames[pos].evictable()
                                                && !late.frames[pos].used));
                                        }
                                    }
                                    assert forall|i: int| 0 <= i < n implies #[trigger] self@.frames[i]
                                        == start.swept(k).frames[i] by {
                                        assert(late.frames[i] == FrameView {
                                            used: false,
                                            ..mid.frames[i]
                                        });
                                        assert(mid.frames[i] == if hand <= i < n {
                                            FrameView { used: false, ..start.frames[i] }
                                        } else {
                                            start.frames[i]
                                        });
                                    }
                                }
                                v
                            },
                            None => {
                                proof {
                                    let e = choose|e: int|
                                        0 <= e < start.frames.len() && (#[trigger] start.frames[e]).evictable();
                                    assert(mid.frames[e] == if hand <= e < n {
                                        FrameView { used: false, ..start.frames[e] }
                                    } else {
                                        start.frames[e]
                                    });
                                    assert(!(mid.frames[e].evictable() && !mid.frames[e].used));
                                    assert(late.frames[e] == FrameView { used: false, ..mid.frames[e] });
                                    assert(e < hand);
                                    assert(!(late.frames[e].evictable() && !late.frames[e].used));
                                    assert(false);
                                }
                                vstd::pervasive::unreached()
                            },
                        }
                    },
                }
            },
        };
        let ghost swept_frames = self@.frames;
        self.hand = if victim + 1 == n {
            0
        } else {
            victim + 1
        };
        proof {
            assert(self@.frames =~= swept_frames);
            assert(self@.frames =~= start.swept(k).frames);
            assert(start.is_stop(k));
            assert(self@ == start.swept(k));
        }
        victim
    }

    /// What the index from pages to frames holds after frame `i` was
    /// replaced: the page that the frame was kept for or held is taken out,
    /// and the page that it is kept for or holds now is put in.
    spec fn index_after(index: Map<u32, usize>, was: Frame, is: Frame, i: int) -> Map<u32, usize> {
        let without = if was.state != FrameState::Unloaded {
            index.remove(was.page_id.0)
        } else {
            index
        };
        if is.state != FrameState::Unloaded {
            without.insert(is.page_id.0, i as usize)
        } else {
            without
        }
    }

    /// Replacing one frame keeps the invariant of the cache, where the new
    /// frame satisfies its own invariant, its page is in the directory and
    /// in no other frame, and the index follows the change.
    proof fn lemma_frame_replaced(before: HeapTable, after: HeapTable, i: int)
        requires
            before.wf(),
            0 <= i < before.frames@.len(),
            i <= usize::MAX,
            after.frames@.len() == before.frames@.len(),
            forall|j: int|
                0 <= j < before.frames@.len() && j != i ==> #[trigger] after.frames@[j]
                    == before.frames@[j],
            after.page_dir@ == before.page_dir@,
            after.hand == before.hand,
            after.frames@[i].wf(),
            after.frames@[i].state != FrameState::Unloaded ==> after.page_dir@.contains_key(
                after.frames@[i].page_id,
            ),
            after.frames@[i].state != FrameState::Unloaded ==> forall|j: int|
                0 <= j < before.frames@.len() && j != i && (#[trigger] before.frames@[j]).state
                    != FrameState::Unloaded ==> before.frames@[j].page_id
                    != after.frames@[i].page_id,
            map_entries(after.index) == HeapTable::index_after(
                map_entries(before.index),
                before.frames@[i],
                after.frames@[i],
                i,
            ),
        ensures
            after.wf(),
            after@ == before@.with_frame(i, after.frames@[i]@),
    {
        let was = before.frames@[i];
        let is = after.frames@[i];
        assert(after@.frames =~= before@.with_frame(i, is@).frames);
        assert forall|j: int| 0 <= j < after@.frames.len() implies (#[trigger] after@.frames[j]).wf() by {
            if j != i {
                assert(before@.frames[j].wf());
            }
        }
        assert forall|j: int|
            0 <= j < after@.frames.len() && (#[trigger] after@.frames[j]).state
                != FrameState::Unloaded implies after@.dir.contains_key(after@.frames[j].page_id) by {
            if j != i {
                assert(before@.frames[j].state != FrameState::Unloaded);
            }
        }
        assert forall|a: int, b: int|
            0 <= a < b < after@.frames.len() && (#[trigger] after@.frames[a]).state
                != FrameState::Unloaded && (#[trigger] after@.frames[b]).state
                != FrameState::Unloaded implies after@.frames[a].page_id != after@.frames[b].page_id by {
            if a != i && b != i {
                assert(before@.frames[a].state != FrameState::Unloaded);
                assert(before@.frames[b].state != FrameState::Unloaded);
                assert(before@.frames[a].page_id != before@.frames[b].page_id);
            } else if a == i {
                assert(before.frames@[b].state != FrameState::Unloaded);
            } else {
                assert(before.frames@[a].state != FrameState::Unloaded);
            }
        }
        assert forall|j: int| 0 <= j < after.frames@.len() implies (#[trigger] after.frames@[j]).wf() by {
            if j != i {
                assert(before.frames@[j].wf());
            }
        }
        assert forall|j: int|
            0 <= j < after.frames@.len() && (#[trigger] after.frames@[j]).state
                != FrameState::Unloaded implies map_entries(after.index).contains_key(
            after.frames@[j].page_id.0,
        ) && map_entries(after.index)[after.frames@[j].page_id.0] == j by {
            if j != i {
                let key = before.frames@[j].page_id.0;
                assert(before.frames@[j].state != FrameState::Unloaded);
                assert(map_entries(before.index).contains_key(key) && map_entries(before.index)[key]
                    == j);
                if was.state != FrameState::Unloaded {
                    assert(before@.frames[j].state != FrameState::Unloaded);
                    assert(before@.frames[i].state != FrameState::Unloaded);
                    if j < i {
                        assert(before@.frames[j].page_id != before@.frames[i].page_id);
                    } else {
                        assert(before@.frames[i].page_id != before@.frames[j].page_id);
                    }
                    assert(was.page_id == before@.frames[i].page_id);
                    assert(before.frames@[j].page_id == before@.frames[j].page_id);
                    assert(key != was.page_id.0);
                }
                if is.state != FrameState::Unloaded {
                    assert(before.frames@[j].page_id != is.page_id);
                    assert(key != is.page_id.0);
                }
            }
        }
        assert forall|key: u32| #[trigger]
            map_entries(after.index).contains_key(key) implies {
            let j = map_entries(after.index)[key];
            &&& j < after.frames@.len()
            &&& after.frames@[j as int].state != FrameState::Unloaded
            &&& after.frames@[j as int].page_id == PageId(key)
        } by {
            if !(is.state != FrameState::Unloaded && key == is.page_id.0) {
                assert(map_entries(before.index).contains_key(key));
                let j = map_entries(before.index)[key];
                assert(before.frames@[j as int].state != FrameState::Unloaded);
                assert(before.frames@[j as int].page_id == PageId(key));
                assert(j != i);
            }
        }
    }

    /// A change to one frame that leaves the frame with the page it was kept
    /// for or held, or leaves it free, keeps the invariant of the cache.
    proof fn lemma_frame_changed(before: HeapTable, after: HeapTable, i: int)
        requires
            before.wf(),
            0 <= i < before.frames@.len(),
            i <= usize::MAX,
            after.frames@.len() == before.frames@.len(),
            forall|j: int|
                0 <= j < before.frames@.len() && j != i ==> #[trigger] after.frames@[j]
                    == before.frames@[j],
            map_entries(after.index) == map_entries(before.index),
            after.page_dir@ == before.page_dir@,
            after.hand == before.hand,
            after.frames@[i].wf(),
            (before.frames@[i].state == FrameState::Unloaded) == (after.frames@[i].state
                == FrameState::Unloaded),
            after.frames@[i].page_id == before.frames@[i].page_id,
        ensures
            after.wf(),
            after@ == before@.with_frame(i, after.frames@[i]@),
    {
        let index = map_entries(before.index);
        assert(index =~= HeapTable::index_after(index, before.frames@[i], after.frames@[i], i));
        if after.frames@[i].state != FrameState::Unloaded {
            assert(before@.frames[i].state != FrameState::Unloaded);
            assert forall|j: int|
                0 <= j < before.frames@.len() && j != i && (#[trigger] before.frames@[j]).state
                    != FrameState::Unloaded implies before.frames@[j].page_id
                != after.frames@[i].page_id by {
                assert(before@.frames[j].state != FrameState::Unloaded);
                if j < i {
                    assert(before@.frames[j].page_id != before@.frames[i].page_id);
                } else {
                    assert(before@.frames[i].page_id != before@.frames[j].page_id);
                }
            }
        }
        HeapTable::lemma_frame_replaced(before, after, i);
    }

    /// The frame that is kept for `page_id` or holds it, if there is one.
    fn find_frame(&self, page_id: PageId) -> (found: Option<usize>)
        requires
            self.wf(),
        ensures
            found is Some <==> self@.tracks(page_id),
            found is Some ==> found->Some_0 == self@.frame_of(page_id) && found->Some_0
                < self@.frames.len() && self@.frames[found->Some_0 as int].page_id == page_id
                && self@.frames[found->Some_0 as int].state != FrameState::Unloaded,
    {
        let found = map_get(&self.index, page_id.0);
        proof {
            match found {
                Some(i) => {
                    assert(map_entries(self.index).contains_key(page_id.0));
                    assert(self.frames@[i as int].state != FrameState::Unloaded);
                    assert(self@.frames[i as int].state != FrameState::Unloaded);
                    assert(self@.tracks(page_id));
                    let c = self@.frame_of(page_id);
                    assert(self@.frames[c].state != FrameState::Unloaded);
                    if c < i {
                        assert(self@.frames[c].page_id != self@.frames[i as int].page_id);
                    } else if i < c {
                        assert(self@.frames[i as int].page_id != self@.frames[c].page_id);
                    }
                },
                None => {
                    if self@.tracks(page_id) {
                        let c = self@.frame_of(page_id);
                        assert(self@.frames[c].state != FrameState::Unloaded);
                        assert(self.frames@[c].state != FrameState::Unloaded);
                    }
                },
            }
        }
        found
    }

    /// Asks for a page. A page in the cache is pinned and handed out at once.
    /// For a page that is not in the cache the directory is asked where it
    /// is; a page that the directory does not know is not found. Otherwise a
    /// frame is found for the page: the first free one, or else the one that
    /// the clock takes. The caller is told what to read or write.
    pub fn get_page(&mut self, page_id: PageId) -> (r: Result<Access, HeapError>)
        requires
            old(self).wf(),
        ensures
            final(self).wf(),
            final(self)@.dir == old(self)@.dir,
            final(self)@.frames.len() == old(self)@.frames.len(),
            old(self)@.tracks(page_id) && old(self)@.frames[old(self)@.frame_of(page_id)].state
                == FrameState::Cached && old(self)@.frames[old(self)@.frame_of(page_id)].pins
                < usize::MAX ==> r is Ok && r->Ok_0@ == (AccessView::Ready {
                frame: old(self)@.frame_of(page_id),
                page_id,
            }) && final(self)@ == old(self)@.pinned(old(self)@.frame_of(page_id)),
            old(self)@.tracks(page_id) && !(old(self)@.frames[old(self)@.frame_of(page_id)].state
                == FrameState::Cached && old(self)@.frames[old(self)@.frame_of(page_id)].pins
                < usize::MAX) ==> r is Ok && r->Ok_0@ == AccessView::Busy && final(self)@ == old(
                self,
            )@,
            !old(self)@.tracks(page_id) && !old(self)@.dir.contains_key(page_id) ==> r is Err
                && r->Err_0 == HeapError::PageNotFound && final(self)@ == old(self)@,
            !old(self)@.tracks(page_id) && old(self)@.dir.contains_key(page_id) && old(
                self,
            )@.has_free() ==> r is Ok && r->Ok_0@ is Load && old(self)@.is_first_free(
                r->Ok_0@->Load_frame,
            ) && r->Ok_0@->Load_location == old(self)@.dir[page_id] && final(self)@ == old(
                self,
            )@.with_frame(r->Ok_0@->Load_frame, FrameView::loading(page_id)),
            !old(self)@.tracks(page_id) && old(self)@.dir.contains_key(page_id) && !old(
                self,
            )@.has_free() && !old(self)@.has_evictable() ==> r is Ok && r->Ok_0@ == AccessView::Busy
                && final(self)@ == old(self)@,
            !old(self)@.tracks(page_id) && old(self)@.dir.contains_key(page_id) && !old(
                self,
            )@.has_free() && old(self)@.has_evictable() ==> r is Ok && exists|k: int| #[trigger]
                old(self)@.is_stop(k) && old(self)@.evicts(page_id, k, final(self)@, r->Ok_0@),
            r is Err ==> r->Err_0 == HeapError::PageNotFound,
    {
        let ghost before = *self;
        match self.find_frame(page_id) {
            Some(i) => {
                if self.frames[i].state == FrameState::Cached && self.frames[i].pins < usize::MAX {
                    self.frames[i].pins = self.frames[i].pins + 1;
                    self.frames[i].used = true;
                    proof {
                        assert(before.frames@[i as int].wf());
                        HeapTable::lemma_frame_changed(before, *self, i as int);
                    }
                    return Ok(Access::Ready(PageGuard { frame: i, page_id }));
                } else {
                    return Ok(Access::Busy);
                }
            },
            None => {},
        }
        let location = match self.page_dir.lookup(page_id) {
            None => { return Err(HeapError::PageNotFound); },
            Some(location) => location,
        };
        match self.find_free() {
            Some(i) => {
                assert(before@.frames[i as int].state == FrameState::Unloaded);
                self.reserve(i, page_id);
                Ok(Access::Load { frame: i, location })
            },
            None => {
                if !self.any_evictable() {
                    return Ok(Access::Busy);
                }
                let victim = self.sweep();
                let ghost k = choose|k: int| #[trigger]
                    before@.is_stop(k) && victim == before@.visit_pos(k) && self@ == before@.swept(k);
                let ghost swept = *self;
                assert(swept@.frames[victim as int] == FrameView {
                    used: false,
                    ..before@.frames[victim as int]
                } || swept@.frames[victim as int] == before@.frames[victim as int]);
                assert(before@.frames[victim as int].evictable());
                assert(swept.frames@[victim as int].wf());
                assert(swept@.frames[victim as int].wf());
                assert(!swept@.tracks(page_id)) by {
                    if swept@.tracks(page_id) {
                        let c = swept@.frame_of(page_id);
                        assert(before@.frames[c].state != FrameState::Unloaded);
                        assert(before@.frames[c].page_id == page_id);
                        assert(false);
                    }
                }
                if self.frames[victim].dirty {
                    let victim_id = self.frames[victim].page_id;
                    assert(swept@.dir.contains_key(swept@.frames[victim as int].page_id));
                    let target = match self.page_dir.lookup(victim_id) {
                        Some(target) => target,
                        None => {
                            assert(false);
                            vstd::pervasive::unreached()
                        },
                    };
                    let image = match &self.frames[victim].page {
                        Some(page) => page.encode(),
                        None => {
                            assert(false);
                            vstd::pervasive::unreached()
                        },
                    };
                    self.frames[victim].state = FrameState::Evicting;
                    proof {
                        HeapTable::lemma_frame_changed(swept, *self, victim as int);
                    }
                    Ok(Access::WriteBack { frame: victim, location: target, image })
                } else {
                    self.discard(victim);
                    let ghost freed = *self;
                    assert(!freed@.tracks(page_id)) by {
                        if freed@.tracks(page_id) {
                            let c = freed@.frame_of(page_id);
                            assert(swept@.frames[c].state != FrameState::Unloaded);
                            assert(swept@.frames[c].page_id == page_id);
                            assert(false);
                        }
                    }
                    self.reserve(victim, page_id);
                    proof {
                        assert(self@.frames =~= swept@.with_frame(
                            victim as int,
                            FrameView::loading(page_id),
                        ).frames);
                    }
                    Ok(Access::Load { frame: victim, location })
                }
            },
        }
    }

    /// Reports that the image of the page that frame `frame` is kept for was
    /// read. An image that reads as a page makes the frame hold the page,
    /// clean and pinned once; an image that does not frees the frame, and
    /// the error goes to the caller.
    pub fn finish_load(&mut self, frame: usize, data: BytesMut) -> (r: Result<PageGuard, HeapError>)
        requires
            old(self).wf(),
            frame < old(self)@.frames.len(),
            old(self)@.frames[frame as int].state == FrameState::Loading,
        ensures
            final(self).wf(),
            match r {
                Ok(guard) => PageView::spec_decode(buffer_bytes(data)) is Ok && guard.spec_frame()
                    == frame && guard.spec_page_id() == old(self)@.frames[frame as int].page_id
                    && final(self)@ == old(self)@.with_frame(
                    frame as int,
                    FrameView {
                        state: FrameState::Cached,
                        page_id: old(self)@.frames[frame as int].page_id,
                        page: Some(PageView::spec_decode(buffer_bytes(data))->Ok_0),
                        dirty: false,
                        flushing: false,
                        pins: 1,
                        used: true,
                    },
                ),
                Err(e) => PageView::spec_decode(buffer_bytes(data)) == Err::<PageView, HeapError>(e)
                    && final(self)@ == old(self)@.with_frame(frame as int, FrameView::unloaded()),
            },
    {
        let ghost before = *self;
        match Page::try_from(data) {
            Err(e) => {
                self.discard(frame);
                Err(e)
            },
            Ok(page) => {
                let page_id = self.frames[frame].page_id;
                assert(before@.frames[frame as int].page_id == page_id);
                self.frames.set(
                    frame,
                    Frame {
                        state: FrameState::Cached,
                        page_id,
                        page: Some(page),
                        dirty: false,
                        flushing: false,
                        pins: 1,
                        used: true,
                    },
                );
                proof {
                    assert(before@.frames[frame as int].state == FrameState::Loading);
                    assert(before.frames@[frame as int].state == FrameState::Loading);
                    HeapTable::lemma_frame_changed(before, *self, frame as int);
                }
                Ok(PageGuard { frame, page_id })
            },
        }
    }

    /// Reports that the image of the page that frame `frame` is kept for
    /// could not be read: the frame is free again.
    pub fn cancel_load(&mut self, frame: usize)
        requires
            old(self).wf(),
            frame < old(self)@.frames.len(),
            old(self)@.frames[frame as int].state == FrameState::Loading,
        ensures
            final(self).wf(),
            final(self)@ == old(self)@.with_frame(frame as int, FrameView::unloaded()),
    {
        self.discard(frame);
    }

    /// Reports that the page in frame `frame` was written back: the frame is
    /// free.
    pub fn finish_evict(&mut self, frame: usize)
        requires
            old(self).wf(),
            frame < old(self)@.frames.len(),
            old(self)@.frames[frame as int].state == FrameState::Evicting,
        ensures
            final(self).wf(),
            final(self)@ == old(self)@.with_frame(frame as int, FrameView::unloaded()),
    {
        self.discard(frame);
    }

    /// Reports that the page in frame `frame` could not be written back: the
    /// page stays in the cache, dirty as it was.
    pub fn cancel_evict(&mut self, frame: usize)
        requires
            old(self).wf(),
            frame < old(self)@.frames.len(),
            old(self)@.frames[frame as int].state == FrameState::Evicting,
        ensures
            final(self).wf(),
            final(self)@ == old(self)@.with_frame(
                frame as int,
                FrameView { state: FrameState::Cached, ..old(self)@.frames[frame as int] },
            ),
    {
        let ghost before = *self;
        assert(before@.frames[frame as int].wf());
        assert(before.frames@[frame as int].wf());
        self.frames[frame].state = FrameState::Cached;
        proof {
            HeapTable::lemma_frame_changed(before, *self, frame as int);
        }
    }

    /// Hands out the image of `page_id` for writing, if the page is in the
    /// cache and dirty and no write of it is under way. The image goes where
    /// the directory says the page is. From then on a write of the page is
    /// under way: the clock passes the page by, and it is not handed out
    /// again, until the write is reported with [`HeapTable::finish_flush`]
    /// or [`HeapTable::cancel_flush`]. What is changed in the page meanwhile
    /// makes it dirty again.
    pub fn flush(&mut self, page_id: PageId) -> (r: Option<(PageLocation, BytesMut)>)
        requires
            old(self).wf(),
        ensures
            final(self).wf(),
            r is Some <==> old(self)@.tracks(page_id) && old(self)@.frames[old(self)@.frame_of(
                page_id,
            )].flushable(),
            r is Some ==> r->Some_0.0 == old(self)@.dir[page_id] && buffer_bytes(r->Some_0.1) == old(
                self,
            )@.frames[old(self)@.frame_of(page_id)].page->Some_0.spec_encode() && final(self)@
                == old(self)@.with_frame(
                old(self)@.frame_of(page_id),
                old(self)@.frames[old(self)@.frame_of(page_id)].handed_out(),
            ),
            r is None ==> final(self)@ == old(self)@,
    {
        match self.find_frame(page_id) {
            None => None,
            Some(i) => {
                if self.frames[i].state == FrameState::Cached && self.frames[i].dirty
                    && !self.frames[i].flushing {
                    Some(self.flush_frame(i))
                } else {
                    None
                }
            },
        }
    }

    /// Hands out the image of the dirty page in frame `i`.
    fn flush_frame(&mut self, i: usize) -> (r: (PageLocation, BytesMut))
        requires
            old(self).wf(),
            i < old(self)@.frames.len(),
            old(self)@.frames[i as int].flushable(),
        ensures
            final(self).wf(),
            r.0 == old(self)@.dir[old(self)@.frames[i as int].page_id],
            buffer_bytes(r.1) == old(self)@.frames[i as int].page->Some_0.spec_encode(),
            final(self)@ == old(self)@.with_frame(i as int, old(self)@.frames[i as int].handed_out()),
    {
        let ghost before = *self;
        assert(before@.frames[i as int].wf());
        assert(before.frames@[i as int].wf());
        assert(before@.dir.contains_key(before@.frames[i as int].page_id));
        let location = match self.page_dir.lookup(self.frames[i].page_id) {
            Some(location) => location,
            None => {
                assert(false);
                vstd::pervasive::unreached()
            },
        };
        let image = match &self.frames[i].page {
            Some(page) => page.encode(),
            None => {
                assert(false);
                vstd::pervasive::unreached()
            },
        };
        self.frames[i].dirty = false;
        self.frames[i].flushing = true;
        proof {
            HeapTable::lemma_frame_changed(before, *self, i as int);
        }
        (location, image)
    }

    /// Reports that the image of `page_id` that [`HeapTable::flush`] or
    /// [`HeapTable::flush_all`] handed out was written. The page is clean
    /// unless it was changed since. Where no write of the page is under
    /// way, nothing changes.
    pub fn finish_flush(&mut self, page_id: PageId) -> (done: bool)
        requires
            old(self).wf(),
        ensures
            final(self).wf(),
            done <==> old(self)@.tracks(page_id) && old(self)@.frames[old(self)@.frame_of(
                page_id,
            )].flushing,
            done ==> final(self)@ == old(self)@.with_frame(
                old(self)@.frame_of(page_id),
                FrameView { flushing: false, ..old(self)@.frames[old(self)@.frame_of(page_id)] },
            ),
            !done ==> final(self)@ == old(self)@,
    {
        let ghost before = *self;
        match self.find_frame(page_id) {
            None => false,
            Some(i) => {
                assert(before@.frames[i as int].wf());
                assert(before.frames@[i as int].wf());
                if self.frames[i].flushing {
                    self.frames[i].flushing = false;
                    proof {
                        HeapTable::lemma_frame_changed(before, *self, i as int);
                    }
                    true
                } else {
                    false
                }
            },
        }
    }

    /// Reports that the image of `page_id` that [`HeapTable::flush`] or
    /// [`HeapTable::flush_all`] handed out could not be written. The page is
    /// dirty as it was. Where no write of the page is under way, nothing
    /// changes.
    pub fn cancel_flush(&mut self, page_id: PageId) -> (done: bool)
        requires
            old(self).wf(),
        ensures
            final(self).wf(),
            done <==> old(self)@.tracks(page_id) && old(self)@.frames[old(self)@.frame_of(
                page_id,
            )].flushing,
            done ==> final(self)@ == old(self)@.with_frame(
                old(self)@.frame_of(page_id),
                FrameView {
                    flushing: false,
                    dirty: true,
                    ..old(self)@.frames[old(self)@.frame_of(page_id)]
                },
            ),
            !done ==> final(self)@ == old(self)@,
    {
        let ghost before = *self;
        match self.find_frame(page_id) {
            None => false,
            Some(i) => {
                assert(before@.frames[i as int].wf());
                assert(before.frames@[i as int].wf());
                if self.frames[i].flushing {
                    self.frames[i].flushing = false;
                    self.frames[i].dirty = true;
                    proof {
                        HeapTable::lemma_frame_changed(before, *self, i as int);
                    }
                    true
                } else {
                    false
                }
            },
        }
    }

    /// Hands out the images of all dirty pages in the cache of which no
    /// write is under way, in the order of their frames, as
    /// [`HeapTable::flush`] does for one page. Each write is to be reported
    /// for its page.
    pub fn flush_all(&mut self) -> (images: Vec<(PageId, PageLocation, BytesMut)>)
        requires
            old(self).wf(),
        ensures
            final(self).wf(),
            final(self)@ == old(self)@.flushed(old(self)@.frames.len() as int),
            images@.len() == old(self)@.dirty_pages(old(self)@.frames.len() as int).len(),
            forall|k: int|
                0 <= k < images@.len() ==> (#[trigger] images@[k]).0 == old(self)@.dirty_pages(
                    old(self)@.frames.len() as int,
                )[k].0 && images@[k].1 == old(self)@.dirty_pages(
                    old(self)@.frames.len() as int,
                )[k].1 && buffer_bytes(images@[k].2) == old(self)@.dirty_pages(
                    old(self)@.frames.len() as int,
                )[k].2,
            forall|i: int|
                0 <= i < final(self)@.frames.len() ==> !(#[trigger] final(self)@.frames[i]).flushable(),
    {
        let ghost before = self@;
        let n = self.frames.len();
        let mut images: Vec<(PageId, PageLocation, BytesMut)> = Vec::new();
        assert(self@.frames =~= before.flushed(0).frames);
        for i in 0..n
            invariant
                self.wf(),
                n == before.frames.len(),
                self@ == before.flushed(i as int),
                images@.len() == before.dirty_pages(i as int).len(),
                forall|k: int|
                    0 <= k < images@.len() ==> (#[trigger] images@[k]).0 == before.dirty_pages(
                        i as int,
                    )[k].0 && images@[k].1 == before.dirty_pages(i as int)[k].1 && buffer_bytes(
                        images@[k].2,
                    ) == before.dirty_pages(i as int)[k].2,
        {
            let ghost now = self@;
            assert(now.frames[i as int] == before.frames[i as int]);
            if self.frames[i].state == FrameState::Cached && self.frames[i].dirty
                && !self.frames[i].flushing {
                let page_id = self.frames[i].page_id;
                let image = self.flush_frame(i);
                images.push((page_id, image.0, image.1));
            }
            assert(self@.frames =~= before.flushed(i + 1).frames);
        }
        assert forall|i: int| 0 <= i < self@.frames.len() implies !(#[trigger] self@.frames[i]).flushable() by {
            assert(self@.frames[i] == before.flushed(n as int).frames[i]);
        }
        images
    }

    /// Appends a tuple to the page that `guard` holds, as
    /// [`Page::insert_tuple`] does, and takes the page for dirty. A page
    /// without room is left as it is.
    pub fn insert_tuple(&mut self, guard: &PageGuard, tuple_bytes: &[u8]) -> (r: Result<
        TupleId,
        HeapError,
    >)
        requires
            old(self).wf(),
            old(self)@.holds(guard.spec_frame(), guard.spec_page_id()),
        ensures
            final(self).wf(),
            r is Err <==> old(self)@.frames[guard.spec_frame()].page->Some_0.room()
                < tuple_bytes@.len() + SLOT_SIZE,
            r is Err ==> r->Err_0 == HeapError::PageFull && final(self)@ == old(self)@,
            r is Ok ==> old(self)@.frames[guard.spec_frame()].page->Some_0.is_next_id(r->Ok_0)
                && final(self)@ == old(self)@.with_frame(
                guard.spec_frame(),
                FrameView {
                    page: Some(
                        old(self)@.frames[guard.spec_frame()].page->Some_0.spec_insert(
                            r->Ok_0,
                            tuple_bytes@,
                        ),
                    ),
                    dirty: true,
                    ..old(self)@.frames[guard.spec_frame()]
                },
            ),
    {
        let ghost before = *self;
        let i = guard.frame;
        assert(before@.frames[i as int].wf());
        assert(before.frames@[i as int].wf());
        let r = match &mut self.frames[i].page {
            Some(page) => page.insert_tuple(tuple_bytes),
            None => {
                assert(false);
                vstd::pervasive::unreached()
            },
        };
        if r.is_ok() {
            self.frames[i].dirty = true;
            proof {
                HeapTable::lemma_frame_changed(before, *self, i as int);
            }
        } else {
            proof {
                HeapTable::lemma_frame_changed(before, *self, i as int);
                assert(self@.frames =~= before@.frames);
            }
        }
        r
    }

    /// The bytes of the tuple `tuple_id` in the page that `guard` holds.
    /// Fails exactly when the page has no slot for the tuple.
    pub fn get_tuple_bytes(&self, guard: &PageGuard, tuple_id: TupleId) -> (r: Result<
        &[u8],
        HeapError,
    >)
        requires
            self.wf(),
            self@.holds(guard.spec_frame(), guard.spec_page_id()),
        ensures
            r is Ok <==> self@.frames[guard.spec_frame()].page->Some_0.has(tuple_id),
            r is Ok ==> r->Ok_0@ == self@.frames[guard.spec_frame()].page->Some_0.tuple_bytes(
                tuple_id,
            ),
            r is Err ==> r->Err_0 == HeapError::TupleNotFound,
    {
        self.page(guard).get_tuple_bytes(tuple_id)
    }

    /// The tuple `tuple_id` of the page that `guard` holds, read from its
    /// bytes. Fails when the page has no slot for the tuple, and when the
    /// bytes do not read as a tuple.
    pub fn get_tuple(&self, guard: &PageGuard, tuple_id: TupleId) -> (r: Result<Tuple<'_>, HeapError>)
        requires
            self.wf(),
            self@.holds(guard.spec_frame(), guard.spec_page_id()),
        ensures
            !self@.frames[guard.spec_frame()].page->Some_0.has(tuple_id) ==> r is Err && r->Err_0
                == HeapError::TupleNotFound,
            self@.frames[guard.spec_frame()].page->Some_0.has(tuple_id) ==> match r {
                Ok(tuple) => tuple@.wf() && TupleView::spec_decode(
                    self@.frames[guard.spec_frame()].page->Some_0.tuple_bytes(tuple_id),
                ) == Ok::<TupleView, HeapError>(tuple@),
                Err(e) => TupleView::spec_decode(
                    self@.frames[guard.spec_frame()].page->Some_0.tuple_bytes(tuple_id),
                ) == Err::<TupleView, HeapError>(e),
            },
    {
        self.page(guard).get_tuple(tuple_id)
    }

    /// The number of frames.
    pub fn capacity(&self) -> (n: usize)
        ensures
            n == self@.frames.len(),
    {
        self.frames.len()
    }

    /// The state of frame `frame`.
    pub fn frame_state(&self, frame: usize) -> (state: Option<FrameState>)
        ensures
            state == if frame < self@.frames.len() {
                Some(self@.frames[frame as int].state)
            } else {
                None
            },
    {
        if frame < self.frames.len() {
            Some(self.frames[frame].state)
        } else {
            None
        }
    }

    /// Where `page_id` begins in the data file, if the directory knows the page.
    pub fn locate(&self, page_id: PageId) -> (location: Option<PageLocation>)
        ensures
            location == if self@.dir.contains_key(page_id) {
                Some(self@.dir[page_id])
            } else {
                None
            },
    {
        self.page_dir.lookup(page_id)
    }

    /// Notes in the directory that `page_id` begins at `location`. The frames
    /// stay as they are.
    pub fn assign(&mut self, page_id: PageId, location: PageLocation)
        requires
            old(self).wf(),
        ensures
            final(self).wf(),
            final(self)@ == (PoolView {
                dir: old(self)@.dir.insert(page_id, location),
                ..old(self)@
            }),
    {
        self.page_dir.insert(page_id, location);
        assert(self@.frames =~= old(self)@.frames);
    }

    /// Whether `guard` is in force: whether its page is still held in its frame.
    pub fn is_held(&self, guard: &PageGuard) -> (held: bool)
        ensures
            held == self@.holds(guard.spec_frame(), guard.spec_page_id()),
    {
        guard.frame < self.frames.len() && self.frames[guard.frame].state == FrameState::Cached
            && self.frames[guard.frame].page_id.0 == guard.page_id.0 && self.frames[guard.frame].pins
            > 0
    }

    /// Takes a guard back: its page has one holder less. A guard that is not
    /// in force changes nothing.
    pub fn release(&mut self, guard: PageGuard) -> (released: bool)
        requires
            old(self).wf(),
        ensures
            final(self).wf(),
            released == old(self)@.holds(guard.spec_frame(), guard.spec_page_id()),
            released ==> final(self)@ == old(self)@.with_frame(
                guard.spec_frame(),
                FrameView {
                    pins: (old(self)@.frames[guard.spec_frame()].pins - 1) as nat,
                    ..old(self)@.frames[guard.spec_frame()]
                },
            ),
            !released ==> final(self)@ == old(self)@,
    {
        if !self.is_held(&guard) {
            return false;
        }
        let i = guard.frame;
        self.frames[i].pins = self.frames[i].pins - 1;
        proof {
            let before = old(self)@;
            let after = before.with_frame(
                i as int,
                FrameView { pins: (before.frames[i as int].pins - 1) as nat, ..before.frames[i as int] },
            );
            assert(self@.frames =~= after.frames);
        }
        true
    }

    /// The page that `guard` holds.
    pub fn page(&self, guard: &PageGuard) -> (page: &Page)
        requires
            self.wf(),
            self@.holds(guard.spec_frame(), guard.spec_page_id()),
        ensures
            page.wf(),
            Some(page@) == self@.frames[guard.spec_frame()].page,
    {
        match &self.frames[guard.frame].page {
            Some(page) => page,
            None => {
                proof {
                    assert(self.frames@[guard.frame as int].wf());
                    assert(false);
                }
                vstd::pervasive::unreached()
            },
        }
    }
}

} // verus!
