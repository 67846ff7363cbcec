//! Identifiers of pages and tuples, and the global object identifier that
//! packs one of each into 64 bits.

use vstd::prelude::*;
use vstd::std_specs::convert::FromSpecImpl;

verus! {

/// What one unit of the page identifier weighs inside an [`Oid`]: 2^32.
pub const PAGE_STRIDE: u64 = 0x1_0000_0000;

/// Global address of a tuple. The high 32 bits name the page, the low 32 bits
/// name the tuple slot inside that page.
#[derive(Debug, Clone, Copy, PartialEq, Eq, PartialOrd, Ord, Hash, Structural)]
pub struct Oid(pub u64);

/// Identifier of a page, unique within a heap.
#[derive(Debug, Clone, Copy, PartialEq, Eq, PartialOrd, Ord, Hash, Structural)]
pub struct PageId(pub u32);

/// Identifier of a tuple slot, unique within a page.
#[derive(Debug, Clone, Copy, PartialEq, Eq, PartialOrd, Ord, Hash, Structural)]
pub struct TupleId(pub u32);

impl Oid {
    /// The address whose high word is `page_id` and whose low word is `tuple_id`.
    pub open spec fn spec_compose(page_id: PageId, tuple_id: TupleId) -> Oid {
        Oid((page_id.0 * PAGE_STRIDE + tuple_id.0) as u64)
    }

    /// The page and the slot that an address names.
    pub open spec fn spec_decompose(self) -> (PageId, TupleId) {
        (PageId((self.0 / PAGE_STRIDE) as u32), TupleId((self.0 % PAGE_STRIDE) as u32))
    }

    /// The raw 64-bit value.
    pub fn get(&self) -> (v: u64)
        ensures
            v == self.0,
    {
        self.0
    }

    /// Packs `page_id` into bits 63..32 and `tuple_id` into bits 31..0.
    pub fn compose(page_id: PageId, tuple_id: TupleId) -> (oid: Oid)
        ensures
            oid == Oid::spec_compose(page_id, tuple_id),
            oid.0 == page_id.0 * PAGE_STRIDE + tuple_id.0,
    {
        let p: u32 = page_id.0;
        let t: u32 = tuple_id.0;
        assert((((p as u64) << 32) | (t as u64)) == (p as u64) * 0x1_0000_0000 + (t as u64))
            by (bit_vector);
        Oid(((p as u64) << 32) | (t as u64))
    }

    /// Splits an address into the page and the slot it names.
    pub fn decompose(self) -> (ids: (PageId, TupleId))
        ensures
            ids == self.spec_decompose(),
            self.0 == ids.0.0 * PAGE_STRIDE + ids.1.0,
    {
        let v: u64 = self.0;
        assert((v >> 32) == v / 0x1_0000_0000 && (v >> 32) <= 0xffff_ffff) by (bit_vector);
        assert((v & 0xffff_ffff) == v % 0x1_0000_0000) by (bit_vector);
        (PageId((v >> 32) as u32), TupleId((v & 0xffff_ffff) as u32))
    }

    /// Composing and then decomposing gives back the pair that went in.
    pub proof fn lemma_decompose_compose(page_id: PageId, tuple_id: TupleId)
        ensures
            Oid::spec_compose(page_id, tuple_id).spec_decompose() == (page_id, tuple_id),
    {
    }

    /// Decomposing and then composing gives back the address that went in, so
    /// the two conversions are a bijection between all pairs and all addresses.
    pub proof fn lemma_compose_decompose(oid: Oid)
        ensures
            Oid::spec_compose(oid.spec_decompose().0, oid.spec_decompose().1) == oid,
    {
    }
}

impl PageId {
    /// The raw 32-bit value.
    pub fn get(&self) -> (v: u32)
        ensures
            v == self.0,
    {
        self.0
    }
}

impl TupleId {
    /// The raw 32-bit value.
    pub fn get(&self) -> (v: u32)
        ensures
            v == self.0,
    {
        self.0
    }
}

impl Default for Oid {
    fn default() -> (oid: Oid)
        ensures
            oid == Oid(0),
    {
        Oid(0)
    }
}

impl Default for PageId {
    fn default() -> (id: PageId)
        ensures
            id == PageId(0),
    {
        PageId(0)
    }
}

impl Default for TupleId {
    fn default() -> (id: TupleId)
        ensures
            id == TupleId(0),
    {
        TupleId(0)
    }
}

impl From<(PageId, TupleId)> for Oid {
    fn from(ids: (PageId, TupleId)) -> (oid: Oid) {
        Oid::compose(ids.0, ids.1)
    }
}

impl FromSpecImpl<(PageId, TupleId)> for Oid {
    open spec fn obeys_from_spec() -> bool {
        true
    }

    open spec fn from_spec(ids: (PageId, TupleId)) -> Oid {
        Oid::spec_compose(ids.0, ids.1)
    }
}

impl From<Oid> for (PageId, TupleId) {
    fn from(value: Oid) -> (ids: (PageId, TupleId)) {
        value.decompose()
    }
}

impl FromSpecImpl<Oid> for (PageId, TupleId) {
    open spec fn obeys_from_spec() -> bool {
        true
    }

    open spec fn from_spec(value: Oid) -> (PageId, TupleId) {
        value.spec_decompose()
    }
}

impl From<u64> for Oid {
    fn from(value: u64) -> (oid: Oid) {
        Oid(value)
    }
}

impl FromSpecImpl<u64> for Oid {
    open spec fn obeys_from_spec() -> bool {
        true
    }

    open spec fn from_spec(value: u64) -> Oid {
        Oid(value)
    }
}

impl From<Oid> for u64 {
    fn from(value: Oid) -> (v: u64) {
        value.0
    }
}

impl FromSpecImpl<Oid> for u64 {
    open spec fn obeys_from_spec() -> bool {
        true
    }

    open spec fn from_spec(value: Oid) -> u64 {
        value.0
    }
}

impl From<u32> for PageId {
    fn from(value: u32) -> (id: PageId) {
        PageId(value)
    }
}

impl FromSpecImpl<u32> for PageId {
    open spec fn obeys_from_spec() -> bool {
        true
    }

    open spec fn from_spec(value: u32) -> PageId {
        PageId(value)
    }
}

impl From<PageId> for u32 {
    fn from(value: PageId) -> (v: u32) {
        value.0
    }
}

impl FromSpecImpl<PageId> for u32 {
    open spec fn obeys_from_spec() -> bool {
        true
    }

    open spec fn from_spec(value: PageId) -> u32 {
        value.0
    }
}

impl From<u32> for TupleId {
    fn from(value: u32) -> (id: TupleId) {
        TupleId(value)
    }
}

impl FromSpecImpl<u32> for TupleId {
    open spec fn obeys_from_spec() -> bool {
        true
    }

    open spec fn from_spec(value: u32) -> TupleId {
        TupleId(value)
    }
}

impl From<TupleId> for u32 {
    fn from(value: TupleId) -> (v: u32) {
        value.0
    }
}

impl FromSpecImpl<TupleId> for u32 {
    open spec fn obeys_from_spec() -> bool {
        true
    }

    open spec fn from_spec(value: TupleId) -> u32 {
        value.0
    }
}

} // verus!
