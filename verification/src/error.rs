//! The errors that the heap reports to its callers.

use vstd::prelude::*;

verus! {

/// Where a byte image stopped making sense.
#[derive(Debug, Clone, Copy, PartialEq, Eq, Structural)]
pub enum Corruption {
    /// Fewer bytes than a tuple header takes.
    TupleHeader,
    /// Fewer bytes after the tuple header than the header declares.
    TupleBody,
    /// Fewer bytes than a page header takes.
    PageHeader,
    /// Fewer bytes after the page header than the declared slot records take.
    TupleSlot,
    /// The used size in the page header is more than a page.
    PageSize,
    /// A slot points outside the payload.
    SlotOffset,
    /// Two slots carry the same tuple identifier.
    DuplicateTuple,
}

/// Failure of a heap operation. Each one ends the operation that met it;
/// nothing is retried or repaired.
#[derive(Debug, Clone, Copy, PartialEq, Eq, Structural)]
pub enum HeapError {
    /// A byte image is too short or inconsistent.
    Corruption(Corruption),
    /// The page has no room for the tuple and its slot record.
    PageFull,
    /// The page directory has no entry for the page.
    PageNotFound,
    /// The page has no slot for the tuple.
    TupleNotFound,
}

impl Corruption {
    /// A short description of the damaged part.
    pub fn message(&self) -> (text: &'static str)
        ensures
            text@ == self.spec_message(),
    {
        match self {
            Corruption::TupleHeader => "data corruption: tuple header",
            Corruption::TupleBody => "data corruption: tuple body",
            Corruption::PageHeader => "data corruption: page header",
            Corruption::TupleSlot => "data corruption: tuple slot",
            Corruption::PageSize => "data corruption: page size",
            Corruption::SlotOffset => "data corruption: slot offset",
            Corruption::DuplicateTuple => "data corruption: duplicate tuple",
        }
    }

    /// The text that [`Corruption::message`] returns.
    pub open spec fn spec_message(&self) -> Seq<char> {
        match self {
            Corruption::TupleHeader => "data corruption: tuple header"@,
            Corruption::TupleBody => "data corruption: tuple body"@,
            Corruption::PageHeader => "data corruption: page header"@,
            Corruption::TupleSlot => "data corruption: tuple slot"@,
            Corruption::PageSize => "data corruption: page size"@,
            Corruption::SlotOffset => "data corruption: slot offset"@,
            Corruption::DuplicateTuple => "data corruption: duplicate tuple"@,
        }
    }
}

impl HeapError {
    /// A short description of the failure.
    pub fn message(&self) -> (text: &'static str)
        ensures
            text@ == self.spec_message(),
    {
        match self {
            HeapError::Corruption(part) => part.message(),
            HeapError::PageFull => "page full",
            HeapError::PageNotFound => "page not found",
            HeapError::TupleNotFound => "tuple not found",
        }
    }

    /// The text that [`HeapError::message`] returns.
    pub open spec fn spec_message(&self) -> Seq<char> {
        match self {
            HeapError::Corruption(part) => part.spec_message(),
            HeapError::PageFull => "page full"@,
            HeapError::PageNotFound => "page not found"@,
            HeapError::TupleNotFound => "tuple not found"@,
        }
    }
}

} // verus!
