//! The byte layout of a tuple: a fixed header followed by the payload.
//!
//! | bytes  | field    |
//! |--------|----------|
//! | 0..8   | self_id  |
//! | 8..16  | next_id  |
//! | 16..20 | version  |
//! | 20..24 | null_map |
//! | 24..28 | size     |
//! | 28..   | payload, `size` bytes |
//!
//! All integers are big-endian.

use crate::codec::be_u32;
use crate::codec::be_u64;
use crate::codec::buffer_bytes;
use crate::codec::buffer_with_capacity;
use crate::codec::lemma_be_u32_of_bytes;
use crate::codec::lemma_be_u64_of_bytes;
use crate::codec::lemma_bytes_of_be_u32;
use crate::codec::lemma_bytes_of_be_u64;
use crate::codec::put_slice;
use crate::codec::put_u32;
use crate::codec::put_u64;
use crate::codec::take_u32;
use crate::codec::take_u64;
use crate::codec::u32_be;
use crate::codec::u64_be;
use crate::error::Corruption;
use crate::error::HeapError;
use bytes::BytesMut;
use vstd::prelude::*;
use vstd::slice::slice_subrange;

verus! {

/// Length in bytes of an encoded tuple header.
pub const TUPLE_HEADER_SIZE: usize = 28;

/// The fixed part of a tuple.
#[derive(Debug, Clone, Copy, PartialEq, Eq, Structural)]
pub struct TupleHeader {
    /// Address of this tuple.
    pub self_id: u64,
    /// Address of the next version of this tuple; zero ends the chain.
    pub next_id: u64,
    /// Version counter.
    pub version: u32,
    /// Bit `i` is set when field `i` of the tuple is null.
    pub null_map: u32,
    /// Length of the payload in bytes.
    pub size: u32,
}

/// A tuple as the contracts see it: the header and the payload bytes.
pub struct TupleView {
    pub header: TupleHeader,
    pub data: Seq<u8>,
}

/// A tuple whose payload is borrowed from the bytes it was read from.
pub struct Tuple<'a> {
    header: TupleHeader,
    data: &'a [u8],
}

impl TupleHeader {
    /// The 28 bytes of a header.
    pub open spec fn spec_encode(self) -> Seq<u8> {
        u64_be(self.self_id) + u64_be(self.next_id) + u32_be(self.version) + u32_be(self.null_map)
            + u32_be(self.size)
    }

    /// The header that the first 28 bytes of `bytes` spell.
    pub open spec fn spec_decode(bytes: Seq<u8>) -> TupleHeader
        recommends
            bytes.len() >= TUPLE_HEADER_SIZE,
    {
        TupleHeader {
            self_id: be_u64(bytes.subrange(0, 8)),
            next_id: be_u64(bytes.subrange(8, 16)),
            version: be_u32(bytes.subrange(16, 20)),
            null_map: be_u32(bytes.subrange(20, 24)),
            size: be_u32(bytes.subrange(24, 28)),
        }
    }

    /// Reads a header from the front of `data` and returns it with the bytes
    /// that follow it. Fails exactly when `data` is shorter than a header.
    pub fn try_from<'a>(data: &'a [u8]) -> (r: Result<(TupleHeader, &'a [u8]), HeapError>)
        ensures
            data@.len() < TUPLE_HEADER_SIZE <==> r is Err,
            r is Err ==> r->Err_0 == HeapError::Corruption(Corruption::TupleHeader),
            r is Ok ==> r->Ok_0.0 == TupleHeader::spec_decode(data@) && r->Ok_0.1@
                == data@.subrange(TUPLE_HEADER_SIZE as int, data@.len() as int),
    {
        if data.len() < TUPLE_HEADER_SIZE {
            return Err(HeapError::Corruption(Corruption::TupleHeader));
        }
        let (self_id, rest) = take_u64(data);
        let (next_id, rest) = take_u64(rest);
        let (version, rest) = take_u32(rest);
        let (null_map, rest) = take_u32(rest);
        let (size, rest) = take_u32(rest);
        proof {
            let s = data@;
            let n = s.len() as int;
            assert(s.subrange(8, n).subrange(0, 8) =~= s.subrange(8, 16));
            assert(s.subrange(8, n).subrange(8, n - 8) =~= s.subrange(16, n));
            assert(s.subrange(16, n).subrange(0, 4) =~= s.subrange(16, 20));
            assert(s.subrange(16, n).subrange(4, n - 16) =~= s.subrange(20, n));
            assert(s.subrange(20, n).subrange(0, 4) =~= s.subrange(20, 24));
            assert(s.subrange(20, n).subrange(4, n - 20) =~= s.subrange(24, n));
            assert(s.subrange(24, n).subrange(0, 4) =~= s.subrange(24, 28));
            assert(s.subrange(24, n).subrange(4, n - 24) =~= s.subrange(28, n));
        }
        Ok((TupleHeader { self_id, next_id, version, null_map, size }, rest))
    }

    /// Appends the 28 bytes of this header to `out`.
    pub fn encode_into(&self, out: &mut BytesMut)
        requires
            buffer_bytes(*old(out)).len() + TUPLE_HEADER_SIZE <= isize::MAX,
        ensures
            buffer_bytes(*final(out)) == buffer_bytes(*old(out)) + self.spec_encode(),
    {
        let ghost before = buffer_bytes(*out);
        put_u64(out, self.self_id);
        put_u64(out, self.next_id);
        put_u32(out, self.version);
        put_u32(out, self.null_map);
        put_u32(out, self.size);
        assert(buffer_bytes(*out) =~= before + self.spec_encode());
    }

    /// The address of the next version, or `None` at the end of the chain.
    /// Zero is the end mark and never an address.
    pub fn next(&self) -> (next: Option<u64>)
        ensures
            next == if self.next_id == 0 {
                None
            } else {
                Some(self.next_id)
            },
    {
        if self.next_id == 0 {
            None
        } else {
            Some(self.next_id)
        }
    }

    /// Whether field `field` is null: whether bit `field` of the null map is set.
    pub fn is_null(&self, field: u32) -> (null: bool)
        requires
            field < 32,
        ensures
            null == ((self.null_map >> field) & 1 == 1),
    {
        (self.null_map >> field) & 1 == 1
    }

    /// An encoded header has 28 bytes, and reading it back gives the header.
    pub proof fn lemma_decode_encode(self)
        ensures
            self.spec_encode().len() == TUPLE_HEADER_SIZE,
            TupleHeader::spec_decode(self.spec_encode()) == self,
    {
        let s = self.spec_encode();
        lemma_be_u64_of_bytes(self.self_id);
        lemma_be_u64_of_bytes(self.next_id);
        lemma_be_u32_of_bytes(self.version);
        lemma_be_u32_of_bytes(self.null_map);
        lemma_be_u32_of_bytes(self.size);
        assert(s.subrange(0, 8) =~= u64_be(self.self_id));
        assert(s.subrange(8, 16) =~= u64_be(self.next_id));
        assert(s.subrange(16, 20) =~= u32_be(self.version));
        assert(s.subrange(20, 24) =~= u32_be(self.null_map));
        assert(s.subrange(24, 28) =~= u32_be(self.size));
    }

    /// Writing the header read from 28 or more bytes gives the first 28 of them.
    pub proof fn lemma_encode_decode(bytes: Seq<u8>)
        requires
            bytes.len() >= TUPLE_HEADER_SIZE,
        ensures
            TupleHeader::spec_decode(bytes).spec_encode() == bytes.subrange(
                0,
                TUPLE_HEADER_SIZE as int,
            ),
    {
        lemma_bytes_of_be_u64(bytes.subrange(0, 8));
        lemma_bytes_of_be_u64(bytes.subrange(8, 16));
        lemma_bytes_of_be_u32(bytes.subrange(16, 20));
        lemma_bytes_of_be_u32(bytes.subrange(20, 24));
        lemma_bytes_of_be_u32(bytes.subrange(24, 28));
        assert(TupleHeader::spec_decode(bytes).spec_encode() =~= bytes.subrange(0, 28));
    }
}

impl TupleView {
    /// The header declares the length of the payload.
    pub open spec fn wf(self) -> bool {
        self.header.size == self.data.len()
    }

    /// The bytes of a tuple: the header, then the payload.
    pub open spec fn spec_encode(self) -> Seq<u8> {
        self.header.spec_encode() + self.data
    }

    /// What reading a tuple from the front of `bytes` gives: the header, then
    /// as many bytes of payload as the header declares. Bytes after the
    /// payload are left alone.
    pub open spec fn spec_decode(bytes: Seq<u8>) -> Result<TupleView, HeapError> {
        if bytes.len() < TUPLE_HEADER_SIZE {
            Err(HeapError::Corruption(Corruption::TupleHeader))
        } else {
            let header = TupleHeader::spec_decode(bytes);
            if bytes.len() - TUPLE_HEADER_SIZE < header.size {
                Err(HeapError::Corruption(Corruption::TupleBody))
            } else {
                Ok(
                    TupleView {
                        header,
                        data: bytes.subrange(
                            TUPLE_HEADER_SIZE as int,
                            TUPLE_HEADER_SIZE + header.size,
                        ),
                    },
                )
            }
        }
    }

    /// Reading an encoded tuple gives the tuple back.
    pub proof fn lemma_decode_encode(self)
        requires
            self.wf(),
        ensures
            TupleView::spec_decode(self.spec_encode()) == Ok::<TupleView, HeapError>(self),
    {
        let bytes = self.spec_encode();
        self.header.lemma_decode_encode();
        assert(bytes.subrange(0, 8) =~= self.header.spec_encode().subrange(0, 8));
        assert(bytes.subrange(8, 16) =~= self.header.spec_encode().subrange(8, 16));
        assert(bytes.subrange(16, 20) =~= self.header.spec_encode().subrange(16, 20));
        assert(bytes.subrange(20, 24) =~= self.header.spec_encode().subrange(20, 24));
        assert(bytes.subrange(24, 28) =~= self.header.spec_encode().subrange(24, 28));
        assert(bytes.subrange(28, 28 + self.header.size) =~= self.data);
    }

    /// Encoding a tuple that was read from `bytes` gives the bytes it was read
    /// from: the header and the declared payload, without what followed.
    pub proof fn lemma_encode_decode(bytes: Seq<u8>)
        requires
            TupleView::spec_decode(bytes) is Ok,
        ensures
            TupleView::spec_decode(bytes)->Ok_0.wf(),
            TupleView::spec_decode(bytes)->Ok_0.spec_encode() == bytes.subrange(
                0,
                TUPLE_HEADER_SIZE + TupleHeader::spec_decode(bytes).size,
            ),
    {
        TupleHeader::lemma_encode_decode(bytes);
        let t = TupleView::spec_decode(bytes)->Ok_0;
        assert(t.spec_encode() =~= bytes.subrange(0, 28 + t.header.size));
    }

    /// Bytes that declare a longer payload than they carry are refused.
    pub proof fn lemma_short_body(bytes: Seq<u8>)
        requires
            bytes.len() >= TUPLE_HEADER_SIZE,
            bytes.len() - TUPLE_HEADER_SIZE < be_u32(bytes.subrange(24, 28)),
        ensures
            TupleView::spec_decode(bytes) == Err::<TupleView, HeapError>(
                HeapError::Corruption(Corruption::TupleBody),
            ),
    {
    }
}

impl<'a> Tuple<'a> {
    /// The header and the payload of this tuple.
    pub closed spec fn view(&self) -> TupleView {
        TupleView { header: self.header, data: self.data@ }
    }

    /// A tuple with the given header fields and payload.
    pub fn new(self_id: u64, next_id: u64, version: u32, null_map: u32, data: &'a [u8]) -> (t:
        Tuple<'a>)
        requires
            data@.len() <= u32::MAX,
        ensures
            t@.wf(),
            t@.data == data@,
            t@.header == (TupleHeader {
                self_id,
                next_id,
                version,
                null_map,
                size: data@.len() as u32,
            }),
    {
        Tuple { header: TupleHeader { self_id, next_id, version, null_map, size: data.len() as u32 }, data }
    }

    /// Reads a tuple from the front of `data`. Fails when `data` is shorter
    /// than a header, or holds fewer bytes after the header than the header
    /// declares; bytes after the payload are ignored.
    pub fn try_from(data: &'a [u8]) -> (r: Result<Tuple<'a>, HeapError>)
        ensures
            match r {
                Ok(t) => t@.wf() && TupleView::spec_decode(data@) == Ok::<TupleView, HeapError>(t@),
                Err(e) => TupleView::spec_decode(data@) == Err::<TupleView, HeapError>(e),
            },
            data@.len() < TUPLE_HEADER_SIZE ==> r is Err && r->Err_0 == HeapError::Corruption(
                Corruption::TupleHeader,
            ),
            data@.len() >= TUPLE_HEADER_SIZE && data@.len() - TUPLE_HEADER_SIZE < be_u32(
                data@.subrange(24, 28),
            ) ==> r is Err && r->Err_0 == HeapError::Corruption(Corruption::TupleBody),
    {
        match TupleHeader::try_from(data) {
            Err(e) => Err(e),
            Ok((header, rest)) => {
                if rest.len() < header.size as usize {
                    Err(HeapError::Corruption(Corruption::TupleBody))
                } else {
                    let body = slice_subrange(rest, 0, header.size as usize);
                    assert(body@ =~= data@.subrange(
                        TUPLE_HEADER_SIZE as int,
                        TUPLE_HEADER_SIZE + header.size,
                    ));
                    Ok(Tuple { header, data: body })
                }
            },
        }
    }

    /// The bytes of this tuple: the header, then the payload.
    pub fn encode(&self) -> (out: BytesMut)
        requires
            self@.wf(),
            TUPLE_HEADER_SIZE + self@.data.len() <= isize::MAX,
        ensures
            buffer_bytes(out) == self@.spec_encode(),
    {
        let mut out = buffer_with_capacity(TUPLE_HEADER_SIZE + self.data.len());
        self.header.encode_into(&mut out);
        put_slice(&mut out, self.data);
        assert(buffer_bytes(out) =~= self@.spec_encode()) by {
            self.header.lemma_decode_encode();
        }
        out
    }

    /// The header.
    pub fn header(&self) -> (header: TupleHeader)
        ensures
            header == self@.header,
    {
        self.header
    }

    /// The payload.
    pub fn data(&self) -> (data: &'a [u8])
        ensures
            data@ == self@.data,
    {
        self.data
    }
}

} // verus!
