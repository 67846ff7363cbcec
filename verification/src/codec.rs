//! Big-endian integers as bytes, and the byte buffers they are read from and
//! written to.
//!
//! Reading and writing is done by the `bytes` crate. The functions in the
//! second half of this file are thin calls into it; their contracts restate
//! its documentation and are taken on trust.

use bytes::Buf;
use bytes::BufMut;
use bytes::BytesMut;
use vstd::prelude::*;

verus! {

/// The value of four bytes read as a big-endian integer.
pub open spec fn be_u32(s: Seq<u8>) -> u32
    recommends
        s.len() == 4,
{
    (s[0] * 0x100_0000 + s[1] * 0x1_0000 + s[2] * 0x100 + s[3]) as u32
}

/// The value of eight bytes read as a big-endian integer.
pub open spec fn be_u64(s: Seq<u8>) -> u64
    recommends
        s.len() == 8,
{
    (be_u32(s.subrange(0, 4)) * 0x1_0000_0000 + be_u32(s.subrange(4, 8))) as u64
}

/// The four bytes of `v`, most significant first.
pub open spec fn u32_be(v: u32) -> Seq<u8> {
    seq![
        (v / 0x100_0000) as u8,
        (v / 0x1_0000 % 0x100) as u8,
        (v / 0x100 % 0x100) as u8,
        (v % 0x100) as u8,
    ]
}

/// The eight bytes of `v`, most significant first.
pub open spec fn u64_be(v: u64) -> Seq<u8> {
    u32_be((v / 0x1_0000_0000) as u32) + u32_be((v % 0x1_0000_0000) as u32)
}

/// `n` zero bytes.
pub open spec fn zeros(n: nat) -> Seq<u8> {
    Seq::new(n, |i: int| 0u8)
}

/// Reading back the bytes of a 32-bit value gives the value.
pub proof fn lemma_be_u32_of_bytes(v: u32)
    ensures
        u32_be(v).len() == 4,
        be_u32(u32_be(v)) == v,
{
}

/// The four base-256 digits of a number are what it was put together from.
proof fn lemma_digits(a: int, b: int, c: int, d: int)
    requires
        0 <= a < 0x100,
        0 <= b < 0x100,
        0 <= c < 0x100,
        0 <= d < 0x100,
    ensures
        0 <= a * 0x100_0000 + b * 0x1_0000 + c * 0x100 + d < 0x1_0000_0000,
        (a * 0x100_0000 + b * 0x1_0000 + c * 0x100 + d) / 0x100_0000 == a,
        (a * 0x100_0000 + b * 0x1_0000 + c * 0x100 + d) / 0x1_0000 % 0x100 == b,
        (a * 0x100_0000 + b * 0x1_0000 + c * 0x100 + d) / 0x100 % 0x100 == c,
        (a * 0x100_0000 + b * 0x1_0000 + c * 0x100 + d) % 0x100 == d,
{
}

/// The two base-2^32 digits of a number are what it was put together from.
proof fn lemma_words(hi: int, lo: int)
    requires
        0 <= hi < 0x1_0000_0000,
        0 <= lo < 0x1_0000_0000,
    ensures
        0 <= hi * 0x1_0000_0000 + lo < 0x1_0000_0000_0000_0000,
        (hi * 0x1_0000_0000 + lo) / 0x1_0000_0000 == hi,
        (hi * 0x1_0000_0000 + lo) % 0x1_0000_0000 == lo,
{
}

/// Writing the value read from four bytes gives the bytes.
pub proof fn lemma_bytes_of_be_u32(s: Seq<u8>)
    requires
        s.len() == 4,
    ensures
        u32_be(be_u32(s)) == s,
{
    lemma_digits(s[0] as int, s[1] as int, s[2] as int, s[3] as int);
    let v = be_u32(s);
    assert(v == s[0] * 0x100_0000 + s[1] * 0x1_0000 + s[2] * 0x100 + s[3]);
    assert(u32_be(v)[0] == s[0]);
    assert(u32_be(v)[1] == s[1]);
    assert(u32_be(v)[2] == s[2]);
    assert(u32_be(v)[3] == s[3]);
    assert(u32_be(v) =~= s);
}

/// Reading back the bytes of a 64-bit value gives the value.
pub proof fn lemma_be_u64_of_bytes(v: u64)
    ensures
        u64_be(v).len() == 8,
        be_u64(u64_be(v)) == v,
{
    let hi = (v / 0x1_0000_0000) as u32;
    let lo = (v % 0x1_0000_0000) as u32;
    lemma_be_u32_of_bytes(hi);
    lemma_be_u32_of_bytes(lo);
    assert(u64_be(v).subrange(0, 4) =~= u32_be(hi));
    assert(u64_be(v).subrange(4, 8) =~= u32_be(lo));
}

/// Writing the value read from eight bytes gives the bytes.
pub proof fn lemma_bytes_of_be_u64(s: Seq<u8>)
    requires
        s.len() == 8,
    ensures
        u64_be(be_u64(s)) == s,
{
    let hi = be_u32(s.subrange(0, 4));
    let lo = be_u32(s.subrange(4, 8));
    lemma_bytes_of_be_u32(s.subrange(0, 4));
    lemma_bytes_of_be_u32(s.subrange(4, 8));
    lemma_words(hi as int, lo as int);
    let v = be_u64(s);
    assert(v == hi * 0x1_0000_0000 + lo);
    assert((v / 0x1_0000_0000) as u32 == hi);
    assert((v % 0x1_0000_0000) as u32 == lo);
    assert(u64_be(v) =~= s.subrange(0, 4) + s.subrange(4, 8));
    assert(s.subrange(0, 4) + s.subrange(4, 8) =~= s);
}

#[verifier::external_type_specification]
#[verifier::external_body]
pub struct ExBytesMut(bytes::BytesMut);

/// The bytes that a buffer holds, first to last.
pub uninterp spec fn buffer_bytes(buffer: BytesMut) -> Seq<u8>;

/// `bytes::Buf::get_u32` on a byte slice: the first four bytes as a
/// big-endian integer, together with the slice advanced past them. The
/// outside function panics on fewer than four bytes.
#[verifier::external_body]
pub(crate) fn take_u32<'a>(buf: &'a [u8]) -> (out: (u32, &'a [u8]))
    requires
        buf@.len() >= 4,
    ensures
        out.0 == be_u32(buf@.subrange(0, 4)),
        out.1@ == buf@.subrange(4, buf@.len() as int),
{
    let mut rest = buf;
    let value = rest.get_u32();
    (value, rest)
}

/// `bytes::Buf::get_u64` on a byte slice: the first eight bytes as a
/// big-endian integer, together with the slice advanced past them. The
/// outside function panics on fewer than eight bytes.
#[verifier::external_body]
pub(crate) fn take_u64<'a>(buf: &'a [u8]) -> (out: (u64, &'a [u8]))
    requires
        buf@.len() >= 8,
    ensures
        out.0 == be_u64(buf@.subrange(0, 8)),
        out.1@ == buf@.subrange(8, buf@.len() as int),
{
    let mut rest = buf;
    let value = rest.get_u64();
    (value, rest)
}

/// `BytesMut::with_capacity`: a buffer that holds no bytes yet.
#[verifier::external_body]
pub(crate) fn buffer_with_capacity(capacity: usize) -> (buffer: BytesMut)
    requires
        capacity <= isize::MAX,
    ensures
        buffer_bytes(buffer) == Seq::<u8>::empty(),
{
    BytesMut::with_capacity(capacity)
}

/// `AsRef<[u8]>::as_ref` of a `BytesMut`: the bytes it holds, as a slice.
#[verifier::external_body]
pub(crate) fn buffer_as_slice<'a>(buffer: &'a BytesMut) -> (bytes: &'a [u8])
    ensures
        bytes@ == buffer_bytes(*buffer),
{
    buffer.as_ref()
}

/// `bytes::BufMut::put_u32` on a `BytesMut`: appends the four bytes of
/// `value`, most significant first. The buffer grows as needed; growing past
/// `isize::MAX` bytes panics.
#[verifier::external_body]
pub(crate) fn put_u32(buffer: &mut BytesMut, value: u32)
    requires
        buffer_bytes(*old(buffer)).len() + 4 <= isize::MAX,
    ensures
        buffer_bytes(*final(buffer)) == buffer_bytes(*old(buffer)) + u32_be(value),
{
    buffer.put_u32(value)
}

/// `bytes::BufMut::put_u64` on a `BytesMut`: appends the eight bytes of
/// `value`, most significant first. The buffer grows as needed; growing past
/// `isize::MAX` bytes panics.
#[verifier::external_body]
pub(crate) fn put_u64(buffer: &mut BytesMut, value: u64)
    requires
        buffer_bytes(*old(buffer)).len() + 8 <= isize::MAX,
    ensures
        buffer_bytes(*final(buffer)) == buffer_bytes(*old(buffer)) + u64_be(value),
{
    buffer.put_u64(value)
}

/// `bytes::BufMut::put_slice` on a `BytesMut`: appends the bytes of `src`.
/// The buffer grows as needed; growing past `isize::MAX` bytes panics.
#[verifier::external_body]
pub(crate) fn put_slice(buffer: &mut BytesMut, src: &[u8])
    requires
        buffer_bytes(*old(buffer)).len() + src@.len() <= isize::MAX,
    ensures
        buffer_bytes(*final(buffer)) == buffer_bytes(*old(buffer)) + src@,
{
    buffer.put_slice(src)
}

/// `bytes::BufMut::put_bytes` on a `BytesMut`: appends `count` copies of
/// `value`. The buffer grows as needed; growing past `isize::MAX` bytes
/// panics.
#[verifier::external_body]
pub(crate) fn put_bytes(buffer: &mut BytesMut, value: u8, count: usize)
    requires
        buffer_bytes(*old(buffer)).len() + count <= isize::MAX,
    ensures
        buffer_bytes(*final(buffer)) == buffer_bytes(*old(buffer)) + Seq::new(
            count as nat,
            |i: int| value,
        ),
{
    buffer.put_bytes(value, count)
}

/// `bytes::Buf::advance` on a `BytesMut`: drops the first `count` bytes. The
/// outside function panics when the buffer holds fewer.
#[verifier::external_body]
pub(crate) fn buffer_advance(buffer: &mut BytesMut, count: usize)
    requires
        count <= buffer_bytes(*old(buffer)).len(),
    ensures
        buffer_bytes(*final(buffer)) == buffer_bytes(*old(buffer)).subrange(
            count as int,
            buffer_bytes(*old(buffer)).len() as int,
        ),
{
    buffer.advance(count)
}

/// `BytesMut::truncate`: keeps the first `len` bytes and drops the rest; a
/// buffer that holds no more than `len` bytes is left as it is.
#[verifier::external_body]
pub(crate) fn buffer_truncate(buffer: &mut BytesMut, len: usize)
    ensures
        buffer_bytes(*final(buffer)) == if len <= buffer_bytes(*old(buffer)).len() {
            buffer_bytes(*old(buffer)).subrange(0, len as int)
        } else {
            buffer_bytes(*old(buffer))
        },
{
    buffer.truncate(len)
}

} // verus!
