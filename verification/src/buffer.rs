//! The byte buffers that shards travel in, and the big-endian integers written to them.
//!
//! A buffer is a `bytes::BytesMut`. What is stated here of the `bytes` crate is believed, not
//! proved: each item says which function of that crate it speaks of.
//!
//! A function that makes a buffer grow panics where the allocation behind the buffer would have
//! to be larger than `isize::MAX` bytes. The bounds here count the bytes that the buffer holds.
//! What else the allocation covers is left unsaid: bytes that were read already, and spare room,
//! of which the allocator decides how much there is.
use bytes::{Buf, BufMut, BytesMut};
use vstd::prelude::*;

verus! {

/// `bytes::BytesMut`, seen only through [`bytes_of`].
#[verifier::external_type_specification]
#[verifier::external_body]
pub struct ExBytesMut(bytes::BytesMut);

/// The bytes that a buffer holds, from its read position to its end.
pub uninterp spec fn bytes_of(buffer: BytesMut) -> Seq<u8>;

/// The bytes of each buffer of a list.
pub open spec fn bytes_of_each(buffers: Seq<BytesMut>) -> Seq<Seq<u8>> {
    Seq::new(buffers.len(), |i: int| bytes_of(buffers[i]))
}

/// The two bytes of `value`, most significant first.
pub open spec fn u16_bytes(value: u16) -> Seq<u8> {
    seq![(value / 0x100) as u8, (value % 0x100) as u8]
}

/// The four bytes of `value`, most significant first.
pub open spec fn u32_bytes(value: u32) -> Seq<u8> {
    seq![
        (value / 0x100_0000) as u8,
        (value / 0x1_0000 % 0x100) as u8,
        (value / 0x100 % 0x100) as u8,
        (value % 0x100) as u8,
    ]
}

/// The eight bytes of `value` in two's complement, most significant first.
pub open spec fn i64_bytes(value: i64) -> Seq<u8> {
    let unsigned = if value >= 0 {
        value as int
    } else {
        value + 0x1_0000_0000_0000_0000
    };
    u32_bytes((unsigned / 0x1_0000_0000) as u32) + u32_bytes((unsigned % 0x1_0000_0000) as u32)
}

/// The number that the first two bytes spell, most significant first.
pub open spec fn u16_from(bytes: Seq<u8>) -> u16 {
    (bytes[0] * 0x100 + bytes[1]) as u16
}

/// The number that the first four bytes spell, most significant first.
pub open spec fn u32_from(bytes: Seq<u8>) -> u32 {
    (bytes[0] * 0x100_0000 + bytes[1] * 0x1_0000 + bytes[2] * 0x100 + bytes[3]) as u32
}

/// The number that the first eight bytes spell in two's complement, most significant first.
pub open spec fn i64_from(bytes: Seq<u8>) -> i64 {
    let unsigned = u32_from(bytes) * 0x1_0000_0000 + u32_from(bytes.skip(4));
    if unsigned < 0x8000_0000_0000_0000 {
        unsigned as i64
    } else {
        (unsigned - 0x1_0000_0000_0000_0000) as i64
    }
}

/// Two bytes that were written read back as the number that was written.
pub proof fn lemma_u16_reads_back(value: u16, rest: Seq<u8>)
    ensures
        u16_from(u16_bytes(value) + rest) == value,
{
}

/// Four bytes that were written read back as the number that was written.
pub proof fn lemma_u32_reads_back(value: u32, rest: Seq<u8>)
    ensures
        u32_from(u32_bytes(value) + rest) == value,
{
    let bytes = u32_bytes(value);
    assert(bytes[0] == value / 0x100_0000);
}

/// Eight bytes that were written read back as the number that was written.
pub proof fn lemma_i64_reads_back(value: i64, rest: Seq<u8>)
    ensures
        i64_from(i64_bytes(value) + rest) == value,
{
    let unsigned = if value >= 0 {
        value as int
    } else {
        value + 0x1_0000_0000_0000_0000
    };
    let high = (unsigned / 0x1_0000_0000) as u32;
    let low = (unsigned % 0x1_0000_0000) as u32;
    let bytes = i64_bytes(value) + rest;
    assert(bytes =~= u32_bytes(high) + (u32_bytes(low) + rest));
    assert(bytes.skip(4) =~= u32_bytes(low) + rest);
    lemma_u32_reads_back(high, u32_bytes(low) + rest);
    lemma_u32_reads_back(low, rest);
}

/// `BytesMut::new` makes an empty buffer.
pub assume_specification[ BytesMut::new ]() -> (buffer: BytesMut)
    ensures
        bytes_of(buffer) == Seq::<u8>::empty(),
;

/// `BytesMut::with_capacity` makes an empty buffer. It panics on a capacity that no allocation
/// can have.
pub assume_specification[ BytesMut::with_capacity ](capacity: usize) -> (buffer: BytesMut)
    requires
        capacity <= isize::MAX,
    ensures
        bytes_of(buffer) == Seq::<u8>::empty(),
;

/// `BytesMut::len` counts the bytes that the buffer holds.
pub assume_specification[ BytesMut::len ](buffer: &BytesMut) -> (len: usize)
    ensures
        len == bytes_of(*buffer).len(),
;

/// `BytesMut::reserve` makes room and leaves the bytes as they are. It panics where the new
/// length could not be allocated.
pub assume_specification[ BytesMut::reserve ](buffer: &mut BytesMut, additional: usize)
    requires
        bytes_of(*old(buffer)).len() + additional <= isize::MAX,
    ensures
        bytes_of(*final(buffer)) == bytes_of(*old(buffer)),
;

/// `BytesMut::clear` empties the buffer.
pub assume_specification[ BytesMut::clear ](buffer: &mut BytesMut)
    ensures
        bytes_of(*final(buffer)) == Seq::<u8>::empty(),
;

/// `BytesMut::split` moves all the bytes out and leaves the buffer empty.
pub assume_specification[ BytesMut::split ](buffer: &mut BytesMut) -> (taken: BytesMut)
    ensures
        bytes_of(taken) == bytes_of(*old(buffer)),
        bytes_of(*final(buffer)) == Seq::<u8>::empty(),
;

/// `BytesMut::split_to` moves the first `at` bytes out. It panics where there are fewer.
pub assume_specification[ BytesMut::split_to ](buffer: &mut BytesMut, at: usize) -> (taken:
    BytesMut)
    requires
        at <= bytes_of(*old(buffer)).len(),
    ensures
        bytes_of(taken) == bytes_of(*old(buffer)).take(at as int),
        bytes_of(*final(buffer)) == bytes_of(*old(buffer)).skip(at as int),
;

/// `BytesMut::unsplit` appends the bytes of `other`. It panics where the new length could not
/// be allocated.
pub assume_specification[ BytesMut::unsplit ](buffer: &mut BytesMut, other: BytesMut)
    requires
        bytes_of(*old(buffer)).len() + bytes_of(other).len() <= isize::MAX,
    ensures
        bytes_of(*final(buffer)) == bytes_of(*old(buffer)) + bytes_of(other),
;

/// `BytesMut::extend_from_slice` appends `extend`. It panics where the new length could not be
/// allocated.
pub assume_specification[ BytesMut::extend_from_slice ](buffer: &mut BytesMut, extend: &[u8])
    requires
        bytes_of(*old(buffer)).len() + extend@.len() <= isize::MAX,
    ensures
        bytes_of(*final(buffer)) == bytes_of(*old(buffer)) + extend@,
;

/// `<BytesMut as Deref>::deref` shows the bytes of the buffer as a slice.
#[verifier::external_body]
pub(crate) fn as_slice(buffer: &BytesMut) -> (slice: &[u8])
    ensures
        slice@ == bytes_of(*buffer),
{
    &buffer[..]
}

/// `BufMut::put_slice` appends `slice`. It panics where the new length could not be allocated.
#[verifier::external_body]
pub(crate) fn put_slice(buffer: &mut BytesMut, slice: &[u8])
    requires
        bytes_of(*old(buffer)).len() + slice@.len() <= isize::MAX,
    ensures
        bytes_of(*final(buffer)) == bytes_of(*old(buffer)) + slice@,
{
    buffer.put_slice(slice)
}

/// `BufMut::put_u8` appends one byte. It panics where the new length could not be allocated.
#[verifier::external_body]
pub(crate) fn put_u8(buffer: &mut BytesMut, value: u8)
    requires
        bytes_of(*old(buffer)).len() + 1 <= isize::MAX,
    ensures
        bytes_of(*final(buffer)) == bytes_of(*old(buffer)) + seq![value],
{
    buffer.put_u8(value)
}

/// `BufMut::put_u16` appends two bytes, most significant first. It panics where the new length
/// could not be allocated.
#[verifier::external_body]
pub(crate) fn put_u16(buffer: &mut BytesMut, value: u16)
    requires
        bytes_of(*old(buffer)).len() + 2 <= isize::MAX,
    ensures
        bytes_of(*final(buffer)) == bytes_of(*old(buffer)) + u16_bytes(value),
{
    buffer.put_u16(value)
}

/// `BufMut::put_u32` appends four bytes, most significant first. It panics where the new length
/// could not be allocated.
#[verifier::external_body]
pub(crate) fn put_u32(buffer: &mut BytesMut, value: u32)
    requires
        bytes_of(*old(buffer)).len() + 4 <= isize::MAX,
    ensures
        bytes_of(*final(buffer)) == bytes_of(*old(buffer)) + u32_bytes(value),
{
    buffer.put_u32(value)
}

/// `BufMut::put_i64` appends eight bytes in two's complement, most significant first. It panics
/// where the new length could not be allocated.
#[verifier::external_body]
pub(crate) fn put_i64(buffer: &mut BytesMut, value: i64)
    requires
        bytes_of(*old(buffer)).len() + 8 <= isize::MAX,
    ensures
        bytes_of(*final(buffer)) == bytes_of(*old(buffer)) + i64_bytes(value),
{
    buffer.put_i64(value)
}

/// `Buf::get_u8` takes one byte off the front. It panics on an empty buffer.
#[verifier::external_body]
pub(crate) fn get_u8(buffer: &mut BytesMut) -> (value: u8)
    requires
        bytes_of(*old(buffer)).len() >= 1,
    ensures
        value == bytes_of(*old(buffer))[0],
        bytes_of(*final(buffer)) == bytes_of(*old(buffer)).skip(1),
{
    buffer.get_u8()
}

/// `Buf::get_u16` takes two bytes off the front, most significant first. It panics where there
/// are fewer.
#[verifier::external_body]
pub(crate) fn get_u16(buffer: &mut BytesMut) -> (value: u16)
    requires
        bytes_of(*old(buffer)).len() >= 2,
    ensures
        value == u16_from(bytes_of(*old(buffer))),
        bytes_of(*final(buffer)) == bytes_of(*old(buffer)).skip(2),
{
    buffer.get_u16()
}

/// `Buf::get_u32` takes four bytes off the front, most significant first. It panics where there
/// are fewer.
#[verifier::external_body]
pub(crate) fn get_u32(buffer: &mut BytesMut) -> (value: u32)
    requires
        bytes_of(*old(buffer)).len() >= 4,
    ensures
        value == u32_from(bytes_of(*old(buffer))),
        bytes_of(*final(buffer)) == bytes_of(*old(buffer)).skip(4),
{
    buffer.get_u32()
}

/// `Buf::get_i64` takes eight bytes off the front, in two's complement, most significant first.
/// It panics where there are fewer.
#[verifier::external_body]
pub(crate) fn get_i64(buffer: &mut BytesMut) -> (value: i64)
    requires
        bytes_of(*old(buffer)).len() >= 8,
    ensures
        value == i64_from(bytes_of(*old(buffer))),
        bytes_of(*final(buffer)) == bytes_of(*old(buffer)).skip(8),
{
    buffer.get_i64()
}

} // verus!
