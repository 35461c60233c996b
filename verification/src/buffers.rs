//! Byte buffers of the `bytes` crate and big-endian reads of `byteorder`,
//! as the message channel uses them. Each item here calls the outside
//! crate; its contract states what that crate's source shows the call does.

use vstd::prelude::*;

verus! {

#[verifier::external_type_specification]
#[verifier::external_body]
pub struct ExBytes(bytes::Bytes);

#[verifier::external_type_specification]
#[verifier::external_body]
pub struct ExBytesMut(bytes::BytesMut);

/// The bytes a `bytes::Bytes` holds.
pub uninterp spec fn bytes_contents(b: bytes::Bytes) -> Seq<u8>;

/// The bytes a `bytes::BytesMut` holds.
pub uninterp spec fn bytes_mut_contents(b: bytes::BytesMut) -> Seq<u8>;

/// The four bytes of `v`, most significant first.
pub open spec fn be32_bytes(v: u32) -> Seq<u8> {
    seq![(v / 0x100_0000) as u8, (v / 0x1_0000 % 0x100) as u8, (v / 0x100 % 0x100) as u8, (v % 0x100) as u8]
}

/// The value of the first four bytes of `w`, most significant first.
pub open spec fn be32_value(w: Seq<u8>) -> u32 {
    (w[0] as nat * 0x100_0000 + w[1] as nat * 0x1_0000 + w[2] as nat * 0x100 + w[3] as nat) as u32
}

/// A big-endian value reads back from its bytes, whatever follows them.
pub proof fn lemma_be32_roundtrip(v: u32, rest: Seq<u8>)
    ensures
        be32_value(be32_bytes(v) + rest) == v,
{
    let w = be32_bytes(v) + rest;
    assert(w[0] == (v / 0x100_0000) as u8);
    assert(w[1] == (v / 0x1_0000 % 0x100) as u8);
    assert(w[2] == (v / 0x100 % 0x100) as u8);
    assert(w[3] == (v % 0x100) as u8);
}

/// `BytesMut::with_capacity`: an empty buffer.
#[verifier::external_body]
pub(crate) fn bytes_mut_with_capacity(capacity: usize) -> (r: bytes::BytesMut)
    ensures
        bytes_mut_contents(r) == Seq::<u8>::empty(),
{
    bytes::BytesMut::with_capacity(capacity)
}

/// `BytesMut::len`: how many bytes the buffer holds.
#[verifier::external_body]
pub(crate) fn bytes_mut_len(b: &bytes::BytesMut) -> (r: usize)
    ensures
        r == bytes_mut_contents(*b).len(),
{
    b.len()
}

/// The bytes a `BytesMut` holds, as a slice (its `Deref`).
#[verifier::external_body]
pub(crate) fn bytes_mut_as_slice(b: &bytes::BytesMut) -> (r: &[u8])
    ensures
        r@ == bytes_mut_contents(*b),
{
    &b[..]
}

/// `BufMut::put_u32` on a `BytesMut`: appends the four bytes of `v`, most
/// significant first, growing the buffer as needed.
#[verifier::external_body]
pub(crate) fn bytes_mut_put_u32(b: &mut bytes::BytesMut, v: u32)
    requires
        bytes_mut_contents(*old(b)).len() + 4 <= isize::MAX,
    ensures
        bytes_mut_contents(*final(b)) == bytes_mut_contents(*old(b)) + be32_bytes(v),
{
    bytes::BufMut::put_u32(b, v)
}

/// `BytesMut::split`: takes every byte out of the buffer.
#[verifier::external_body]
pub(crate) fn bytes_mut_split(b: &mut bytes::BytesMut) -> (r: bytes::BytesMut)
    ensures
        bytes_mut_contents(r) == bytes_mut_contents(*old(b)),
        bytes_mut_contents(*final(b)) == Seq::<u8>::empty(),
{
    b.split()
}

/// `BytesMut::split_to`: takes the first `at` bytes out of the buffer.
#[verifier::external_body]
pub(crate) fn bytes_mut_split_to(b: &mut bytes::BytesMut, at: usize) -> (r: bytes::BytesMut)
    requires
        at <= bytes_mut_contents(*old(b)).len(),
    ensures
        bytes_mut_contents(r) == bytes_mut_contents(*old(b)).take(at as int),
        bytes_mut_contents(*final(b)) == bytes_mut_contents(*old(b)).skip(at as int),
{
    b.split_to(at)
}

/// `Buf::advance` on a `BytesMut`: drops the first `cnt` bytes.
#[verifier::external_body]
pub(crate) fn bytes_mut_advance(b: &mut bytes::BytesMut, cnt: usize)
    requires
        cnt <= bytes_mut_contents(*old(b)).len(),
    ensures
        bytes_mut_contents(*final(b)) == bytes_mut_contents(*old(b)).skip(cnt as int),
{
    bytes::Buf::advance(b, cnt)
}

/// `BytesMut::freeze`: the same bytes, no longer mutable.
#[verifier::external_body]
pub(crate) fn bytes_mut_freeze(b: bytes::BytesMut) -> (r: bytes::Bytes)
    ensures
        bytes_contents(r) == bytes_mut_contents(b),
{
    b.freeze()
}

/// `Bytes::len`: how many bytes remain.
#[verifier::external_body]
pub(crate) fn bytes_len(b: &bytes::Bytes) -> (r: usize)
    ensures
        r == bytes_contents(*b).len(),
{
    b.len()
}

/// The bytes that remain in a `Bytes`, as a slice (its `Deref`).
#[verifier::external_body]
pub(crate) fn bytes_as_slice(b: &bytes::Bytes) -> (r: &[u8])
    ensures
        r@ == bytes_contents(*b),
{
    &b[..]
}

/// `Buf::advance` on a `Bytes`: drops the first `cnt` bytes.
#[verifier::external_body]
pub(crate) fn bytes_advance(b: &mut bytes::Bytes, cnt: usize)
    requires
        cnt <= bytes_contents(*old(b)).len(),
    ensures
        bytes_contents(*final(b)) == bytes_contents(*old(b)).skip(cnt as int),
{
    bytes::Buf::advance(b, cnt)
}

/// `BigEndian::read_u32`: the first four bytes of `buf`, most significant
/// first.
#[verifier::external_body]
pub(crate) fn read_u32_be(buf: &[u8]) -> (r: u32)
    requires
        buf@.len() >= 4,
    ensures
        r == be32_value(buf@),
{
    <byteorder::BigEndian as byteorder::ByteOrder>::read_u32(buf)
}

} // verus!
