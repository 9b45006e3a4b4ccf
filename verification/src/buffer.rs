//! The byte buffers of the `bytes` crate, as Verus is told to see them.
//!
//! Nothing in this file is proved. Each function below makes one call into
//! `bytes` (or, for the last one, into `std`) or stands for one, and its
//! contract states what the documentation of that call promises. The encoder and the decoder are
//! verified against these contracts.
use crate::wire::{be_bytes, be_signed, be_unsigned};
use bytes::{Buf, BufMut, Bytes, BytesMut};
use vstd::prelude::*;
use vstd::utf8::{decode_utf8, valid_utf8};

verus! {

/// `bytes::BytesMut`, a growable byte buffer.
#[verifier::external_type_specification]
#[verifier::external_body]
pub struct ExBytesMut(BytesMut);

/// `bytes::Bytes`, an immutable, cheaply cloned byte buffer.
#[verifier::external_type_specification]
#[verifier::external_body]
pub struct ExBytes(Bytes);

/// The bytes that a `BytesMut` holds, first to last.
pub uninterp spec fn bytes_mut_contents(b: BytesMut) -> Seq<u8>;

/// The bytes that a `Bytes` holds, first to last.
pub uninterp spec fn bytes_contents(b: Bytes) -> Seq<u8>;

/// The text that `String::from_utf8_lossy` makes of bytes that are not valid
/// UTF-8: each invalid sequence becomes the replacement character.
pub uninterp spec fn utf8_lossy(bytes: Seq<u8>) -> Seq<char>;

/// The text that `String::from_utf8_lossy` makes of any bytes: valid UTF-8 is
/// decoded as it stands, anything else goes through `utf8_lossy`.
pub open spec fn lossy_text(bytes: Seq<u8>) -> Seq<char> {
    if valid_utf8(bytes) {
        decode_utf8(bytes)
    } else {
        utf8_lossy(bytes)
    }
}

/// Whether a buffer that holds `held` bytes can take `more` bytes: a `BytesMut`
/// holds at most `isize::MAX` bytes.
pub open spec fn has_room(held: nat, more: int) -> bool {
    held + more <= isize::MAX
}

/// `BytesMut::new`: a buffer that holds no bytes.
#[verifier::external_body]
pub(crate) fn bytes_mut_new() -> (b: BytesMut)
    ensures
        bytes_mut_contents(b) == Seq::<u8>::empty(),
{
    BytesMut::new()
}

/// `BytesMut::len`: the number of bytes held.
#[verifier::external_body]
pub(crate) fn bytes_mut_len(b: &BytesMut) -> (n: usize)
    ensures
        n == bytes_mut_contents(*b).len(),
{
    b.len()
}

/// `BufMut::remaining_mut` of a `BytesMut`: how many more bytes it can take,
/// which is `isize::MAX` less the bytes held.
#[verifier::external_body]
pub(crate) fn bytes_mut_remaining_mut(b: &BytesMut) -> (n: usize)
    ensures
        n == isize::MAX - bytes_mut_contents(*b).len(),
{
    b.remaining_mut()
}

/// `BytesMut::reserve`: makes room for `additional` more bytes. The bytes held
/// do not change. It panics where the new capacity overflows, which the
/// precondition excludes.
#[verifier::external_body]
pub(crate) fn bytes_mut_reserve(b: &mut BytesMut, additional: usize)
    requires
        has_room(bytes_mut_contents(*old(b)).len(), additional as int),
    ensures
        bytes_mut_contents(*final(b)) == bytes_mut_contents(*old(b)),
{
    b.reserve(additional)
}

/// `BufMut::put_u8`: appends one byte. It panics without remaining capacity,
/// which the precondition excludes.
#[verifier::external_body]
pub(crate) fn bytes_mut_put_u8(b: &mut BytesMut, n: u8)
    requires
        has_room(bytes_mut_contents(*old(b)).len(), 1),
    ensures
        bytes_mut_contents(*final(b)) == bytes_mut_contents(*old(b)) + be_bytes(n as int, 1),
{
    b.put_u8(n)
}

/// `BufMut::put_i8`: appends one byte, the number in two's complement.
#[verifier::external_body]
pub(crate) fn bytes_mut_put_i8(b: &mut BytesMut, n: i8)
    requires
        has_room(bytes_mut_contents(*old(b)).len(), 1),
    ensures
        bytes_mut_contents(*final(b)) == bytes_mut_contents(*old(b)) + be_bytes(n as int, 1),
{
    b.put_i8(n)
}

/// `BufMut::put_u16`: appends the number as two bytes in big-endian order.
#[verifier::external_body]
pub(crate) fn bytes_mut_put_u16(b: &mut BytesMut, n: u16)
    requires
        has_room(bytes_mut_contents(*old(b)).len(), 2),
    ensures
        bytes_mut_contents(*final(b)) == bytes_mut_contents(*old(b)) + be_bytes(n as int, 2),
{
    b.put_u16(n)
}

/// `BufMut::put_i16`: appends the number as two bytes in big-endian order, in
/// two's complement.
#[verifier::external_body]
pub(crate) fn bytes_mut_put_i16(b: &mut BytesMut, n: i16)
    requires
        has_room(bytes_mut_contents(*old(b)).len(), 2),
    ensures
        bytes_mut_contents(*final(b)) == bytes_mut_contents(*old(b)) + be_bytes(n as int, 2),
{
    b.put_i16(n)
}

/// `BufMut::put_u32`: appends the number as four bytes in big-endian order.
#[verifier::external_body]
pub(crate) fn bytes_mut_put_u32(b: &mut BytesMut, n: u32)
    requires
        has_room(bytes_mut_contents(*old(b)).len(), 4),
    ensures
        bytes_mut_contents(*final(b)) == bytes_mut_contents(*old(b)) + be_bytes(n as int, 4),
{
    b.put_u32(n)
}

/// `BufMut::put_i32`: appends the number as four bytes in big-endian order, in
/// two's complement.
#[verifier::external_body]
pub(crate) fn bytes_mut_put_i32(b: &mut BytesMut, n: i32)
    requires
        has_room(bytes_mut_contents(*old(b)).len(), 4),
    ensures
        bytes_mut_contents(*final(b)) == bytes_mut_contents(*old(b)) + be_bytes(n as int, 4),
{
    b.put_i32(n)
}

/// `BufMut::put_u64`: appends the number as eight bytes in big-endian order.
#[verifier::external_body]
pub(crate) fn bytes_mut_put_u64(b: &mut BytesMut, n: u64)
    requires
        has_room(bytes_mut_contents(*old(b)).len(), 8),
    ensures
        bytes_mut_contents(*final(b)) == bytes_mut_contents(*old(b)) + be_bytes(n as int, 8),
{
    b.put_u64(n)
}

/// `BufMut::put_i64`: appends the number as eight bytes in big-endian order,
/// in two's complement.
#[verifier::external_body]
pub(crate) fn bytes_mut_put_i64(b: &mut BytesMut, n: i64)
    requires
        has_room(bytes_mut_contents(*old(b)).len(), 8),
    ensures
        bytes_mut_contents(*final(b)) == bytes_mut_contents(*old(b)) + be_bytes(n as int, 8),
{
    b.put_i64(n)
}

/// `BufMut::put_slice`: appends the bytes of `src`.
#[verifier::external_body]
pub(crate) fn bytes_mut_put_slice(b: &mut BytesMut, src: &[u8])
    requires
        has_room(bytes_mut_contents(*old(b)).len(), src@.len() as int),
    ensures
        bytes_mut_contents(*final(b)) == bytes_mut_contents(*old(b)) + src@,
{
    b.put_slice(src)
}

/// `BytesMut::extend_from_slice`: appends the bytes of `extend`, growing the
/// buffer first where it must.
#[verifier::external_body]
pub(crate) fn bytes_mut_extend_from_slice(b: &mut BytesMut, extend: &[u8])
    requires
        has_room(bytes_mut_contents(*old(b)).len(), extend@.len() as int),
    ensures
        bytes_mut_contents(*final(b)) == bytes_mut_contents(*old(b)) + extend@,
{
    b.extend_from_slice(extend)
}

/// `BytesMut::unsplit`: appends the bytes of `other`.
#[verifier::external_body]
pub(crate) fn bytes_mut_unsplit(b: &mut BytesMut, other: BytesMut)
    requires
        has_room(bytes_mut_contents(*old(b)).len(), bytes_mut_contents(other).len() as int),
    ensures
        bytes_mut_contents(*final(b)) == bytes_mut_contents(*old(b)) + bytes_mut_contents(other),
{
    b.unsplit(other)
}

/// `BytesMut::freeze`: the same bytes, now immutable.
#[verifier::external_body]
pub(crate) fn bytes_mut_freeze(b: BytesMut) -> (frozen: Bytes)
    ensures
        bytes_contents(frozen) == bytes_mut_contents(b),
{
    b.freeze()
}

/// `Bytes::new`: a buffer that holds no bytes.
#[verifier::external_body]
pub(crate) fn bytes_new() -> (b: Bytes)
    ensures
        bytes_contents(b) == Seq::<u8>::empty(),
{
    Bytes::new()
}

/// `Bytes::from` on a `Vec<u8>`: a buffer that holds the bytes of the vector.
#[verifier::external_body]
pub(crate) fn bytes_from_vec(v: Vec<u8>) -> (b: Bytes)
    ensures
        bytes_contents(b) == v@,
{
    Bytes::from(v)
}

/// `Bytes::copy_from_slice`: a buffer that holds a copy of the bytes of `data`.
#[verifier::external_body]
pub(crate) fn bytes_copy_from_slice(data: &[u8]) -> (b: Bytes)
    ensures
        bytes_contents(b) == data@,
{
    Bytes::copy_from_slice(data)
}

/// `Bytes::clone`: a second handle on the same bytes.
pub assume_specification[ <Bytes as Clone>::clone ](b: &Bytes) -> (c: Bytes)
    ensures
        bytes_contents(c) == bytes_contents(*b),
;

/// `BytesMut::clone`: a buffer that holds a copy of the same bytes.
pub assume_specification[ <BytesMut as Clone>::clone ](b: &BytesMut) -> (c: BytesMut)
    ensures
        bytes_mut_contents(c) == bytes_mut_contents(*b),
;

/// `Bytes::len`: the number of bytes held.
#[verifier::external_body]
pub(crate) fn bytes_len(b: &Bytes) -> (n: usize)
    ensures
        n == bytes_contents(*b).len(),
{
    b.len()
}

/// `Bytes::slice` on the range `begin..end`: a handle on that part of the
/// bytes. It panics unless `begin <= end <= len`, which the precondition asks.
#[verifier::external_body]
pub(crate) fn bytes_slice(b: &Bytes, begin: usize, end: usize) -> (part: Bytes)
    requires
        begin <= end <= bytes_contents(*b).len(),
    ensures
        bytes_contents(part) == bytes_contents(*b).subrange(begin as int, end as int),
{
    b.slice(begin..end)
}

/// `Bytes::as_ref`: the bytes held, as a slice.
#[verifier::external_body]
pub(crate) fn bytes_as_slice(b: &Bytes) -> (s: &[u8])
    ensures
        s@ == bytes_contents(*b),
{
    b.as_ref()
}

/// `Buf::get_u8` of a `Bytes`: takes the first byte off the buffer. It panics
/// on an empty buffer, which the precondition excludes.
#[verifier::external_body]
pub(crate) fn bytes_get_u8(b: &mut Bytes) -> (n: u8)
    requires
        bytes_contents(*old(b)).len() >= 1,
    ensures
        n == be_unsigned(bytes_contents(*old(b)).take(1)),
        bytes_contents(*final(b)) == bytes_contents(*old(b)).skip(1),
{
    b.get_u8()
}

/// `Buf::get_i8` of a `Bytes`: takes the first byte off the buffer and reads
/// it in two's complement.
#[verifier::external_body]
pub(crate) fn bytes_get_i8(b: &mut Bytes) -> (n: i8)
    requires
        bytes_contents(*old(b)).len() >= 1,
    ensures
        n == be_signed(bytes_contents(*old(b)).take(1)),
        bytes_contents(*final(b)) == bytes_contents(*old(b)).skip(1),
{
    b.get_i8()
}

/// `Buf::get_u16` of a `Bytes`: takes the first two bytes off the buffer and
/// reads them in big-endian order.
#[verifier::external_body]
pub(crate) fn bytes_get_u16(b: &mut Bytes) -> (n: u16)
    requires
        bytes_contents(*old(b)).len() >= 2,
    ensures
        n == be_unsigned(bytes_contents(*old(b)).take(2)),
        bytes_contents(*final(b)) == bytes_contents(*old(b)).skip(2),
{
    b.get_u16()
}

/// `Buf::get_i16` of a `Bytes`: takes the first two bytes off the buffer and
/// reads them in big-endian order, in two's complement.
#[verifier::external_body]
pub(crate) fn bytes_get_i16(b: &mut Bytes) -> (n: i16)
    requires
        bytes_contents(*old(b)).len() >= 2,
    ensures
        n == be_signed(bytes_contents(*old(b)).take(2)),
        bytes_contents(*final(b)) == bytes_contents(*old(b)).skip(2),
{
    b.get_i16()
}

/// `Buf::get_u32` of a `Bytes`: takes the first four bytes off the buffer and
/// reads them in big-endian order.
#[verifier::external_body]
pub(crate) fn bytes_get_u32(b: &mut Bytes) -> (n: u32)
    requires
        bytes_contents(*old(b)).len() >= 4,
    ensures
        n == be_unsigned(bytes_contents(*old(b)).take(4)),
        bytes_contents(*final(b)) == bytes_contents(*old(b)).skip(4),
{
    b.get_u32()
}

/// `Buf::get_i32` of a `Bytes`: takes the first four bytes off the buffer and
/// reads them in big-endian order, in two's complement.
#[verifier::external_body]
pub(crate) fn bytes_get_i32(b: &mut Bytes) -> (n: i32)
    requires
        bytes_contents(*old(b)).len() >= 4,
    ensures
        n == be_signed(bytes_contents(*old(b)).take(4)),
        bytes_contents(*final(b)) == bytes_contents(*old(b)).skip(4),
{
    b.get_i32()
}

/// `Buf::get_u64` of a `Bytes`: takes the first eight bytes off the buffer and
/// reads them in big-endian order.
#[verifier::external_body]
pub(crate) fn bytes_get_u64(b: &mut Bytes) -> (n: u64)
    requires
        bytes_contents(*old(b)).len() >= 8,
    ensures
        n == be_unsigned(bytes_contents(*old(b)).take(8)),
        bytes_contents(*final(b)) == bytes_contents(*old(b)).skip(8),
{
    b.get_u64()
}

/// `Buf::get_i64` of a `Bytes`: takes the first eight bytes off the buffer and
/// reads them in big-endian order, in two's complement.
#[verifier::external_body]
pub(crate) fn bytes_get_i64(b: &mut Bytes) -> (n: i64)
    requires
        bytes_contents(*old(b)).len() >= 8,
    ensures
        n == be_signed(bytes_contents(*old(b)).take(8)),
        bytes_contents(*final(b)) == bytes_contents(*old(b)).skip(8),
{
    b.get_i64()
}

/// `String::from_utf8_lossy`: the text of the bytes. Valid UTF-8 comes back as
/// the text that it encodes; of other input only the name of the result is
/// stated.
#[verifier::external_body]
pub(crate) fn string_from_utf8_lossy(bytes: &[u8]) -> (s: String)
    ensures
        s@ == (if valid_utf8(bytes@) {
            decode_utf8(bytes@)
        } else {
            utf8_lossy(bytes@)
        }),
{
    String::from_utf8_lossy(bytes).into_owned()
}

} // verus!
