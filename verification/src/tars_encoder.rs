//! The encoder: appends typed values, each as one field, to a growing buffer.
use crate::buffer::{
    bytes_as_slice, bytes_contents, bytes_mut_contents, bytes_mut_extend_from_slice,
    bytes_mut_freeze, bytes_mut_len, bytes_mut_new, bytes_mut_put_i16, bytes_mut_put_i32,
    bytes_mut_put_i64, bytes_mut_put_i8, bytes_mut_put_slice, bytes_mut_put_u16,
    bytes_mut_put_u32, bytes_mut_put_u64, bytes_mut_put_u8, bytes_mut_remaining_mut,
    bytes_mut_reserve, bytes_mut_unsplit, has_room,
};
use crate::errors::EncodeErr;
use crate::tars_map::TarsMap;
use crate::tars_type::{TarsDouble, TarsFloat, TarsTypeMark};
use crate::wire::{
    appended, be_bytes, blob_field, bool_byte, bool_field, double_field, float_field, head_bytes,
    i8_byte, int_field, lemma_be_bytes_len, max_len, region_field, string_field, struct_field,
    uint_field,
};
use bytes::{Bytes, BytesMut};
use vstd::prelude::*;
use vstd::utf8::encode_utf8;

verus! {

/// The encoder of one message. It owns the output buffer; every write appends
/// one field to it.
#[derive(Debug, Clone, PartialEq, Eq, PartialOrd, Ord)]
pub struct TarsEncoder {
    buf: BytesMut,
}

impl View for TarsEncoder {
    type V = Seq<u8>;

    /// The bytes written so far.
    closed spec fn view(&self) -> Seq<u8> {
        bytes_mut_contents(self.buf)
    }
}

/// The number of bytes of a header with the given tag.
pub open spec fn head_len(tag: u8) -> int {
    if tag < 15 {
        1
    } else {
        2
    }
}

/// What a write of `len` bytes to a buffer that holds `held` bytes gives: `Ok`
/// where the bytes fit, `BufferTooBigErr` where they do not.
pub open spec fn room_outcome(held: nat, len: nat) -> Result<(), EncodeErr> {
    if has_room(held, len as int) {
        Ok(())
    } else {
        Err(EncodeErr::BufferTooBigErr)
    }
}

impl TarsEncoder {
    /// An encoder that has written nothing.
    pub fn new() -> (encoder: Self)
        ensures
            encoder@ == Seq::<u8>::empty(),
    {
        TarsEncoder { buf: bytes_mut_new() }
    }

    /// The number of bytes written so far.
    pub fn len(&self) -> (n: usize)
        ensures
            n == self@.len(),
    {
        bytes_mut_len(&self.buf)
    }

    /// Hands out the bytes written, as an immutable buffer.
    pub fn to_bytes(self) -> (bytes: Bytes)
        ensures
            bytes_contents(bytes) == self@,
    {
        bytes_mut_freeze(self.buf)
    }

    /// Hands out the bytes written, as the buffer they were written to.
    pub fn to_bytes_mut(self) -> (bytes: BytesMut)
        ensures
            bytes_mut_contents(bytes) == self@,
    {
        self.buf
    }

    /// Appends everything that `another` has written.
    pub fn unsplit(&mut self, another: TarsEncoder)
        requires
            has_room(old(self)@.len(), another@.len() as int),
        ensures
            final(self)@ == old(self)@ + another@,
    {
        bytes_mut_unsplit(&mut self.buf, another.to_bytes_mut());
    }

    /// Reserves room for `len` more bytes, where the buffer can grow that far.
    /// Only what the buffer has allocated changes: the bytes written stay.
    pub fn check_maybe_resize(&mut self, len: usize)
        ensures
            final(self)@ == old(self)@,
    {
        if len <= bytes_mut_remaining_mut(&self.buf) {
            bytes_mut_reserve(&mut self.buf, len);
        }
    }

    /// Whether the buffer can take `len` more bytes.
    fn has_room_for(&self, len: usize) -> (b: bool)
        ensures
            b == has_room(self@.len(), len as int),
    {
        len <= bytes_mut_remaining_mut(&self.buf)
    }

    /// Writes the header of a field.
    fn put_head(&mut self, tag: u8, tars_type: TarsTypeMark)
        requires
            has_room(old(self)@.len(), head_len(tag)),
        ensures
            final(self)@ == old(self)@ + head_bytes(tag, tars_type),
            head_bytes(tag, tars_type).len() == head_len(tag),
    {
        let mark = tars_type.value();
        if tag < 15 {
            let head: u8 = tag * 16 + mark;
            bytes_mut_put_u8(&mut self.buf, head);
            proof {
                reveal_with_fuel(be_bytes, 2);
                assert(be_bytes(head as int, 1) =~= head_bytes(tag, tars_type));
            }
        } else {
            let first: u16 = 240 + mark as u16;
            let head: u16 = first * 256 + tag as u16;
            bytes_mut_put_u16(&mut self.buf, head);
            proof {
                reveal_with_fuel(be_bytes, 3);
                assert(be_bytes(head as int, 2) =~= head_bytes(tag, tars_type));
            }
        }
    }

    /// Writes a field without payload: the header alone.
    fn put_zero(&mut self, tag: u8) -> (r: Result<(), EncodeErr>)
        ensures
            appended(old(self)@, head_bytes(tag, TarsTypeMark::EnZero), final(self)@, r),
    {
        let need: usize = if tag < 15 { 1 } else { 2 };
        if !self.has_room_for(need) {
            return Err(EncodeErr::BufferTooBigErr);
        }
        self.check_maybe_resize(need);
        self.put_head(tag, TarsTypeMark::EnZero);
        Ok(())
    }

    /// Writes a signed 8-bit number as one field.
    fn put_int8(&mut self, tag: u8, v: i8) -> (r: Result<(), EncodeErr>)
        ensures
            appended(old(self)@, int_field(tag, v as int), final(self)@, r),
    {
        if v == 0 {
            proof {
                assert(int_field(tag, 0) =~= head_bytes(tag, TarsTypeMark::EnZero));
            }
            self.put_zero(tag)
        } else {
            let need: usize = if tag < 15 { 2 } else { 3 };
            proof {
                lemma_be_bytes_len(v as int, 1);
            }
            if !self.has_room_for(need) {
                return Err(EncodeErr::BufferTooBigErr);
            }
            self.check_maybe_resize(need);
            self.put_head(tag, TarsTypeMark::EnInt8);
            bytes_mut_put_i8(&mut self.buf, v);
            proof {
                assert(self@ =~= old(self)@ + int_field(tag, v as int));
            }
            Ok(())
        }
    }

    /// Writes a signed 16-bit number as one field, narrowed where it fits 8 bits.
    fn put_int16(&mut self, tag: u8, v: i16) -> (r: Result<(), EncodeErr>)
        ensures
            appended(old(self)@, int_field(tag, v as int), final(self)@, r),
    {
        if v >= -0x80 && v <= 0x7f {
            self.put_int8(tag, v as i8)
        } else {
            let need: usize = if tag < 15 { 3 } else { 4 };
            proof {
                lemma_be_bytes_len(v as int, 2);
            }
            if !self.has_room_for(need) {
                return Err(EncodeErr::BufferTooBigErr);
            }
            self.check_maybe_resize(need);
            self.put_head(tag, TarsTypeMark::EnInt16);
            bytes_mut_put_i16(&mut self.buf, v);
            proof {
                assert(self@ =~= old(self)@ + int_field(tag, v as int));
            }
            Ok(())
        }
    }

    /// Writes a signed 32-bit number as one field, narrowed where it fits 16 bits.
    fn put_int32(&mut self, tag: u8, v: i32) -> (r: Result<(), EncodeErr>)
        ensures
            appended(old(self)@, int_field(tag, v as int), final(self)@, r),
    {
        if v >= -0x8000 && v <= 0x7fff {
            self.put_int16(tag, v as i16)
        } else {
            let need: usize = if tag < 15 { 5 } else { 6 };
            proof {
                lemma_be_bytes_len(v as int, 4);
            }
            if !self.has_room_for(need) {
                return Err(EncodeErr::BufferTooBigErr);
            }
            self.check_maybe_resize(need);
            self.put_head(tag, TarsTypeMark::EnInt32);
            bytes_mut_put_i32(&mut self.buf, v);
            proof {
                assert(self@ =~= old(self)@ + int_field(tag, v as int));
            }
            Ok(())
        }
    }

    /// Writes a signed 64-bit number as one field, narrowed where it fits 32 bits.
    fn put_int64(&mut self, tag: u8, v: i64) -> (r: Result<(), EncodeErr>)
        ensures
            appended(old(self)@, int_field(tag, v as int), final(self)@, r),
    {
        if v >= -0x8000_0000 && v <= 0x7fff_ffff {
            self.put_int32(tag, v as i32)
        } else {
            let need: usize = if tag < 15 { 9 } else { 10 };
            proof {
                lemma_be_bytes_len(v as int, 8);
            }
            if !self.has_room_for(need) {
                return Err(EncodeErr::BufferTooBigErr);
            }
            self.check_maybe_resize(need);
            self.put_head(tag, TarsTypeMark::EnInt64);
            bytes_mut_put_i64(&mut self.buf, v);
            proof {
                assert(self@ =~= old(self)@ + int_field(tag, v as int));
            }
            Ok(())
        }
    }

    /// Writes an unsigned 8-bit number as one field.
    fn put_uint8(&mut self, tag: u8, v: u8) -> (r: Result<(), EncodeErr>)
        ensures
            appended(old(self)@, uint_field(tag, v as int), final(self)@, r),
    {
        if v == 0 {
            proof {
                assert(uint_field(tag, 0) =~= head_bytes(tag, TarsTypeMark::EnZero));
            }
            self.put_zero(tag)
        } else {
            let need: usize = if tag < 15 { 2 } else { 3 };
            proof {
                lemma_be_bytes_len(v as int, 1);
            }
            if !self.has_room_for(need) {
                return Err(EncodeErr::BufferTooBigErr);
            }
            self.check_maybe_resize(need);
            self.put_head(tag, TarsTypeMark::EnInt8);
            bytes_mut_put_u8(&mut self.buf, v);
            proof {
                assert(self@ =~= old(self)@ + uint_field(tag, v as int));
            }
            Ok(())
        }
    }

    /// Writes an unsigned 16-bit number as one field, narrowed where it fits 8 bits.
    fn put_uint16(&mut self, tag: u8, v: u16) -> (r: Result<(), EncodeErr>)
        ensures
            appended(old(self)@, uint_field(tag, v as int), final(self)@, r),
    {
        if v <= 0xff {
            self.put_uint8(tag, v as u8)
        } else {
            let need: usize = if tag < 15 { 3 } else { 4 };
            proof {
                lemma_be_bytes_len(v as int, 2);
            }
            if !self.has_room_for(need) {
                return Err(EncodeErr::BufferTooBigErr);
            }
            self.check_maybe_resize(need);
            self.put_head(tag, TarsTypeMark::EnInt16);
            bytes_mut_put_u16(&mut self.buf, v);
            proof {
                assert(self@ =~= old(self)@ + uint_field(tag, v as int));
            }
            Ok(())
        }
    }

    /// Writes an unsigned 32-bit number as one field, narrowed where it fits 16 bits.
    fn put_uint32(&mut self, tag: u8, v: u32) -> (r: Result<(), EncodeErr>)
        ensures
            appended(old(self)@, uint_field(tag, v as int), final(self)@, r),
    {
        if v <= 0xffff {
            self.put_uint16(tag, v as u16)
        } else {
            let need: usize = if tag < 15 { 5 } else { 6 };
            proof {
                lemma_be_bytes_len(v as int, 4);
            }
            if !self.has_room_for(need) {
                return Err(EncodeErr::BufferTooBigErr);
            }
            self.check_maybe_resize(need);
            self.put_head(tag, TarsTypeMark::EnInt32);
            bytes_mut_put_u32(&mut self.buf, v);
            proof {
                assert(self@ =~= old(self)@ + uint_field(tag, v as int));
            }
            Ok(())
        }
    }

    /// Writes an unsigned 64-bit number as one field, narrowed where it fits 32 bits.
    fn put_uint64(&mut self, tag: u8, v: u64) -> (r: Result<(), EncodeErr>)
        ensures
            appended(old(self)@, uint_field(tag, v as int), final(self)@, r),
    {
        if v <= 0xffff_ffff {
            self.put_uint32(tag, v as u32)
        } else {
            let need: usize = if tag < 15 { 9 } else { 10 };
            proof {
                lemma_be_bytes_len(v as int, 8);
            }
            if !self.has_room_for(need) {
                return Err(EncodeErr::BufferTooBigErr);
            }
            self.check_maybe_resize(need);
            self.put_head(tag, TarsTypeMark::EnInt64);
            bytes_mut_put_u64(&mut self.buf, v);
            proof {
                assert(self@ =~= old(self)@ + uint_field(tag, v as int));
            }
            Ok(())
        }
    }

    /// Whether the buffer can take `fixed + len` more bytes.
    fn has_room_for_both(&self, fixed: usize, len: usize) -> (b: bool)
        ensures
            b == has_room(self@.len(), fixed + len),
    {
        let rem = bytes_mut_remaining_mut(&self.buf);
        fixed <= rem && len <= rem - fixed
    }

    /// Writes a boolean as one field.
    fn put_boolean(&mut self, tag: u8, v: bool) -> (r: Result<(), EncodeErr>)
        ensures
            appended(old(self)@, bool_field(tag, v), final(self)@, r),
    {
        if v {
            let need: usize = if tag < 15 { 2 } else { 3 };
            proof {
                lemma_be_bytes_len(1, 1);
            }
            if !self.has_room_for(need) {
                return Err(EncodeErr::BufferTooBigErr);
            }
            self.check_maybe_resize(need);
            self.put_head(tag, TarsTypeMark::EnInt8);
            bytes_mut_put_u8(&mut self.buf, 1);
            proof {
                assert(self@ =~= old(self)@ + bool_field(tag, v));
            }
            Ok(())
        } else {
            proof {
                assert(bool_field(tag, v) =~= head_bytes(tag, TarsTypeMark::EnZero));
            }
            self.put_zero(tag)
        }
    }

    /// Writes a 32-bit float, given by its bits, as one field.
    fn put_float(&mut self, tag: u8, bits: u32) -> (r: Result<(), EncodeErr>)
        ensures
            appended(old(self)@, float_field(tag, bits), final(self)@, r),
    {
        let need: usize = if tag < 15 { 5 } else { 6 };
        proof {
            lemma_be_bytes_len(bits as int, 4);
        }
        if !self.has_room_for(need) {
            return Err(EncodeErr::BufferTooBigErr);
        }
        self.check_maybe_resize(need);
        self.put_head(tag, TarsTypeMark::EnFloat);
        bytes_mut_put_u32(&mut self.buf, bits);
        proof {
            assert(self@ =~= old(self)@ + float_field(tag, bits));
        }
        Ok(())
    }

    /// Writes a 64-bit float, given by its bits, as one field.
    fn put_double(&mut self, tag: u8, bits: u64) -> (r: Result<(), EncodeErr>)
        ensures
            appended(old(self)@, double_field(tag, bits), final(self)@, r),
    {
        let need: usize = if tag < 15 { 9 } else { 10 };
        proof {
            lemma_be_bytes_len(bits as int, 8);
        }
        if !self.has_room_for(need) {
            return Err(EncodeErr::BufferTooBigErr);
        }
        self.check_maybe_resize(need);
        self.put_head(tag, TarsTypeMark::EnDouble);
        bytes_mut_put_u64(&mut self.buf, bits);
        proof {
            assert(self@ =~= old(self)@ + double_field(tag, bits));
        }
        Ok(())
    }

    /// Writes a string as one field: the short form up to 255 bytes of UTF-8,
    /// the long form beyond. A string of more bytes than the four-byte length
    /// holds is refused.
    fn put_string(&mut self, tag: u8, s: &String) -> (r: Result<(), EncodeErr>)
        ensures
            r == string_outcome(encode_utf8(s@), old(self)@.len(), tag),
            r is Ok ==> final(self)@ == old(self)@ + string_field(tag, encode_utf8(s@)),
            r is Err ==> final(self)@ == old(self)@,
    {
        let bytes = s.as_str().as_bytes();
        let len = bytes.len();
        let head: usize = if tag < 15 { 1 } else { 2 };
        proof {
            lemma_be_bytes_len(len as int, 1);
            lemma_be_bytes_len(len as int, 4);
        }
        if len <= 255 {
            if !self.has_room_for_both(head + 1, len) {
                return Err(EncodeErr::BufferTooBigErr);
            }
            self.check_maybe_resize(head + 1 + len);
            self.put_head(tag, TarsTypeMark::EnString1);
            bytes_mut_put_u8(&mut self.buf, len as u8);
            bytes_mut_put_slice(&mut self.buf, bytes);
            proof {
                assert(self@ =~= old(self)@ + string_field(tag, encode_utf8(s@)));
            }
            Ok(())
        } else if len <= u32::MAX as usize {
            if !self.has_room_for_both(head + 4, len) {
                return Err(EncodeErr::BufferTooBigErr);
            }
            self.check_maybe_resize(head + 4 + len);
            self.put_head(tag, TarsTypeMark::EnString4);
            bytes_mut_put_u32(&mut self.buf, len as u32);
            bytes_mut_put_slice(&mut self.buf, bytes);
            proof {
                assert(self@ =~= old(self)@ + string_field(tag, encode_utf8(s@)));
            }
            Ok(())
        } else {
            Err(EncodeErr::BufferTooBigErr)
        }
    }

    /// Writes the start of a simple list of `count` elements: the outer header,
    /// the inner header, and the count. Leaves room for the elements.
    fn put_blob_start(&mut self, tag: u8, count: usize) -> (r: Result<(), EncodeErr>)
        ensures
            r == blob_outcome(count as nat, old(self)@.len(), tag),
            r is Ok ==> final(self)@ == old(self)@ + head_bytes(tag, TarsTypeMark::EnSimplelist)
                + head_bytes(0, TarsTypeMark::EnInt8) + be_bytes(count as int, 4),
            r is Ok ==> has_room(final(self)@.len(), count as int),
            r is Err ==> final(self)@ == old(self)@,
    {
        let head: usize = if tag < 15 { 1 } else { 2 };
        proof {
            lemma_be_bytes_len(count as int, 4);
        }
        if count > u32::MAX as usize {
            return Err(EncodeErr::BufferTooBigErr);
        }
        if !self.has_room_for_both(head + 5, count) {
            return Err(EncodeErr::BufferTooBigErr);
        }
        self.check_maybe_resize(head + 5 + count);
        self.put_head(tag, TarsTypeMark::EnSimplelist);
        self.put_head(0, TarsTypeMark::EnInt8);
        bytes_mut_put_u32(&mut self.buf, count as u32);
        Ok(())
    }

    /// Writes a sequence of bytes as one field, a simple list.
    fn put_bytes(&mut self, tag: u8, bytes: &[u8]) -> (r: Result<(), EncodeErr>)
        ensures
            r == blob_outcome(bytes@.len(), old(self)@.len(), tag),
            r is Ok ==> final(self)@ == old(self)@ + blob_field(tag, bytes@),
            r is Err ==> final(self)@ == old(self)@,
    {
        self.put_blob_start(tag, bytes.len())?;
        bytes_mut_extend_from_slice(&mut self.buf, bytes);
        proof {
            assert(self@ =~= old(self)@ + blob_field(tag, bytes@));
        }
        Ok(())
    }

    /// Writes a sequence of signed 8-bit numbers as one field, a simple list
    /// with one byte for each number.
    fn put_int8_list(&mut self, tag: u8, items: &Vec<i8>) -> (r: Result<(), EncodeErr>)
        ensures
            r == blob_outcome(items@.len(), old(self)@.len(), tag),
            r is Ok ==> final(self)@ == old(self)@ + blob_field(tag, i8_bytes(items@)),
            r is Err ==> final(self)@ == old(self)@,
    {
        self.put_blob_start(tag, items.len())?;
        let ghost start = self@;
        let mut i: usize = 0;
        while i < items.len()
            invariant
                i <= items.len(),
                has_room(start.len(), items.len() as int),
                self@ == start + i8_bytes(items@.take(i as int)),
            decreases items.len() - i,
        {
            let v = items[i];
            bytes_mut_put_i8(&mut self.buf, v);
            proof {
                reveal_with_fuel(be_bytes, 2);
                assert(be_bytes(v as int, 1) =~= seq![i8_byte(v)]);
                assert(i8_bytes(items@.take(i + 1)) =~= i8_bytes(items@.take(i as int)).push(
                    i8_byte(v),
                ));
                assert(self@ =~= start + i8_bytes(items@.take(i + 1)));
            }
            i = i + 1;
        }
        proof {
            assert(items@.take(i as int) =~= items@);
            assert(self@ =~= old(self)@ + blob_field(tag, i8_bytes(items@)));
        }
        Ok(())
    }

    /// Writes a sequence of booleans as one field, a simple list with one byte
    /// for each boolean.
    fn put_boolean_list(&mut self, tag: u8, items: &Vec<bool>) -> (r: Result<(), EncodeErr>)
        ensures
            r == blob_outcome(items@.len(), old(self)@.len(), tag),
            r is Ok ==> final(self)@ == old(self)@ + blob_field(tag, bool_bytes(items@)),
            r is Err ==> final(self)@ == old(self)@,
    {
        self.put_blob_start(tag, items.len())?;
        let ghost start = self@;
        let mut i: usize = 0;
        while i < items.len()
            invariant
                i <= items.len(),
                has_room(start.len(), items.len() as int),
                self@ == start + bool_bytes(items@.take(i as int)),
            decreases items.len() - i,
        {
            let v = items[i];
            let byte: u8 = if v { 1 } else { 0 };
            bytes_mut_put_u8(&mut self.buf, byte);
            proof {
                reveal_with_fuel(be_bytes, 2);
                assert(be_bytes(byte as int, 1) =~= seq![bool_byte(v)]);
                assert(bool_bytes(items@.take(i + 1)) =~= bool_bytes(items@.take(i as int)).push(
                    bool_byte(v),
                ));
                assert(self@ =~= start + bool_bytes(items@.take(i + 1)));
            }
            i = i + 1;
        }
        proof {
            assert(items@.take(i as int) =~= items@);
            assert(self@ =~= old(self)@ + blob_field(tag, bool_bytes(items@)));
        }
        Ok(())
    }

    /// Writes a composite as one field: the header with `mark`, the byte
    /// length of what `inner` has written, and those bytes.
    fn put_region(&mut self, tag: u8, mark: TarsTypeMark, inner: TarsEncoder) -> (r: Result<
        (),
        EncodeErr,
    >)
        ensures
            r == region_outcome(Ok(()), inner@, old(self)@.len(), tag),
            r is Ok ==> final(self)@ == old(self)@ + region_field(tag, mark, inner@),
            r is Err ==> final(self)@ == old(self)@,
    {
        let len = inner.len();
        let head: usize = if tag < 15 { 1 } else { 2 };
        proof {
            lemma_be_bytes_len(len as int, 4);
        }
        if len > u32::MAX as usize {
            return Err(EncodeErr::BufferTooBigErr);
        }
        if !self.has_room_for_both(head + 4, len) {
            return Err(EncodeErr::BufferTooBigErr);
        }
        self.check_maybe_resize(head + 4 + len);
        self.put_head(tag, mark);
        bytes_mut_put_u32(&mut self.buf, len as u32);
        if len > 0 {
            self.unsplit(inner);
        }
        proof {
            assert(self@ =~= old(self)@ + region_field(tag, mark, inner@));
        }
        Ok(())
    }
}

/// The bytes that stand for signed 8-bit elements, one for each.
pub open spec fn i8_bytes(items: Seq<i8>) -> Seq<u8> {
    items.map_values(|v: i8| i8_byte(v))
}

/// The bytes that stand for boolean elements, one for each.
pub open spec fn bool_bytes(items: Seq<bool>) -> Seq<u8> {
    items.map_values(|b: bool| bool_byte(b))
}

/// What writing a string with the UTF-8 bytes `utf8` at `tag` gives, into a
/// buffer that holds `held` bytes: `BufferTooBigErr` where the string is longer
/// than the four-byte length holds or the field does not fit the buffer.
pub open spec fn string_outcome(utf8: Seq<u8>, held: nat, tag: u8) -> Result<(), EncodeErr> {
    if utf8.len() > max_len() {
        Err(EncodeErr::BufferTooBigErr)
    } else {
        room_outcome(held, string_field(tag, utf8).len())
    }
}

/// What writing a simple list of `count` elements at `tag` gives, into a
/// buffer that holds `held` bytes: `BufferTooBigErr` where the count is more
/// than the four-byte count holds or the field does not fit the buffer.
pub open spec fn blob_outcome(count: nat, held: nat, tag: u8) -> Result<(), EncodeErr> {
    if count > max_len() {
        Err(EncodeErr::BufferTooBigErr)
    } else {
        room_outcome(held, (head_len(tag) + 5 + count) as nat)
    }
}

// ---------------------------------------------------------------------------
// The values that can be written
// ---------------------------------------------------------------------------

/// A value that is written as one field. This library implements the trait for
/// the value kinds of the format; a type of the caller that is written as a
/// nested record implements `StructEncodeIntoTars` and has this trait from it.
///
/// The two spec functions name what the write does. For the kinds of this
/// library they are defined, bit for bit; for a type of the caller they stand
/// for whatever its `encode_into` does.
pub trait EncodeIntoTars {
    /// The bytes of the field that holds `self` at `tag`.
    open spec fn tars_field(&self, tag: u8) -> Seq<u8> {
        arbitrary()
    }

    /// What writing `self` at `tag` gives, into a buffer that holds `held`
    /// bytes: `Ok`, or the error.
    open spec fn tars_outcome(&self, held: nat, tag: u8) -> Result<(), EncodeErr> {
        arbitrary()
    }

    /// Whether `self` and `other` are the same value to the codec. For most
    /// types that is equality; a string or a sequence is the same as another
    /// with the same contents.
    open spec fn tars_same(&self, other: &Self) -> bool {
        self == other
    }

    /// Writes `self` as the field `tag`.
    fn encode_into(&self, encoder: &mut TarsEncoder, tag: u8) -> (r: Result<(), EncodeErr>)
        ensures
            r == self.tars_outcome(old(encoder)@.len(), tag),
            r is Ok ==> final(encoder)@ == old(encoder)@ + self.tars_field(tag),
    ;
}

/// A record: a type of the caller that writes its own fields, each with its
/// own tag. The encoder frames the fields as a nested record.
pub trait StructEncodeIntoTars {
    /// The bytes of the fields of `self`, without the frame.
    open spec fn tars_body(&self) -> Seq<u8> {
        arbitrary()
    }

    /// What writing the fields of `self` gives, into a buffer that holds
    /// `held` bytes: `Ok`, or the error.
    open spec fn tars_body_outcome(&self, held: nat) -> Result<(), EncodeErr> {
        arbitrary()
    }

    /// Whether `self` and `other` are the same record to the codec.
    open spec fn tars_body_same(&self, other: &Self) -> bool {
        self == other
    }

    /// Writes the fields of `self`.
    fn struct_encode_into(&self, encoder: &mut TarsEncoder) -> (r: Result<(), EncodeErr>)
        ensures
            r == self.tars_body_outcome(old(encoder)@.len()),
            r is Ok ==> final(encoder)@ == old(encoder)@ + self.tars_body(),
    ;
}

/// Marks the types whose sequences travel as general sequences, one field for
/// each element. The 8-bit kinds (`u8`, `i8`, `bool`) do not have the mark:
/// their sequences travel as simple lists.
pub trait TarsListItem {
}

/// Writing a value of type `T` as one field.
pub trait TarsEncoderTrait<T> {
    /// Writes `ele` as the field `tag`.
    fn put(&mut self, tag: u8, ele: &T) -> Result<(), EncodeErr>;
}

impl<T: EncodeIntoTars> TarsEncoderTrait<T> for TarsEncoder {
    fn put(&mut self, tag: u8, ele: &T) -> (r: Result<(), EncodeErr>)
        ensures
            r == ele.tars_outcome(old(self)@.len(), tag),
            r is Ok ==> final(self)@ == old(self)@ + ele.tars_field(tag),
    {
        ele.encode_into(self, tag)
    }
}

impl EncodeIntoTars for i8 {
    open spec fn tars_field(&self, tag: u8) -> Seq<u8> {
        int_field(tag, *self as int)
    }

    open spec fn tars_outcome(&self, held: nat, tag: u8) -> Result<(), EncodeErr> {
        room_outcome(held, int_field(tag, *self as int).len())
    }

    fn encode_into(&self, encoder: &mut TarsEncoder, tag: u8) -> (r: Result<(), EncodeErr>)
        ensures
            r is Err ==> final(encoder)@ == old(encoder)@,
    {
        encoder.put_int8(tag, *self)
    }
}

impl EncodeIntoTars for i16 {
    open spec fn tars_field(&self, tag: u8) -> Seq<u8> {
        int_field(tag, *self as int)
    }

    open spec fn tars_outcome(&self, held: nat, tag: u8) -> Result<(), EncodeErr> {
        room_outcome(held, int_field(tag, *self as int).len())
    }

    fn encode_into(&self, encoder: &mut TarsEncoder, tag: u8) -> (r: Result<(), EncodeErr>)
        ensures
            r is Err ==> final(encoder)@ == old(encoder)@,
    {
        encoder.put_int16(tag, *self)
    }
}

impl EncodeIntoTars for i32 {
    open spec fn tars_field(&self, tag: u8) -> Seq<u8> {
        int_field(tag, *self as int)
    }

    open spec fn tars_outcome(&self, held: nat, tag: u8) -> Result<(), EncodeErr> {
        room_outcome(held, int_field(tag, *self as int).len())
    }

    fn encode_into(&self, encoder: &mut TarsEncoder, tag: u8) -> (r: Result<(), EncodeErr>)
        ensures
            r is Err ==> final(encoder)@ == old(encoder)@,
    {
        encoder.put_int32(tag, *self)
    }
}

impl EncodeIntoTars for i64 {
    open spec fn tars_field(&self, tag: u8) -> Seq<u8> {
        int_field(tag, *self as int)
    }

    open spec fn tars_outcome(&self, held: nat, tag: u8) -> Result<(), EncodeErr> {
        room_outcome(held, int_field(tag, *self as int).len())
    }

    fn encode_into(&self, encoder: &mut TarsEncoder, tag: u8) -> (r: Result<(), EncodeErr>)
        ensures
            r is Err ==> final(encoder)@ == old(encoder)@,
    {
        encoder.put_int64(tag, *self)
    }
}

impl EncodeIntoTars for u8 {
    open spec fn tars_field(&self, tag: u8) -> Seq<u8> {
        uint_field(tag, *self as int)
    }

    open spec fn tars_outcome(&self, held: nat, tag: u8) -> Result<(), EncodeErr> {
        room_outcome(held, uint_field(tag, *self as int).len())
    }

    fn encode_into(&self, encoder: &mut TarsEncoder, tag: u8) -> (r: Result<(), EncodeErr>)
        ensures
            r is Err ==> final(encoder)@ == old(encoder)@,
    {
        encoder.put_uint8(tag, *self)
    }
}

impl EncodeIntoTars for u16 {
    open spec fn tars_field(&self, tag: u8) -> Seq<u8> {
        uint_field(tag, *self as int)
    }

    open spec fn tars_outcome(&self, held: nat, tag: u8) -> Result<(), EncodeErr> {
        room_outcome(held, uint_field(tag, *self as int).len())
    }

    fn encode_into(&self, encoder: &mut TarsEncoder, tag: u8) -> (r: Result<(), EncodeErr>)
        ensures
            r is Err ==> final(encoder)@ == old(encoder)@,
    {
        encoder.put_uint16(tag, *self)
    }
}

impl EncodeIntoTars for u32 {
    open spec fn tars_field(&self, tag: u8) -> Seq<u8> {
        uint_field(tag, *self as int)
    }

    open spec fn tars_outcome(&self, held: nat, tag: u8) -> Result<(), EncodeErr> {
        room_outcome(held, uint_field(tag, *self as int).len())
    }

    fn encode_into(&self, encoder: &mut TarsEncoder, tag: u8) -> (r: Result<(), EncodeErr>)
        ensures
            r is Err ==> final(encoder)@ == old(encoder)@,
    {
        encoder.put_uint32(tag, *self)
    }
}

impl EncodeIntoTars for u64 {
    open spec fn tars_field(&self, tag: u8) -> Seq<u8> {
        uint_field(tag, *self as int)
    }

    open spec fn tars_outcome(&self, held: nat, tag: u8) -> Result<(), EncodeErr> {
        room_outcome(held, uint_field(tag, *self as int).len())
    }

    fn encode_into(&self, encoder: &mut TarsEncoder, tag: u8) -> (r: Result<(), EncodeErr>)
        ensures
            r is Err ==> final(encoder)@ == old(encoder)@,
    {
        encoder.put_uint64(tag, *self)
    }
}

impl EncodeIntoTars for bool {
    open spec fn tars_field(&self, tag: u8) -> Seq<u8> {
        bool_field(tag, *self)
    }

    open spec fn tars_outcome(&self, held: nat, tag: u8) -> Result<(), EncodeErr> {
        room_outcome(held, bool_field(tag, *self).len())
    }

    fn encode_into(&self, encoder: &mut TarsEncoder, tag: u8) -> (r: Result<(), EncodeErr>)
        ensures
            r is Err ==> final(encoder)@ == old(encoder)@,
    {
        encoder.put_boolean(tag, *self)
    }
}

impl EncodeIntoTars for TarsFloat {
    open spec fn tars_field(&self, tag: u8) -> Seq<u8> {
        float_field(tag, self.bits)
    }

    open spec fn tars_outcome(&self, held: nat, tag: u8) -> Result<(), EncodeErr> {
        room_outcome(held, float_field(tag, self.bits).len())
    }

    fn encode_into(&self, encoder: &mut TarsEncoder, tag: u8) -> (r: Result<(), EncodeErr>)
        ensures
            r is Err ==> final(encoder)@ == old(encoder)@,
    {
        encoder.put_float(tag, self.bits)
    }
}

impl EncodeIntoTars for TarsDouble {
    open spec fn tars_field(&self, tag: u8) -> Seq<u8> {
        double_field(tag, self.bits)
    }

    open spec fn tars_outcome(&self, held: nat, tag: u8) -> Result<(), EncodeErr> {
        room_outcome(held, double_field(tag, self.bits).len())
    }

    fn encode_into(&self, encoder: &mut TarsEncoder, tag: u8) -> (r: Result<(), EncodeErr>)
        ensures
            r is Err ==> final(encoder)@ == old(encoder)@,
    {
        encoder.put_double(tag, self.bits)
    }
}

impl EncodeIntoTars for String {
    open spec fn tars_field(&self, tag: u8) -> Seq<u8> {
        string_field(tag, encode_utf8(self@))
    }

    open spec fn tars_outcome(&self, held: nat, tag: u8) -> Result<(), EncodeErr> {
        string_outcome(encode_utf8(self@), held, tag)
    }

    open spec fn tars_same(&self, other: &Self) -> bool {
        self@ == other@
    }

    fn encode_into(&self, encoder: &mut TarsEncoder, tag: u8) -> (r: Result<(), EncodeErr>)
        ensures
            r is Err ==> final(encoder)@ == old(encoder)@,
    {
        encoder.put_string(tag, self)
    }
}

impl EncodeIntoTars for Vec<u8> {
    open spec fn tars_field(&self, tag: u8) -> Seq<u8> {
        blob_field(tag, self@)
    }

    open spec fn tars_outcome(&self, held: nat, tag: u8) -> Result<(), EncodeErr> {
        blob_outcome(self@.len(), held, tag)
    }

    open spec fn tars_same(&self, other: &Self) -> bool {
        self@ == other@
    }

    fn encode_into(&self, encoder: &mut TarsEncoder, tag: u8) -> (r: Result<(), EncodeErr>)
        ensures
            r is Err ==> final(encoder)@ == old(encoder)@,
    {
        encoder.put_bytes(tag, self.as_slice())
    }
}

impl EncodeIntoTars for Vec<i8> {
    open spec fn tars_field(&self, tag: u8) -> Seq<u8> {
        blob_field(tag, i8_bytes(self@))
    }

    open spec fn tars_outcome(&self, held: nat, tag: u8) -> Result<(), EncodeErr> {
        blob_outcome(self@.len(), held, tag)
    }

    open spec fn tars_same(&self, other: &Self) -> bool {
        self@ == other@
    }

    fn encode_into(&self, encoder: &mut TarsEncoder, tag: u8) -> (r: Result<(), EncodeErr>)
        ensures
            r is Err ==> final(encoder)@ == old(encoder)@,
    {
        encoder.put_int8_list(tag, self)
    }
}

impl EncodeIntoTars for Vec<bool> {
    open spec fn tars_field(&self, tag: u8) -> Seq<u8> {
        blob_field(tag, bool_bytes(self@))
    }

    open spec fn tars_outcome(&self, held: nat, tag: u8) -> Result<(), EncodeErr> {
        blob_outcome(self@.len(), held, tag)
    }

    open spec fn tars_same(&self, other: &Self) -> bool {
        self@ == other@
    }

    fn encode_into(&self, encoder: &mut TarsEncoder, tag: u8) -> (r: Result<(), EncodeErr>)
        ensures
            r is Err ==> final(encoder)@ == old(encoder)@,
    {
        encoder.put_boolean_list(tag, self)
    }
}

impl EncodeIntoTars for Bytes {
    open spec fn tars_field(&self, tag: u8) -> Seq<u8> {
        blob_field(tag, bytes_contents(*self))
    }

    open spec fn tars_outcome(&self, held: nat, tag: u8) -> Result<(), EncodeErr> {
        blob_outcome(bytes_contents(*self).len(), held, tag)
    }

    open spec fn tars_same(&self, other: &Self) -> bool {
        bytes_contents(*self) == bytes_contents(*other)
    }

    fn encode_into(&self, encoder: &mut TarsEncoder, tag: u8) -> (r: Result<(), EncodeErr>)
        ensures
            r is Err ==> final(encoder)@ == old(encoder)@,
    {
        encoder.put_bytes(tag, bytes_as_slice(self))
    }
}

/// An optional value is written as the value where there is one, and not at
/// all where there is none.
impl<T: EncodeIntoTars> EncodeIntoTars for Option<T> {
    open spec fn tars_field(&self, tag: u8) -> Seq<u8> {
        match self {
            Some(v) => v.tars_field(tag),
            None => Seq::<u8>::empty(),
        }
    }

    open spec fn tars_outcome(&self, held: nat, tag: u8) -> Result<(), EncodeErr> {
        match self {
            Some(v) => v.tars_outcome(held, tag),
            None => Ok(()),
        }
    }

    open spec fn tars_same(&self, other: &Self) -> bool {
        match (self, other) {
            (Some(a), Some(b)) => a.tars_same(b),
            (None, None) => true,
            _ => false,
        }
    }

    fn encode_into(&self, encoder: &mut TarsEncoder, tag: u8) -> (r: Result<(), EncodeErr>) {
        match self {
            Some(v) => v.encode_into(encoder, tag),
            None => {
                proof {
                    assert(encoder@ =~= encoder@ + Seq::<u8>::empty());
                }
                Ok(())
            },
        }
    }
}

/// What writing a composite at `tag` gives, into a buffer that holds `held`
/// bytes, where writing its elements gave `inner_outcome` and the bytes
/// `inner`: the error of the elements; else `BufferTooBigErr` where `inner` is
/// longer than the four-byte length holds or the field does not fit the
/// buffer; else `Ok`.
pub open spec fn region_outcome(
    inner_outcome: Result<(), EncodeErr>,
    inner: Seq<u8>,
    held: nat,
    tag: u8,
) -> Result<(), EncodeErr> {
    match inner_outcome {
        Err(e) => Err(e),
        Ok(_) => if inner.len() > max_len() {
            Err(EncodeErr::BufferTooBigErr)
        } else {
            room_outcome(held, (head_len(tag) + 4 + inner.len()) as nat)
        },
    }
}

/// Whether two sequences are the same to the codec: as long as each other,
/// with the same element at every place.
pub open spec fn items_same<T: EncodeIntoTars>(a: Seq<T>, b: Seq<T>) -> bool {
    &&& a.len() == b.len()
    &&& forall|i: int| 0 <= i < a.len() ==> (#[trigger] a[i]).tars_same(&b[i])
}

/// Whether two mappings are the same to the codec: as many entries, with the
/// same key and the same value at every place.
pub open spec fn entries_same<K: EncodeIntoTars, V: EncodeIntoTars>(
    a: Seq<(K, V)>,
    b: Seq<(K, V)>,
) -> bool {
    &&& a.len() == b.len()
    &&& forall|i: int|
        0 <= i < a.len() ==> (#[trigger] a[i]).0.tars_same(&b[i].0) && a[i].1.tars_same(&b[i].1)
}

/// The fields of the elements of a sequence, each written with tag 0, one
/// after the other.
pub open spec fn items_bytes<T: EncodeIntoTars>(items: Seq<T>) -> Seq<u8>
    decreases items.len(),
{
    if items.len() == 0 {
        Seq::<u8>::empty()
    } else {
        items[0].tars_field(0) + items_bytes(items.drop_first())
    }
}

/// What writing the elements of a sequence one after the other gives, into a
/// buffer that holds `held` bytes: the error of the first element that fails,
/// or `Ok`.
pub open spec fn items_outcome<T: EncodeIntoTars>(items: Seq<T>, held: nat) -> Result<
    (),
    EncodeErr,
>
    decreases items.len(),
{
    if items.len() == 0 {
        Ok(())
    } else {
        match items[0].tars_outcome(held, 0) {
            Err(e) => Err(e),
            Ok(_) => items_outcome(items.drop_first(), held + items[0].tars_field(0).len()),
        }
    }
}

/// The fields of the entries of a mapping, one after the other: for each
/// entry the key with tag 0, then the value with tag 0.
pub open spec fn entries_bytes<K: EncodeIntoTars, V: EncodeIntoTars>(entries: Seq<(K, V)>) -> Seq<
    u8,
>
    decreases entries.len(),
{
    if entries.len() == 0 {
        Seq::<u8>::empty()
    } else {
        entries[0].0.tars_field(0) + entries[0].1.tars_field(0) + entries_bytes(
            entries.drop_first(),
        )
    }
}

/// What writing the entries of a mapping one after the other gives, into a
/// buffer that holds `held` bytes: the error of the first key or value that
/// fails, or `Ok`.
pub open spec fn entries_outcome<K: EncodeIntoTars, V: EncodeIntoTars>(
    entries: Seq<(K, V)>,
    held: nat,
) -> Result<(), EncodeErr>
    decreases entries.len(),
{
    if entries.len() == 0 {
        Ok(())
    } else {
        match entries[0].0.tars_outcome(held, 0) {
            Err(e) => Err(e),
            Ok(_) => {
                let held_key = held + entries[0].0.tars_field(0).len();
                match entries[0].1.tars_outcome(held_key, 0) {
                    Err(e) => Err(e),
                    Ok(_) => entries_outcome(
                        entries.drop_first(),
                        held_key + entries[0].1.tars_field(0).len(),
                    ),
                }
            },
        }
    }
}

/// A sequence is written as one field: the elements, each as a field with tag
/// 0, go to a scratch buffer; then come the header, the byte length of the
/// scratch buffer, and its bytes.
impl<T: EncodeIntoTars + TarsListItem> EncodeIntoTars for Vec<T> {
    open spec fn tars_field(&self, tag: u8) -> Seq<u8> {
        region_field(tag, TarsTypeMark::EnList, items_bytes(self@))
    }

    open spec fn tars_outcome(&self, held: nat, tag: u8) -> Result<(), EncodeErr> {
        region_outcome(items_outcome(self@, 0), items_bytes(self@), held, tag)
    }

    open spec fn tars_same(&self, other: &Self) -> bool {
        items_same(self@, other@)
    }

    fn encode_into(&self, encoder: &mut TarsEncoder, tag: u8) -> (r: Result<(), EncodeErr>)
        ensures
            r is Err ==> final(encoder)@ == old(encoder)@,
    {
        let mut inner = TarsEncoder::new();
        let mut i: usize = 0;
        proof {
            assert(self@.skip(0) =~= self@);
            assert(inner@ + items_bytes(self@) =~= items_bytes(self@));
        }
        while i < self.len()
            invariant
                i <= self.len(),
                items_bytes(self@) == inner@ + items_bytes(self@.skip(i as int)),
                items_outcome(self@, 0) == items_outcome(self@.skip(i as int), inner@.len()),
                encoder@ == old(encoder)@,
            decreases self.len() - i,
        {
            let ghost rest = self@.skip(i as int);
            let ghost before = inner@;
            proof {
                assert(rest[0] == self@[i as int]);
                assert(rest.drop_first() =~= self@.skip(i + 1));
            }
            match self[i].encode_into(&mut inner, 0) {
                Err(e) => {
                    return Err(e);
                },
                Ok(_) => {},
            }
            proof {
                assert(inner@ + items_bytes(self@.skip(i + 1)) =~= before + items_bytes(rest));
            }
            i = i + 1;
        }
        proof {
            assert(self@.skip(i as int) =~= Seq::<T>::empty());
            assert(inner@ + Seq::<u8>::empty() =~= inner@);
        }
        encoder.put_region(tag, TarsTypeMark::EnList, inner)
    }
}

/// A mapping is written from its entries, in ascending order of the keys:
/// keys and values, each as a field with tag 0, go to a scratch buffer; then
/// come the header, the byte length of the scratch buffer, and its bytes.
impl<K: EncodeIntoTars, V: EncodeIntoTars> EncodeIntoTars for TarsMap<K, V> {
    open spec fn tars_field(&self, tag: u8) -> Seq<u8> {
        region_field(tag, TarsTypeMark::EnMaps, entries_bytes(self@))
    }

    open spec fn tars_outcome(&self, held: nat, tag: u8) -> Result<(), EncodeErr> {
        region_outcome(entries_outcome(self@, 0), entries_bytes(self@), held, tag)
    }

    open spec fn tars_same(&self, other: &Self) -> bool {
        entries_same(self@, other@)
    }

    fn encode_into(&self, encoder: &mut TarsEncoder, tag: u8) -> (r: Result<(), EncodeErr>)
        ensures
            r is Err ==> final(encoder)@ == old(encoder)@,
    {
        let entries = self.as_entries();
        let mut inner = TarsEncoder::new();
        let mut i: usize = 0;
        proof {
            assert(self@.skip(0) =~= self@);
            assert(inner@ + entries_bytes(self@) =~= entries_bytes(self@));
        }
        while i < entries.len()
            invariant
                i <= entries.len(),
                entries@ == self@,
                entries_bytes(self@) == inner@ + entries_bytes(self@.skip(i as int)),
                entries_outcome(self@, 0) == entries_outcome(self@.skip(i as int), inner@.len()),
                encoder@ == old(encoder)@,
            decreases entries.len() - i,
        {
            let ghost rest = self@.skip(i as int);
            let ghost before = inner@;
            proof {
                assert(rest[0] == self@[i as int]);
                assert(rest.drop_first() =~= self@.skip(i + 1));
            }
            match entries[i].0.encode_into(&mut inner, 0) {
                Err(e) => {
                    return Err(e);
                },
                Ok(_) => {},
            }
            match entries[i].1.encode_into(&mut inner, 0) {
                Err(e) => {
                    return Err(e);
                },
                Ok(_) => {},
            }
            proof {
                assert(inner@ + entries_bytes(self@.skip(i + 1)) =~= before + entries_bytes(rest));
            }
            i = i + 1;
        }
        proof {
            assert(self@.skip(i as int) =~= Seq::<(K, V)>::empty());
            assert(inner@ + Seq::<u8>::empty() =~= inner@);
        }
        encoder.put_region(tag, TarsTypeMark::EnMaps, inner)
    }
}

/// What writing a record at `tag` gives, into a buffer that holds `held`
/// bytes, where the fields of the record are `body` and writing them gives
/// `body_outcome`: `BufferTooBigErr` where the opening header does not fit;
/// else the error of the fields; else `BufferTooBigErr` where the closing
/// header does not fit; else `Ok`.
pub open spec fn struct_outcome(
    body_outcome: Result<(), EncodeErr>,
    body: Seq<u8>,
    held: nat,
    tag: u8,
) -> Result<(), EncodeErr> {
    if !has_room(held, head_len(tag)) {
        Err(EncodeErr::BufferTooBigErr)
    } else {
        match body_outcome {
            Err(e) => Err(e),
            Ok(_) => room_outcome((held + head_len(tag) + body.len()) as nat, 1),
        }
    }
}

/// A record is written as one field: the struct-begin header with the tag, the
/// fields that the record writes itself, and the struct-end header.
impl<T: StructEncodeIntoTars> EncodeIntoTars for T {
    open spec fn tars_field(&self, tag: u8) -> Seq<u8> {
        struct_field(tag, self.tars_body())
    }

    open spec fn tars_outcome(&self, held: nat, tag: u8) -> Result<(), EncodeErr> {
        struct_outcome(
            self.tars_body_outcome((held + head_len(tag)) as nat),
            self.tars_body(),
            held,
            tag,
        )
    }

    open spec fn tars_same(&self, other: &Self) -> bool {
        self.tars_body_same(other)
    }

    fn encode_into(&self, encoder: &mut TarsEncoder, tag: u8) -> (r: Result<(), EncodeErr>) {
        let head: usize = if tag < 15 { 1 } else { 2 };
        if !encoder.has_room_for(head) {
            return Err(EncodeErr::BufferTooBigErr);
        }
        encoder.check_maybe_resize(head);
        encoder.put_head(tag, TarsTypeMark::EnStructBegin);
        match self.struct_encode_into(encoder) {
            Err(e) => {
                return Err(e);
            },
            Ok(_) => {},
        }
        if !encoder.has_room_for(1) {
            return Err(EncodeErr::BufferTooBigErr);
        }
        encoder.check_maybe_resize(1);
        encoder.put_head(0, TarsTypeMark::EnStructEnd);
        proof {
            assert(encoder@ =~= old(encoder)@ + struct_field(tag, self.tars_body()));
        }
        Ok(())
    }
}

impl TarsListItem for i16 {
}

impl TarsListItem for i32 {
}

impl TarsListItem for i64 {
}

impl TarsListItem for u16 {
}

impl TarsListItem for u32 {
}

impl TarsListItem for u64 {
}

impl TarsListItem for TarsFloat {
}

impl TarsListItem for TarsDouble {
}

impl TarsListItem for String {
}

impl TarsListItem for Bytes {
}

impl<T> TarsListItem for Vec<T> {
}

impl<K, V> TarsListItem for TarsMap<K, V> {
}

} // verus!
