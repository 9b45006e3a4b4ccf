//! The decoder: reads typed values back out of a region of bytes.
//!
//! A decoder owns one region. Every request for a tag scans the region from
//! its start, so fields can be asked for in any order, whatever the order in
//! which they were written.
use crate::buffer::{
    bytes_as_slice, bytes_contents, bytes_copy_from_slice, bytes_from_vec,
    bytes_get_i16, bytes_get_i32, bytes_get_i64, bytes_get_i8, bytes_get_u16, bytes_get_u32,
    bytes_get_u64, bytes_get_u8, bytes_len, bytes_new, bytes_slice, lossy_text,
    string_from_utf8_lossy,
};
use crate::errors::DecodeErr;
use crate::tars_map::{map_put, TarsKey, TarsMap};
use crate::tars_encoder::TarsListItem;
use crate::tars_type::{TarsDouble, TarsFloat, TarsTypeMark};
use crate::wire::{
    be_signed, be_unsigned, lemma_skip_field_bounds, lemma_skip_flat_bounds,
    lemma_struct_close_bounds, spec_advance, spec_blob_payload, spec_counted, spec_field_end,
    spec_find_tag, spec_float_payload, spec_int_payload, spec_read_blob, spec_read_float,
    spec_read_int, spec_read_region, spec_read_string, spec_read_struct, spec_region_payload,
    spec_skip_counted, spec_skip_field, spec_skip_flat, spec_string_payload, spec_struct_close,
    spec_struct_payload, spec_take_head, tag_absent,
};
use bytes::Bytes;
use vstd::prelude::*;
use vstd::slice::slice_to_vec;
use vstd::std_specs::convert::FromSpecImpl;

verus! {

/// The header of a field: its tag, its wire type mark, and the number of bytes
/// that the header itself takes, 1 or 2.
#[derive(Debug)]
pub struct Head {
    pub tag: u8,
    pub tars_type: TarsTypeMark,
    pub len: u8,
}

/// The decoder of one region of bytes.
#[derive(Debug, Clone, PartialEq, Eq, PartialOrd, Ord)]
pub struct TarsDecoder {
    buf: Bytes,
    pos: usize,
}

impl View for TarsDecoder {
    type V = Seq<u8>;

    /// The bytes of the region.
    closed spec fn view(&self) -> Seq<u8> {
        bytes_contents(self.buf)
    }
}

/// The unsigned reading of a single byte is the byte.
proof fn lemma_be_unsigned_one(b: Seq<u8>)
    requires
        b.len() == 1,
    ensures
        be_unsigned(b) == b[0],
{
    reveal_with_fuel(be_unsigned, 2);
}

impl TarsDecoder {
    /// The cursor stands within the region.
    spec fn wf(&self) -> bool {
        self.pos <= self@.len()
    }

    /// A decoder of the empty region.
    pub fn new() -> (decoder: TarsDecoder)
        ensures
            decoder@ == Seq::<u8>::empty(),
    {
        TarsDecoder { buf: bytes_new(), pos: 0 }
    }

    /// A decoder of the region that `buf` holds.
    pub fn from_bytes(buf: &Bytes) -> (decoder: TarsDecoder)
        ensures
            decoder@ == bytes_contents(*buf),
    {
        TarsDecoder { buf: buf.clone(), pos: 0 }
    }

    /// A decoder of the part of the region from `begin` up to `end`.
    fn sub_decoder(&self, begin: usize, end: usize) -> (decoder: TarsDecoder)
        requires
            begin <= end <= self@.len(),
        ensures
            decoder@ == self@.subrange(begin as int, end as int),
            decoder.pos == 0,
    {
        TarsDecoder { buf: bytes_slice(&self.buf, begin, end), pos: 0 }
    }

    /// The number of bytes from the cursor to the end of the region.
    fn remaining(&self) -> (n: usize)
        requires
            self.wf(),
        ensures
            n == self@.len() - self.pos,
            self@.len() <= usize::MAX,
    {
        bytes_len(&self.buf) - self.pos
    }

    /// Whether the cursor has not reached the end of the region.
    fn has_remaining(&self) -> (b: bool)
        requires
            self.wf(),
        ensures
            b == (self.pos < self@.len()),
    {
        self.remaining() > 0
    }

    /// Moves the cursor `cnt` bytes on.
    fn advance(&mut self, cnt: usize) -> (r: Result<(), DecodeErr>)
        requires
            old(self).wf(),
        ensures
            final(self).wf(),
            final(self)@ == old(self)@,
            match spec_advance(old(self)@, old(self).pos as int, cnt as int) {
                Ok(end) => r is Ok && final(self).pos == end,
                Err(e) => r == Err::<(), DecodeErr>(e) && final(self).pos == old(self).pos,
            },
    {
        if self.remaining() < cnt {
            Err(DecodeErr::NoEnoughDataErr)
        } else {
            self.pos += cnt;
            Ok(())
        }
    }

    /// Hands out the next `size` bytes and moves the cursor past them.
    fn take_then_advance(&mut self, size: usize) -> (r: Result<Bytes, DecodeErr>)
        requires
            old(self).wf(),
        ensures
            final(self).wf(),
            final(self)@ == old(self)@,
            match spec_advance(old(self)@, old(self).pos as int, size as int) {
                Ok(end) => r matches Ok(b) && bytes_contents(b) == old(self)@.subrange(
                    old(self).pos as int,
                    end,
                ) && final(self).pos == end,
                Err(e) => r matches Err(e2) && e2 == e && final(self).pos == old(self).pos,
            },
    {
        if self.remaining() < size {
            Err(DecodeErr::NoEnoughDataErr)
        } else {
            let b = bytes_slice(&self.buf, self.pos, self.pos + size);
            self.pos += size;
            Ok(b)
        }
    }

    /// Reads the header at the cursor and moves the cursor past it.
    fn take_head(&mut self) -> (r: Result<Head, DecodeErr>)
        requires
            old(self).wf(),
        ensures
            final(self).wf(),
            final(self)@ == old(self)@,
            r == spec_take_head(old(self)@, old(self).pos as int),
            r matches Ok(head) ==> 1 <= head.len <= 2 && final(self).pos == old(self).pos
                + head.len,
    {
        if self.remaining() < 1 {
            Err(DecodeErr::NoEnoughDataErr)
        } else {
            let mut first = self.take_then_advance(1)?;
            let b = bytes_get_u8(&mut first);
            proof {
                let one = old(self)@.subrange(old(self).pos as int, old(self).pos + 1);
                assert(one.take(1) =~= one);
                lemma_be_unsigned_one(one);
            }
            let mark = b % 16;
            let mut tag = b / 16;
            let len: u8 = if tag < 15 {
                1
            } else {
                let mut second = self.take_then_advance(1)?;
                tag = bytes_get_u8(&mut second);
                proof {
                    let one = old(self)@.subrange(old(self).pos + 1, old(self).pos + 2);
                    assert(one.take(1) =~= one);
                    lemma_be_unsigned_one(one);
                }
                2
            };
            match TarsTypeMark::from_nibble(mark) {
                Some(tars_type) => Ok(Head { tag, tars_type, len }),
                None => Err(DecodeErr::UnknownTarsTypeErr),
            }
        }
    }

    /// Steps over a payload that a count of `width` bytes announces.
    fn skip_counted(&mut self, width: usize) -> (r: Result<(), DecodeErr>)
        requires
            old(self).wf(),
            width == 1 || width == 4,
        ensures
            final(self).wf(),
            final(self)@ == old(self)@,
            match spec_skip_counted(old(self)@, old(self).pos as int, width as nat) {
                Ok(end) => r is Ok && final(self).pos == end,
                Err(e) => r == Err::<(), DecodeErr>(e),
            },
    {
        let mut count = self.take_then_advance(width)?;
        proof {
            let c = old(self)@.subrange(old(self).pos as int, old(self).pos + width);
            assert(c.take(width as int) =~= c);
        }
        let size: usize = if width == 1 {
            bytes_get_u8(&mut count) as usize
        } else {
            bytes_get_u32(&mut count) as usize
        };
        self.advance(size)
    }

    /// Steps over the payload of a short string.
    fn skip_string1_field(&mut self) -> (r: Result<(), DecodeErr>)
        requires
            old(self).wf(),
        ensures
            final(self).wf(),
            final(self)@ == old(self)@,
            match spec_skip_counted(old(self)@, old(self).pos as int, 1) {
                Ok(end) => r is Ok && final(self).pos == end,
                Err(e) => r == Err::<(), DecodeErr>(e),
            },
    {
        self.skip_counted(1)
    }

    /// Steps over the payload of a long string.
    fn skip_string4_field(&mut self) -> (r: Result<(), DecodeErr>)
        requires
            old(self).wf(),
        ensures
            final(self).wf(),
            final(self)@ == old(self)@,
            match spec_skip_counted(old(self)@, old(self).pos as int, 4) {
                Ok(end) => r is Ok && final(self).pos == end,
                Err(e) => r == Err::<(), DecodeErr>(e),
            },
    {
        self.skip_counted(4)
    }

    /// Steps over the payload of a mapping: its byte length and its region.
    fn skip_map_field(&mut self) -> (r: Result<(), DecodeErr>)
        requires
            old(self).wf(),
        ensures
            final(self).wf(),
            final(self)@ == old(self)@,
            match spec_skip_counted(old(self)@, old(self).pos as int, 4) {
                Ok(end) => r is Ok && final(self).pos == end,
                Err(e) => r == Err::<(), DecodeErr>(e),
            },
    {
        self.skip_counted(4)
    }

    /// Steps over the payload of a sequence: its byte length and its region.
    fn skip_list_field(&mut self) -> (r: Result<(), DecodeErr>)
        requires
            old(self).wf(),
        ensures
            final(self).wf(),
            final(self)@ == old(self)@,
            match spec_skip_counted(old(self)@, old(self).pos as int, 4) {
                Ok(end) => r is Ok && final(self).pos == end,
                Err(e) => r == Err::<(), DecodeErr>(e),
            },
    {
        self.skip_counted(4)
    }

    /// Steps over the payload of a simple list: its inner header, its count
    /// and its bytes.
    fn skip_simple_list_field(&mut self) -> (r: Result<(), DecodeErr>)
        requires
            old(self).wf(),
        ensures
            final(self).wf(),
            final(self)@ == old(self)@,
            match spec_skip_flat(old(self)@, old(self).pos as int, TarsTypeMark::EnSimplelist) {
                Ok(end) => r is Ok && final(self).pos == end,
                Err(e) => r == Err::<(), DecodeErr>(e),
            },
    {
        let _inner = self.take_head()?;
        self.skip_counted(4)
    }

    /// Steps over a payload of any mark but `EnStructBegin`.
    fn skip_flat_field(&mut self, tars_type: TarsTypeMark) -> (r: Result<(), DecodeErr>)
        requires
            old(self).wf(),
            tars_type != TarsTypeMark::EnStructBegin,
        ensures
            final(self).wf(),
            final(self)@ == old(self)@,
            match spec_skip_flat(old(self)@, old(self).pos as int, tars_type) {
                Ok(end) => r is Ok && final(self).pos == end,
                Err(e) => r == Err::<(), DecodeErr>(e),
            },
    {
        match tars_type {
            TarsTypeMark::EnInt8 => self.advance(1),
            TarsTypeMark::EnInt16 => self.advance(2),
            TarsTypeMark::EnInt32 => self.advance(4),
            TarsTypeMark::EnInt64 => self.advance(8),
            TarsTypeMark::EnFloat => self.advance(4),
            TarsTypeMark::EnDouble => self.advance(8),
            TarsTypeMark::EnString1 => self.skip_string1_field(),
            TarsTypeMark::EnString4 => self.skip_string4_field(),
            TarsTypeMark::EnMaps => self.skip_map_field(),
            TarsTypeMark::EnList => self.skip_list_field(),
            TarsTypeMark::EnStructBegin => Ok(()),
            TarsTypeMark::EnStructEnd => Ok(()),
            TarsTypeMark::EnZero => Ok(()),
            TarsTypeMark::EnSimplelist => self.skip_simple_list_field(),
        }
    }

    /// Steps over the fields of a nested record and the struct-end header
    /// that closes it. On success hands back the position of that header.
    fn skip_struct_field(&mut self) -> (r: Result<usize, DecodeErr>)
        requires
            old(self).wf(),
        ensures
            final(self).wf(),
            final(self)@ == old(self)@,
            match spec_struct_close(old(self)@, old(self).pos as int, 0) {
                Ok(close) => r matches Ok(at) && at == close.0 && final(self).pos == close.1
                    && old(self).pos <= close.0 < close.1,
                Err(e) => r == Err::<usize, DecodeErr>(e),
            },
    {
        let mut depth: usize = 0;
        loop
            invariant
                self.wf(),
                self@ == old(self)@,
                depth <= self.pos,
                spec_struct_close(self@, self.pos as int, depth as nat) == spec_struct_close(
                    old(self)@,
                    old(self).pos as int,
                    0,
                ),
            decreases self@.len() - self.pos,
        {
            let at = self.pos;
            let head = self.take_head()?;
            proof {
                lemma_skip_flat_bounds(self@, self.pos as int, head.tars_type);
                lemma_struct_close_bounds(old(self)@, old(self).pos as int, 0);
            }
            match head.tars_type {
                TarsTypeMark::EnStructBegin => {
                    depth = depth + 1;
                },
                TarsTypeMark::EnStructEnd => {
                    if depth == 0 {
                        return Ok(at);
                    }
                    depth = depth - 1;
                },
                mark => {
                    self.skip_flat_field(mark)?;
                },
            }
        }
    }

    /// Steps over a payload of any mark.
    fn skip_field(&mut self, tars_type: TarsTypeMark) -> (r: Result<(), DecodeErr>)
        requires
            old(self).wf(),
        ensures
            final(self).wf(),
            final(self)@ == old(self)@,
            match spec_skip_field(old(self)@, old(self).pos as int, tars_type) {
                Ok(end) => r is Ok && final(self).pos == end,
                Err(e) => r == Err::<(), DecodeErr>(e),
            },
    {
        proof {
            reveal(spec_skip_field);
        }
        match tars_type {
            TarsTypeMark::EnStructBegin => {
                let _close = self.skip_struct_field()?;
                Ok(())
            },
            mark => self.skip_flat_field(mark),
        }
    }

    /// Scans the region from its start for the first field with the tag
    /// `tag`. On success the cursor stands at the payload of that field.
    fn skip_to_tag(&mut self, tag: u8) -> (r: Result<Head, DecodeErr>)
        ensures
            final(self).wf(),
            final(self)@ == old(self)@,
            match spec_find_tag(old(self)@, 0, tag) {
                Ok(found) => r == Ok::<Head, DecodeErr>(found.0) && final(self).pos == found.1,
                Err(e) => r == Err::<Head, DecodeErr>(e),
            },
    {
        self.pos = 0;
        while self.has_remaining()
            invariant
                self.wf(),
                self@ == old(self)@,
                spec_find_tag(self@, self.pos as int, tag) == spec_find_tag(old(self)@, 0, tag),
            decreases self@.len() - self.pos,
        {
            let head = self.take_head()?;
            if head.tag == tag {
                return Ok(head);
            }
            proof {
                lemma_skip_field_bounds(self@, self.pos as int, head.tars_type);
            }
            self.skip_field(head.tars_type)?;
        }
        Err(DecodeErr::TagNotFoundErr)
    }

    /// Scans the region from its start for the first field with the tag
    /// `tag`; a region without the tag gives `None`.
    fn locate(&mut self, tag: u8) -> (r: Result<Option<Head>, DecodeErr>)
        ensures
            final(self).wf(),
            final(self)@ == old(self)@,
            match spec_find_tag(old(self)@, 0, tag) {
                Ok(found) => r == Ok::<Option<Head>, DecodeErr>(Some(found.0)) && final(self).pos
                    == found.1,
                Err(e) => if e == DecodeErr::TagNotFoundErr {
                    r == Ok::<Option<Head>, DecodeErr>(None)
                } else {
                    r == Err::<Option<Head>, DecodeErr>(e)
                },
            },
    {
        match self.skip_to_tag(tag) {
            Ok(head) => Ok(Some(head)),
            Err(DecodeErr::TagNotFoundErr) => Ok(None),
            Err(e) => Err(e),
        }
    }

    /// Reads the next 1 byte as a signed number and moves the cursor past it.
    fn take_i8(&mut self) -> (r: Result<i8, DecodeErr>)
        requires
            old(self).wf(),
        ensures
            final(self).wf(),
            final(self)@ == old(self)@,
            match spec_advance(old(self)@, old(self).pos as int, 1) {
                Ok(end) => r matches Ok(v) && v == be_signed(
                    old(self)@.subrange(old(self).pos as int, end),
                ) && final(self).pos == end,
                Err(e) => r == Err::<i8, DecodeErr>(e),
            },
    {
        let mut b = self.take_then_advance(1)?;
        proof {
            let part = old(self)@.subrange(old(self).pos as int, old(self).pos + 1);
            assert(part.take(1) =~= part);
        }
        Ok(bytes_get_i8(&mut b))
    }

    /// Reads the next 2 bytes as a signed number and moves the cursor past them.
    fn take_i16(&mut self) -> (r: Result<i16, DecodeErr>)
        requires
            old(self).wf(),
        ensures
            final(self).wf(),
            final(self)@ == old(self)@,
            match spec_advance(old(self)@, old(self).pos as int, 2) {
                Ok(end) => r matches Ok(v) && v == be_signed(
                    old(self)@.subrange(old(self).pos as int, end),
                ) && final(self).pos == end,
                Err(e) => r == Err::<i16, DecodeErr>(e),
            },
    {
        let mut b = self.take_then_advance(2)?;
        proof {
            let part = old(self)@.subrange(old(self).pos as int, old(self).pos + 2);
            assert(part.take(2) =~= part);
        }
        Ok(bytes_get_i16(&mut b))
    }

    /// Reads the next 4 bytes as a signed number and moves the cursor past them.
    fn take_i32(&mut self) -> (r: Result<i32, DecodeErr>)
        requires
            old(self).wf(),
        ensures
            final(self).wf(),
            final(self)@ == old(self)@,
            match spec_advance(old(self)@, old(self).pos as int, 4) {
                Ok(end) => r matches Ok(v) && v == be_signed(
                    old(self)@.subrange(old(self).pos as int, end),
                ) && final(self).pos == end,
                Err(e) => r == Err::<i32, DecodeErr>(e),
            },
    {
        let mut b = self.take_then_advance(4)?;
        proof {
            let part = old(self)@.subrange(old(self).pos as int, old(self).pos + 4);
            assert(part.take(4) =~= part);
        }
        Ok(bytes_get_i32(&mut b))
    }

    /// Reads the next 8 bytes as a signed number and moves the cursor past them.
    fn take_i64(&mut self) -> (r: Result<i64, DecodeErr>)
        requires
            old(self).wf(),
        ensures
            final(self).wf(),
            final(self)@ == old(self)@,
            match spec_advance(old(self)@, old(self).pos as int, 8) {
                Ok(end) => r matches Ok(v) && v == be_signed(
                    old(self)@.subrange(old(self).pos as int, end),
                ) && final(self).pos == end,
                Err(e) => r == Err::<i64, DecodeErr>(e),
            },
    {
        let mut b = self.take_then_advance(8)?;
        proof {
            let part = old(self)@.subrange(old(self).pos as int, old(self).pos + 8);
            assert(part.take(8) =~= part);
        }
        Ok(bytes_get_i64(&mut b))
    }

    /// Reads the next 1 byte as an unsigned number and moves the cursor past it.
    fn take_u8(&mut self) -> (r: Result<u8, DecodeErr>)
        requires
            old(self).wf(),
        ensures
            final(self).wf(),
            final(self)@ == old(self)@,
            match spec_advance(old(self)@, old(self).pos as int, 1) {
                Ok(end) => r matches Ok(v) && v == be_unsigned(
                    old(self)@.subrange(old(self).pos as int, end),
                ) && final(self).pos == end,
                Err(e) => r == Err::<u8, DecodeErr>(e),
            },
    {
        let mut b = self.take_then_advance(1)?;
        proof {
            let part = old(self)@.subrange(old(self).pos as int, old(self).pos + 1);
            assert(part.take(1) =~= part);
        }
        Ok(bytes_get_u8(&mut b))
    }

    /// Reads the next 2 bytes as an unsigned number and moves the cursor past them.
    fn take_u16(&mut self) -> (r: Result<u16, DecodeErr>)
        requires
            old(self).wf(),
        ensures
            final(self).wf(),
            final(self)@ == old(self)@,
            match spec_advance(old(self)@, old(self).pos as int, 2) {
                Ok(end) => r matches Ok(v) && v == be_unsigned(
                    old(self)@.subrange(old(self).pos as int, end),
                ) && final(self).pos == end,
                Err(e) => r == Err::<u16, DecodeErr>(e),
            },
    {
        let mut b = self.take_then_advance(2)?;
        proof {
            let part = old(self)@.subrange(old(self).pos as int, old(self).pos + 2);
            assert(part.take(2) =~= part);
        }
        Ok(bytes_get_u16(&mut b))
    }

    /// Reads the next 4 bytes as an unsigned number and moves the cursor past them.
    fn take_u32(&mut self) -> (r: Result<u32, DecodeErr>)
        requires
            old(self).wf(),
        ensures
            final(self).wf(),
            final(self)@ == old(self)@,
            match spec_advance(old(self)@, old(self).pos as int, 4) {
                Ok(end) => r matches Ok(v) && v == be_unsigned(
                    old(self)@.subrange(old(self).pos as int, end),
                ) && final(self).pos == end,
                Err(e) => r == Err::<u32, DecodeErr>(e),
            },
    {
        let mut b = self.take_then_advance(4)?;
        proof {
            let part = old(self)@.subrange(old(self).pos as int, old(self).pos + 4);
            assert(part.take(4) =~= part);
        }
        Ok(bytes_get_u32(&mut b))
    }

    /// Reads the next 8 bytes as an unsigned number and moves the cursor past them.
    fn take_u64(&mut self) -> (r: Result<u64, DecodeErr>)
        requires
            old(self).wf(),
        ensures
            final(self).wf(),
            final(self)@ == old(self)@,
            match spec_advance(old(self)@, old(self).pos as int, 8) {
                Ok(end) => r matches Ok(v) && v == be_unsigned(
                    old(self)@.subrange(old(self).pos as int, end),
                ) && final(self).pos == end,
                Err(e) => r == Err::<u64, DecodeErr>(e),
            },
    {
        let mut b = self.take_then_advance(8)?;
        proof {
            let part = old(self)@.subrange(old(self).pos as int, old(self).pos + 8);
            assert(part.take(8) =~= part);
        }
        Ok(bytes_get_u64(&mut b))
    }

    /// Reads the payload at the cursor as a signed number of 8 bits: a
    /// narrower number on the wire is widened, a wider one refused.
    fn int8_payload(&mut self, tars_type: TarsTypeMark) -> (r: Result<i8, DecodeErr>)
        requires
            old(self).wf(),
        ensures
            final(self).wf(),
            final(self)@ == old(self)@,
            match spec_int_payload(old(self)@, old(self).pos as int, tars_type, 1, true) {
                Ok(n) => r matches Ok(v) && v == n,
                Err(e) => r == Err::<i8, DecodeErr>(e),
            },
    {
        match tars_type {
            TarsTypeMark::EnZero => Ok(0),
            TarsTypeMark::EnInt8 => self.take_i8(),
            _ => Err(DecodeErr::MisMatchTarsTypeErr),
        }
    }

    /// Reads the payload at the cursor as a signed number of 16 bits: a
    /// narrower number on the wire is widened, a wider one refused.
    fn int16_payload(&mut self, tars_type: TarsTypeMark) -> (r: Result<i16, DecodeErr>)
        requires
            old(self).wf(),
        ensures
            final(self).wf(),
            final(self)@ == old(self)@,
            match spec_int_payload(old(self)@, old(self).pos as int, tars_type, 2, true) {
                Ok(n) => r matches Ok(v) && v == n,
                Err(e) => r == Err::<i16, DecodeErr>(e),
            },
    {
        match tars_type {
            TarsTypeMark::EnZero => Ok(0),
            TarsTypeMark::EnInt8 => {
                let v = self.take_i8()?;
                Ok(v as i16)
            },
            TarsTypeMark::EnInt16 => self.take_i16(),
            _ => Err(DecodeErr::MisMatchTarsTypeErr),
        }
    }

    /// Reads the payload at the cursor as a signed number of 32 bits: a
    /// narrower number on the wire is widened, a wider one refused.
    fn int32_payload(&mut self, tars_type: TarsTypeMark) -> (r: Result<i32, DecodeErr>)
        requires
            old(self).wf(),
        ensures
            final(self).wf(),
            final(self)@ == old(self)@,
            match spec_int_payload(old(self)@, old(self).pos as int, tars_type, 4, true) {
                Ok(n) => r matches Ok(v) && v == n,
                Err(e) => r == Err::<i32, DecodeErr>(e),
            },
    {
        match tars_type {
            TarsTypeMark::EnZero => Ok(0),
            TarsTypeMark::EnInt8 => {
                let v = self.take_i8()?;
                Ok(v as i32)
            },
            TarsTypeMark::EnInt16 => {
                let v = self.take_i16()?;
                Ok(v as i32)
            },
            TarsTypeMark::EnInt32 => self.take_i32(),
            _ => Err(DecodeErr::MisMatchTarsTypeErr),
        }
    }

    /// Reads the payload at the cursor as a signed number of 64 bits: a
    /// narrower number on the wire is widened, a wider one refused.
    fn int64_payload(&mut self, tars_type: TarsTypeMark) -> (r: Result<i64, DecodeErr>)
        requires
            old(self).wf(),
        ensures
            final(self).wf(),
            final(self)@ == old(self)@,
            match spec_int_payload(old(self)@, old(self).pos as int, tars_type, 8, true) {
                Ok(n) => r matches Ok(v) && v == n,
                Err(e) => r == Err::<i64, DecodeErr>(e),
            },
    {
        match tars_type {
            TarsTypeMark::EnZero => Ok(0),
            TarsTypeMark::EnInt8 => {
                let v = self.take_i8()?;
                Ok(v as i64)
            },
            TarsTypeMark::EnInt16 => {
                let v = self.take_i16()?;
                Ok(v as i64)
            },
            TarsTypeMark::EnInt32 => {
                let v = self.take_i32()?;
                Ok(v as i64)
            },
            TarsTypeMark::EnInt64 => self.take_i64(),
            _ => Err(DecodeErr::MisMatchTarsTypeErr),
        }
    }

    /// Reads the payload at the cursor as an unsigned number of 8 bits: a
    /// narrower number on the wire is widened, a wider one refused.
    fn uint8_payload(&mut self, tars_type: TarsTypeMark) -> (r: Result<u8, DecodeErr>)
        requires
            old(self).wf(),
        ensures
            final(self).wf(),
            final(self)@ == old(self)@,
            match spec_int_payload(old(self)@, old(self).pos as int, tars_type, 1, false) {
                Ok(n) => r matches Ok(v) && v == n,
                Err(e) => r == Err::<u8, DecodeErr>(e),
            },
    {
        match tars_type {
            TarsTypeMark::EnZero => Ok(0),
            TarsTypeMark::EnInt8 => self.take_u8(),
            _ => Err(DecodeErr::MisMatchTarsTypeErr),
        }
    }

    /// Reads the payload at the cursor as an unsigned number of 16 bits: a
    /// narrower number on the wire is widened, a wider one refused.
    fn uint16_payload(&mut self, tars_type: TarsTypeMark) -> (r: Result<u16, DecodeErr>)
        requires
            old(self).wf(),
        ensures
            final(self).wf(),
            final(self)@ == old(self)@,
            match spec_int_payload(old(self)@, old(self).pos as int, tars_type, 2, false) {
                Ok(n) => r matches Ok(v) && v == n,
                Err(e) => r == Err::<u16, DecodeErr>(e),
            },
    {
        match tars_type {
            TarsTypeMark::EnZero => Ok(0),
            TarsTypeMark::EnInt8 => {
                let v = self.take_u8()?;
                Ok(v as u16)
            },
            TarsTypeMark::EnInt16 => self.take_u16(),
            _ => Err(DecodeErr::MisMatchTarsTypeErr),
        }
    }

    /// Reads the payload at the cursor as an unsigned number of 32 bits: a
    /// narrower number on the wire is widened, a wider one refused.
    fn uint32_payload(&mut self, tars_type: TarsTypeMark) -> (r: Result<u32, DecodeErr>)
        requires
            old(self).wf(),
        ensures
            final(self).wf(),
            final(self)@ == old(self)@,
            match spec_int_payload(old(self)@, old(self).pos as int, tars_type, 4, false) {
                Ok(n) => r matches Ok(v) && v == n,
                Err(e) => r == Err::<u32, DecodeErr>(e),
            },
    {
        match tars_type {
            TarsTypeMark::EnZero => Ok(0),
            TarsTypeMark::EnInt8 => {
                let v = self.take_u8()?;
                Ok(v as u32)
            },
            TarsTypeMark::EnInt16 => {
                let v = self.take_u16()?;
                Ok(v as u32)
            },
            TarsTypeMark::EnInt32 => self.take_u32(),
            _ => Err(DecodeErr::MisMatchTarsTypeErr),
        }
    }

    /// Reads the payload at the cursor as an unsigned number of 64 bits: a
    /// narrower number on the wire is widened, a wider one refused.
    fn uint64_payload(&mut self, tars_type: TarsTypeMark) -> (r: Result<u64, DecodeErr>)
        requires
            old(self).wf(),
        ensures
            final(self).wf(),
            final(self)@ == old(self)@,
            match spec_int_payload(old(self)@, old(self).pos as int, tars_type, 8, false) {
                Ok(n) => r matches Ok(v) && v == n,
                Err(e) => r == Err::<u64, DecodeErr>(e),
            },
    {
        match tars_type {
            TarsTypeMark::EnZero => Ok(0),
            TarsTypeMark::EnInt8 => {
                let v = self.take_u8()?;
                Ok(v as u64)
            },
            TarsTypeMark::EnInt16 => {
                let v = self.take_u16()?;
                Ok(v as u64)
            },
            TarsTypeMark::EnInt32 => {
                let v = self.take_u32()?;
                Ok(v as u64)
            },
            TarsTypeMark::EnInt64 => self.take_u64(),
            _ => Err(DecodeErr::MisMatchTarsTypeErr),
        }
    }

    /// Reads the payload at the cursor as a boolean: a signed number of 8
    /// bits, `true` unless it is 0.
    fn boolean_payload(&mut self, tars_type: TarsTypeMark) -> (r: Result<bool, DecodeErr>)
        requires
            old(self).wf(),
        ensures
            final(self).wf(),
            final(self)@ == old(self)@,
            match spec_int_payload(old(self)@, old(self).pos as int, tars_type, 1, true) {
                Ok(n) => r == Ok::<bool, DecodeErr>(n != 0),
                Err(e) => r == Err::<bool, DecodeErr>(e),
            },
    {
        let v = self.int8_payload(tars_type)?;
        Ok(v != 0)
    }

    /// Reads the payload at the cursor as the bits of a 32-bit float.
    fn float_payload(&mut self, tars_type: TarsTypeMark) -> (r: Result<TarsFloat, DecodeErr>)
        requires
            old(self).wf(),
        ensures
            final(self).wf(),
            final(self)@ == old(self)@,
            match spec_float_payload(
                old(self)@,
                old(self).pos as int,
                tars_type,
                TarsTypeMark::EnFloat,
                4,
            ) {
                Ok(n) => r matches Ok(v) && v.bits == n,
                Err(e) => r == Err::<TarsFloat, DecodeErr>(e),
            },
    {
        match tars_type {
            TarsTypeMark::EnZero => Ok(TarsFloat { bits: 0 }),
            TarsTypeMark::EnFloat => {
                let bits = self.take_u32()?;
                Ok(TarsFloat { bits })
            },
            _ => Err(DecodeErr::MisMatchTarsTypeErr),
        }
    }

    /// Reads the payload at the cursor as the bits of a 64-bit float.
    fn double_payload(&mut self, tars_type: TarsTypeMark) -> (r: Result<TarsDouble, DecodeErr>)
        requires
            old(self).wf(),
        ensures
            final(self).wf(),
            final(self)@ == old(self)@,
            match spec_float_payload(
                old(self)@,
                old(self).pos as int,
                tars_type,
                TarsTypeMark::EnDouble,
                8,
            ) {
                Ok(n) => r matches Ok(v) && v.bits == n,
                Err(e) => r == Err::<TarsDouble, DecodeErr>(e),
            },
    {
        match tars_type {
            TarsTypeMark::EnZero => Ok(TarsDouble { bits: 0 }),
            TarsTypeMark::EnDouble => {
                let bits = self.take_u64()?;
                Ok(TarsDouble { bits })
            },
            _ => Err(DecodeErr::MisMatchTarsTypeErr),
        }
    }

    /// Hands out the bytes that a count of `width` bytes announces, and moves
    /// the cursor past them.
    fn take_counted(&mut self, width: usize) -> (r: Result<Bytes, DecodeErr>)
        requires
            old(self).wf(),
            width == 1 || width == 4,
        ensures
            final(self).wf(),
            final(self)@ == old(self)@,
            match spec_counted(old(self)@, old(self).pos as int, width as nat) {
                Ok(part) => r matches Ok(b) && bytes_contents(b) == part,
                Err(e) => r matches Err(e2) && e2 == e,
            },
    {
        let size: usize = if width == 1 {
            self.take_u8()? as usize
        } else {
            self.take_u32()? as usize
        };
        self.take_then_advance(size)
    }

    /// Reads the payload at the cursor as a string. Bytes that are not valid
    /// UTF-8 do not fail: they are replaced.
    fn string_payload(&mut self, tars_type: TarsTypeMark) -> (r: Result<String, DecodeErr>)
        requires
            old(self).wf(),
        ensures
            final(self).wf(),
            final(self)@ == old(self)@,
            string_decoded(spec_string_payload(old(self)@, old(self).pos as int, tars_type), r),
    {
        match tars_type {
            TarsTypeMark::EnString1 => {
                let field_buf = self.take_counted(1)?;
                Ok(string_from_utf8_lossy(bytes_as_slice(&field_buf)))
            },
            TarsTypeMark::EnString4 => {
                let field_buf = self.take_counted(4)?;
                Ok(string_from_utf8_lossy(bytes_as_slice(&field_buf)))
            },
            _ => Err(DecodeErr::MisMatchTarsTypeErr),
        }
    }

    /// Reads the payload at the cursor as a simple list of bytes.
    fn bytes_payload(&mut self, tars_type: TarsTypeMark) -> (r: Result<Bytes, DecodeErr>)
        requires
            old(self).wf(),
        ensures
            final(self).wf(),
            final(self)@ == old(self)@,
            bytes_decoded(spec_blob_payload(old(self)@, old(self).pos as int, tars_type), r),
    {
        match tars_type {
            TarsTypeMark::EnSimplelist => {
                let head = self.take_head()?;
                match head.tars_type {
                    TarsTypeMark::EnInt8 => self.take_counted(4),
                    _ => Err(DecodeErr::WrongSimpleListTarsTypeErr),
                }
            },
            _ => Err(DecodeErr::MisMatchTarsTypeErr),
        }
    }
}

/// Whether `r` is the string of the bytes `raw`, or the error in their place.
pub open spec fn string_decoded(raw: Result<Seq<u8>, DecodeErr>, r: Result<String, DecodeErr>) -> bool {
    match raw {
        Ok(bytes) => r matches Ok(s) && s@ == lossy_text(bytes),
        Err(e) => r matches Err(e2) && e2 == e,
    }
}

/// Whether `r` holds the bytes `raw`, or the error in their place.
pub open spec fn bytes_decoded(raw: Result<Seq<u8>, DecodeErr>, r: Result<Bytes, DecodeErr>) -> bool {
    match raw {
        Ok(bytes) => r matches Ok(b) && bytes_contents(b) == bytes,
        Err(e) => r matches Err(e2) && e2 == e,
    }
}

/// The required reads of the simple kinds. Each scans the region from its
/// start for the tag; a region without the tag gives `TagNotFoundErr`.
pub trait TarsDecodeSimpleTrait {
    fn read_int8(&mut self, tag: u8) -> Result<i8, DecodeErr>;

    fn read_boolean(&mut self, tag: u8) -> Result<bool, DecodeErr>;

    fn read_int16(&mut self, tag: u8) -> Result<i16, DecodeErr>;

    fn read_int32(&mut self, tag: u8) -> Result<i32, DecodeErr>;

    fn read_int64(&mut self, tag: u8) -> Result<i64, DecodeErr>;

    fn read_uint8(&mut self, tag: u8) -> Result<u8, DecodeErr>;

    fn read_uint16(&mut self, tag: u8) -> Result<u16, DecodeErr>;

    fn read_uint32(&mut self, tag: u8) -> Result<u32, DecodeErr>;

    fn read_uint64(&mut self, tag: u8) -> Result<u64, DecodeErr>;

    fn read_float(&mut self, tag: u8) -> Result<TarsFloat, DecodeErr>;

    fn read_double(&mut self, tag: u8) -> Result<TarsDouble, DecodeErr>;

    fn read_string(&mut self, tag: u8) -> Result<String, DecodeErr>;

    fn read_bytes(&mut self, tag: u8) -> Result<Bytes, DecodeErr>;
}

impl TarsDecodeSimpleTrait for TarsDecoder {
    /// Reads the field `tag` as a signed number of 8 bits.
    fn read_int8(&mut self, tag: u8) -> (r: Result<i8, DecodeErr>)
        ensures
            final(self)@ == old(self)@,
            match spec_read_int(old(self)@, tag, 1, true) {
                Ok(n) => r matches Ok(v) && v == n,
                Err(e) => r == Err::<i8, DecodeErr>(e),
            },
    {
        let head = self.skip_to_tag(tag)?;
        self.int8_payload(head.tars_type)
    }

    /// Reads the field `tag` as a boolean: as a signed number of 8 bits,
    /// `true` unless it is 0.
    fn read_boolean(&mut self, tag: u8) -> (r: Result<bool, DecodeErr>)
        ensures
            final(self)@ == old(self)@,
            match spec_read_int(old(self)@, tag, 1, true) {
                Ok(n) => r == Ok::<bool, DecodeErr>(n != 0),
                Err(e) => r == Err::<bool, DecodeErr>(e),
            },
    {
        let head = self.skip_to_tag(tag)?;
        self.boolean_payload(head.tars_type)
    }

    /// Reads the field `tag` as a signed number of 16 bits.
    fn read_int16(&mut self, tag: u8) -> (r: Result<i16, DecodeErr>)
        ensures
            final(self)@ == old(self)@,
            match spec_read_int(old(self)@, tag, 2, true) {
                Ok(n) => r matches Ok(v) && v == n,
                Err(e) => r == Err::<i16, DecodeErr>(e),
            },
    {
        let head = self.skip_to_tag(tag)?;
        self.int16_payload(head.tars_type)
    }

    /// Reads the field `tag` as a signed number of 32 bits.
    fn read_int32(&mut self, tag: u8) -> (r: Result<i32, DecodeErr>)
        ensures
            final(self)@ == old(self)@,
            match spec_read_int(old(self)@, tag, 4, true) {
                Ok(n) => r matches Ok(v) && v == n,
                Err(e) => r == Err::<i32, DecodeErr>(e),
            },
    {
        let head = self.skip_to_tag(tag)?;
        self.int32_payload(head.tars_type)
    }

    /// Reads the field `tag` as a signed number of 64 bits.
    fn read_int64(&mut self, tag: u8) -> (r: Result<i64, DecodeErr>)
        ensures
            final(self)@ == old(self)@,
            match spec_read_int(old(self)@, tag, 8, true) {
                Ok(n) => r matches Ok(v) && v == n,
                Err(e) => r == Err::<i64, DecodeErr>(e),
            },
    {
        let head = self.skip_to_tag(tag)?;
        self.int64_payload(head.tars_type)
    }

    /// Reads the field `tag` as an unsigned number of 8 bits.
    fn read_uint8(&mut self, tag: u8) -> (r: Result<u8, DecodeErr>)
        ensures
            final(self)@ == old(self)@,
            match spec_read_int(old(self)@, tag, 1, false) {
                Ok(n) => r matches Ok(v) && v == n,
                Err(e) => r == Err::<u8, DecodeErr>(e),
            },
    {
        let head = self.skip_to_tag(tag)?;
        self.uint8_payload(head.tars_type)
    }

    /// Reads the field `tag` as an unsigned number of 16 bits.
    fn read_uint16(&mut self, tag: u8) -> (r: Result<u16, DecodeErr>)
        ensures
            final(self)@ == old(self)@,
            match spec_read_int(old(self)@, tag, 2, false) {
                Ok(n) => r matches Ok(v) && v == n,
                Err(e) => r == Err::<u16, DecodeErr>(e),
            },
    {
        let head = self.skip_to_tag(tag)?;
        self.uint16_payload(head.tars_type)
    }

    /// Reads the field `tag` as an unsigned number of 32 bits.
    fn read_uint32(&mut self, tag: u8) -> (r: Result<u32, DecodeErr>)
        ensures
            final(self)@ == old(self)@,
            match spec_read_int(old(self)@, tag, 4, false) {
                Ok(n) => r matches Ok(v) && v == n,
                Err(e) => r == Err::<u32, DecodeErr>(e),
            },
    {
        let head = self.skip_to_tag(tag)?;
        self.uint32_payload(head.tars_type)
    }

    /// Reads the field `tag` as an unsigned number of 64 bits.
    fn read_uint64(&mut self, tag: u8) -> (r: Result<u64, DecodeErr>)
        ensures
            final(self)@ == old(self)@,
            match spec_read_int(old(self)@, tag, 8, false) {
                Ok(n) => r matches Ok(v) && v == n,
                Err(e) => r == Err::<u64, DecodeErr>(e),
            },
    {
        let head = self.skip_to_tag(tag)?;
        self.uint64_payload(head.tars_type)
    }

    /// Reads the field `tag` as a 32-bit float, handed back as its bits.
    fn read_float(&mut self, tag: u8) -> (r: Result<TarsFloat, DecodeErr>)
        ensures
            final(self)@ == old(self)@,
            match spec_read_float(old(self)@, tag, TarsTypeMark::EnFloat, 4) {
                Ok(n) => r matches Ok(v) && v.bits == n,
                Err(e) => r == Err::<TarsFloat, DecodeErr>(e),
            },
    {
        let head = self.skip_to_tag(tag)?;
        self.float_payload(head.tars_type)
    }

    /// Reads the field `tag` as a 64-bit float, handed back as its bits.
    fn read_double(&mut self, tag: u8) -> (r: Result<TarsDouble, DecodeErr>)
        ensures
            final(self)@ == old(self)@,
            match spec_read_float(old(self)@, tag, TarsTypeMark::EnDouble, 8) {
                Ok(n) => r matches Ok(v) && v.bits == n,
                Err(e) => r == Err::<TarsDouble, DecodeErr>(e),
            },
    {
        let head = self.skip_to_tag(tag)?;
        self.double_payload(head.tars_type)
    }

    /// Reads the field `tag` as a string.
    fn read_string(&mut self, tag: u8) -> (r: Result<String, DecodeErr>)
        ensures
            final(self)@ == old(self)@,
            string_decoded(spec_read_string(old(self)@, tag), r),
    {
        let head = self.skip_to_tag(tag)?;
        self.string_payload(head.tars_type)
    }

    /// Reads the field `tag` as a simple list of bytes.
    fn read_bytes(&mut self, tag: u8) -> (r: Result<Bytes, DecodeErr>)
        ensures
            final(self)@ == old(self)@,
            bytes_decoded(spec_read_blob(old(self)@, tag), r),
    {
        let head = self.skip_to_tag(tag)?;
        self.bytes_payload(head.tars_type)
    }
}

impl TarsDecoder {
    /// A decoder of the region that holds a copy of the bytes of `buf`.
    pub fn from_slice(buf: &[u8]) -> (decoder: TarsDecoder)
        ensures
            decoder@ == buf@,
    {
        TarsDecoder { buf: bytes_copy_from_slice(buf), pos: 0 }
    }

    /// A decoder of the region that holds the bytes of `buf`.
    pub fn from_vec(buf: Vec<u8>) -> (decoder: TarsDecoder)
        ensures
            decoder@ == buf@,
    {
        TarsDecoder { buf: bytes_from_vec(buf), pos: 0 }
    }
}

impl<'a> From<&'a [u8]> for TarsDecoder {
    fn from(buf: &'a [u8]) -> (decoder: Self)
        ensures
            decoder@ == buf@,
    {
        TarsDecoder::from_slice(buf)
    }
}

impl<'a> From<&'a Bytes> for TarsDecoder {
    fn from(buf: &'a Bytes) -> (decoder: Self)
        ensures
            decoder@ == bytes_contents(*buf),
    {
        TarsDecoder::from_bytes(buf)
    }
}

impl From<Vec<u8>> for TarsDecoder {
    fn from(buf: Vec<u8>) -> (decoder: Self)
        ensures
            decoder@ == buf@,
    {
        TarsDecoder::from_vec(buf)
    }
}

/// Two decoders of the same bytes need not be the same value, so `from` has no
/// spec function to obey: its contract is the `ensures` of each impl above.
impl<'a> FromSpecImpl<&'a [u8]> for TarsDecoder {
    open spec fn obeys_from_spec() -> bool {
        false
    }

    open spec fn from_spec(buf: &'a [u8]) -> Self {
        arbitrary()
    }
}

impl<'a> FromSpecImpl<&'a Bytes> for TarsDecoder {
    open spec fn obeys_from_spec() -> bool {
        false
    }

    open spec fn from_spec(buf: &'a Bytes) -> Self {
        arbitrary()
    }
}

impl FromSpecImpl<Vec<u8>> for TarsDecoder {
    open spec fn obeys_from_spec() -> bool {
        false
    }

    open spec fn from_spec(buf: Vec<u8>) -> Self {
        arbitrary()
    }
}

// ---------------------------------------------------------------------------
// The values that can be read
// ---------------------------------------------------------------------------

/// A value that is read from one field. This library implements the trait for
/// the value kinds of the format; a type of the caller that is read as a
/// nested record implements `StructDecodeFromTars` and has this trait from it.
///
/// The spec function says which results the read may give. For the kinds of
/// this library it admits exactly one result for each region and tag; for a
/// type of the caller it admits whatever its `decode_from_tars` gives.
pub trait DecodeFromTars: Sized {
    /// Whether `r` is what reading the field `tag` of `region` gives.
    open spec fn tars_decoded(region: Seq<u8>, tag: u8, r: Result<Self, DecodeErr>) -> bool {
        true
    }

    /// Reads the field `tag` of the region of `decoder`. The region stays as
    /// it is.
    fn decode_from_tars(decoder: &mut TarsDecoder, tag: u8) -> (r: Result<Self, DecodeErr>)
        ensures
            final(decoder)@ == old(decoder)@,
            Self::tars_decoded(old(decoder)@, tag, r),
    ;
}

/// A record: a type of the caller that reads its own fields, each by its own
/// tag, from a decoder whose region is the fields of the record.
pub trait StructDecodeFromTars: Sized {
    /// Whether `r` is what reading a record from the fields `region` gives.
    open spec fn tars_body_decoded(region: Seq<u8>, r: Result<Self, DecodeErr>) -> bool {
        true
    }

    /// Reads a record from the region of `decoder`.
    fn struct_decode_from(decoder: &mut TarsDecoder) -> (r: Result<Self, DecodeErr>)
        ensures
            Self::tars_body_decoded(old(decoder)@, r),
    ;
}

impl DecodeFromTars for i8 {
    open spec fn tars_decoded(region: Seq<u8>, tag: u8, r: Result<Self, DecodeErr>) -> bool {
        match spec_read_int(region, tag, 1, true) {
            Ok(n) => r matches Ok(v) && v == n,
            Err(e) => r == Err::<i8, DecodeErr>(e),
        }
    }

    fn decode_from_tars(decoder: &mut TarsDecoder, tag: u8) -> (r: Result<Self, DecodeErr>) {
        decoder.read_int8(tag)
    }
}

impl DecodeFromTars for i16 {
    open spec fn tars_decoded(region: Seq<u8>, tag: u8, r: Result<Self, DecodeErr>) -> bool {
        match spec_read_int(region, tag, 2, true) {
            Ok(n) => r matches Ok(v) && v == n,
            Err(e) => r == Err::<i16, DecodeErr>(e),
        }
    }

    fn decode_from_tars(decoder: &mut TarsDecoder, tag: u8) -> (r: Result<Self, DecodeErr>) {
        decoder.read_int16(tag)
    }
}

impl DecodeFromTars for i32 {
    open spec fn tars_decoded(region: Seq<u8>, tag: u8, r: Result<Self, DecodeErr>) -> bool {
        match spec_read_int(region, tag, 4, true) {
            Ok(n) => r matches Ok(v) && v == n,
            Err(e) => r == Err::<i32, DecodeErr>(e),
        }
    }

    fn decode_from_tars(decoder: &mut TarsDecoder, tag: u8) -> (r: Result<Self, DecodeErr>) {
        decoder.read_int32(tag)
    }
}

impl DecodeFromTars for i64 {
    open spec fn tars_decoded(region: Seq<u8>, tag: u8, r: Result<Self, DecodeErr>) -> bool {
        match spec_read_int(region, tag, 8, true) {
            Ok(n) => r matches Ok(v) && v == n,
            Err(e) => r == Err::<i64, DecodeErr>(e),
        }
    }

    fn decode_from_tars(decoder: &mut TarsDecoder, tag: u8) -> (r: Result<Self, DecodeErr>) {
        decoder.read_int64(tag)
    }
}

impl DecodeFromTars for u8 {
    open spec fn tars_decoded(region: Seq<u8>, tag: u8, r: Result<Self, DecodeErr>) -> bool {
        match spec_read_int(region, tag, 1, false) {
            Ok(n) => r matches Ok(v) && v == n,
            Err(e) => r == Err::<u8, DecodeErr>(e),
        }
    }

    fn decode_from_tars(decoder: &mut TarsDecoder, tag: u8) -> (r: Result<Self, DecodeErr>) {
        decoder.read_uint8(tag)
    }
}

impl DecodeFromTars for u16 {
    open spec fn tars_decoded(region: Seq<u8>, tag: u8, r: Result<Self, DecodeErr>) -> bool {
        match spec_read_int(region, tag, 2, false) {
            Ok(n) => r matches Ok(v) && v == n,
            Err(e) => r == Err::<u16, DecodeErr>(e),
        }
    }

    fn decode_from_tars(decoder: &mut TarsDecoder, tag: u8) -> (r: Result<Self, DecodeErr>) {
        decoder.read_uint16(tag)
    }
}

impl DecodeFromTars for u32 {
    open spec fn tars_decoded(region: Seq<u8>, tag: u8, r: Result<Self, DecodeErr>) -> bool {
        match spec_read_int(region, tag, 4, false) {
            Ok(n) => r matches Ok(v) && v == n,
            Err(e) => r == Err::<u32, DecodeErr>(e),
        }
    }

    fn decode_from_tars(decoder: &mut TarsDecoder, tag: u8) -> (r: Result<Self, DecodeErr>) {
        decoder.read_uint32(tag)
    }
}

impl DecodeFromTars for u64 {
    open spec fn tars_decoded(region: Seq<u8>, tag: u8, r: Result<Self, DecodeErr>) -> bool {
        match spec_read_int(region, tag, 8, false) {
            Ok(n) => r matches Ok(v) && v == n,
            Err(e) => r == Err::<u64, DecodeErr>(e),
        }
    }

    fn decode_from_tars(decoder: &mut TarsDecoder, tag: u8) -> (r: Result<Self, DecodeErr>) {
        decoder.read_uint64(tag)
    }
}

impl DecodeFromTars for bool {
    open spec fn tars_decoded(region: Seq<u8>, tag: u8, r: Result<Self, DecodeErr>) -> bool {
        match spec_read_int(region, tag, 1, true) {
            Ok(n) => r == Ok::<bool, DecodeErr>(n != 0),
            Err(e) => r == Err::<bool, DecodeErr>(e),
        }
    }

    fn decode_from_tars(decoder: &mut TarsDecoder, tag: u8) -> (r: Result<Self, DecodeErr>) {
        decoder.read_boolean(tag)
    }
}

impl DecodeFromTars for TarsFloat {
    open spec fn tars_decoded(region: Seq<u8>, tag: u8, r: Result<Self, DecodeErr>) -> bool {
        match spec_read_float(region, tag, TarsTypeMark::EnFloat, 4) {
            Ok(n) => r matches Ok(v) && v.bits == n,
            Err(e) => r == Err::<TarsFloat, DecodeErr>(e),
        }
    }

    fn decode_from_tars(decoder: &mut TarsDecoder, tag: u8) -> (r: Result<Self, DecodeErr>) {
        decoder.read_float(tag)
    }
}

impl DecodeFromTars for TarsDouble {
    open spec fn tars_decoded(region: Seq<u8>, tag: u8, r: Result<Self, DecodeErr>) -> bool {
        match spec_read_float(region, tag, TarsTypeMark::EnDouble, 8) {
            Ok(n) => r matches Ok(v) && v.bits == n,
            Err(e) => r == Err::<TarsDouble, DecodeErr>(e),
        }
    }

    fn decode_from_tars(decoder: &mut TarsDecoder, tag: u8) -> (r: Result<Self, DecodeErr>) {
        decoder.read_double(tag)
    }
}

impl DecodeFromTars for String {
    open spec fn tars_decoded(region: Seq<u8>, tag: u8, r: Result<Self, DecodeErr>) -> bool {
        string_decoded(spec_read_string(region, tag), r)
    }

    fn decode_from_tars(decoder: &mut TarsDecoder, tag: u8) -> (r: Result<Self, DecodeErr>) {
        decoder.read_string(tag)
    }
}

impl DecodeFromTars for Bytes {
    open spec fn tars_decoded(region: Seq<u8>, tag: u8, r: Result<Self, DecodeErr>) -> bool {
        bytes_decoded(spec_read_blob(region, tag), r)
    }

    fn decode_from_tars(decoder: &mut TarsDecoder, tag: u8) -> (r: Result<Self, DecodeErr>) {
        decoder.read_bytes(tag)
    }
}

/// The signed 8-bit number that a byte of a simple list stands for.
pub open spec fn byte_i8(b: u8) -> i8 {
    (if b >= 128 { b - 256 } else { b as int }) as i8
}

/// The boolean that a byte of a simple list stands for: `true` unless it is 0.
pub open spec fn byte_bool(b: u8) -> bool {
    b != 0
}

impl DecodeFromTars for Vec<u8> {
    open spec fn tars_decoded(region: Seq<u8>, tag: u8, r: Result<Self, DecodeErr>) -> bool {
        match spec_read_blob(region, tag) {
            Ok(raw) => r matches Ok(v) && v@ == raw,
            Err(e) => r matches Err(e2) && e2 == e,
        }
    }

    fn decode_from_tars(decoder: &mut TarsDecoder, tag: u8) -> (r: Result<Self, DecodeErr>) {
        let raw = decoder.read_bytes(tag)?;
        Ok(slice_to_vec(bytes_as_slice(&raw)))
    }
}

impl DecodeFromTars for Vec<i8> {
    open spec fn tars_decoded(region: Seq<u8>, tag: u8, r: Result<Self, DecodeErr>) -> bool {
        match spec_read_blob(region, tag) {
            Ok(raw) => r matches Ok(v) && v@ == raw.map_values(|b: u8| byte_i8(b)),
            Err(e) => r matches Err(e2) && e2 == e,
        }
    }

    fn decode_from_tars(decoder: &mut TarsDecoder, tag: u8) -> (r: Result<Self, DecodeErr>) {
        let raw = decoder.read_bytes(tag)?;
        let bytes = bytes_as_slice(&raw);
        let mut v: Vec<i8> = Vec::new();
        let mut i: usize = 0;
        while i < bytes.len()
            invariant
                i <= bytes.len(),
                v@ == bytes@.take(i as int).map_values(|b: u8| byte_i8(b)),
            decreases bytes.len() - i,
        {
            let b = bytes[i];
            let item: i8 = if b >= 128 {
                (b as i16 - 256) as i8
            } else {
                b as i8
            };
            v.push(item);
            proof {
                assert(v@ =~= bytes@.take(i + 1).map_values(|b: u8| byte_i8(b)));
            }
            i = i + 1;
        }
        proof {
            assert(bytes@.take(i as int) =~= bytes@);
        }
        Ok(v)
    }
}

impl DecodeFromTars for Vec<bool> {
    open spec fn tars_decoded(region: Seq<u8>, tag: u8, r: Result<Self, DecodeErr>) -> bool {
        match spec_read_blob(region, tag) {
            Ok(raw) => r matches Ok(v) && v@ == raw.map_values(|b: u8| byte_bool(b)),
            Err(e) => r matches Err(e2) && e2 == e,
        }
    }

    fn decode_from_tars(decoder: &mut TarsDecoder, tag: u8) -> (r: Result<Self, DecodeErr>) {
        let raw = decoder.read_bytes(tag)?;
        let bytes = bytes_as_slice(&raw);
        let mut v: Vec<bool> = Vec::new();
        let mut i: usize = 0;
        while i < bytes.len()
            invariant
                i <= bytes.len(),
                v@ == bytes@.take(i as int).map_values(|b: u8| byte_bool(b)),
            decreases bytes.len() - i,
        {
            v.push(bytes[i] != 0);
            proof {
                assert(v@ =~= bytes@.take(i + 1).map_values(|b: u8| byte_bool(b)));
            }
            i = i + 1;
        }
        proof {
            assert(bytes@.take(i as int) =~= bytes@);
        }
        Ok(v)
    }
}

/// An optional value is `None` where the region has no field with the tag,
/// and the value of the field where it has one.
impl<T: DecodeFromTars> DecodeFromTars for Option<T> {
    open spec fn tars_decoded(region: Seq<u8>, tag: u8, r: Result<Self, DecodeErr>) -> bool {
        if tag_absent(region, tag) {
            r matches Ok(v) && v is None
        } else {
            match r {
                Ok(Some(v)) => T::tars_decoded(region, tag, Ok(v)),
                Ok(None) => false,
                Err(e) => T::tars_decoded(region, tag, Err(e)),
            }
        }
    }

    fn decode_from_tars(decoder: &mut TarsDecoder, tag: u8) -> (r: Result<Self, DecodeErr>) {
        match decoder.locate(tag) {
            Ok(None) => Ok(None),
            _ => match T::decode_from_tars(decoder, tag) {
                Ok(v) => Ok(Some(v)),
                Err(e) => Err(e),
            },
        }
    }
}

impl TarsDecoder {
    /// Hands out a decoder of the region of a composite: the payload at the
    /// cursor must have the mark `want`.
    fn region_payload(&mut self, tars_type: TarsTypeMark, want: TarsTypeMark) -> (r: Result<
        TarsDecoder,
        DecodeErr,
    >)
        requires
            old(self).wf(),
            want == TarsTypeMark::EnList || want == TarsTypeMark::EnMaps,
        ensures
            final(self).wf(),
            final(self)@ == old(self)@,
            match spec_region_payload(old(self)@, old(self).pos as int, tars_type, want) {
                Ok(inner) => r matches Ok(d) && d@ == inner && d.wf() && d.pos == 0,
                Err(e) => r matches Err(e2) && e2 == e,
            },
    {
        if tars_type.value() != want.value() {
            return Err(DecodeErr::MisMatchTarsTypeErr);
        }
        let inner = self.take_counted(4)?;
        Ok(TarsDecoder { buf: inner, pos: 0 })
    }

    /// Hands out a decoder of the fields of a nested record: the payload at
    /// the cursor must have the mark `EnStructBegin`. The cursor moves past the
    /// struct-end header that closes the record.
    fn struct_payload(&mut self, tars_type: TarsTypeMark) -> (r: Result<TarsDecoder, DecodeErr>)
        requires
            old(self).wf(),
        ensures
            final(self).wf(),
            final(self)@ == old(self)@,
            match spec_struct_payload(old(self)@, old(self).pos as int, tars_type) {
                Ok(body) => r matches Ok(d) && d@ == body && d.wf() && d.pos == 0,
                Err(e) => r matches Err(e2) && e2 == e,
            },
    {
        match tars_type {
            TarsTypeMark::EnStructBegin => {
                let start = self.pos;
                let close = self.skip_struct_field()?;
                Ok(self.sub_decoder(start, close))
            },
            _ => Err(DecodeErr::MisMatchTarsTypeErr),
        }
    }

    /// Measures the field at the cursor and hands out a decoder of just that
    /// field, header and payload. The cursor moves past the field.
    fn take_field(&mut self) -> (r: Result<TarsDecoder, DecodeErr>)
        requires
            old(self).wf(),
        ensures
            final(self).wf(),
            final(self)@ == old(self)@,
            match spec_field_end(old(self)@, old(self).pos as int) {
                Ok(end) => r matches Ok(d) && d@ == old(self)@.subrange(old(self).pos as int, end)
                    && final(self).pos == end && old(self).pos < end,
                Err(e) => r matches Err(e2) && e2 == e,
            },
    {
        let start = self.pos;
        let head = self.take_head()?;
        proof {
            lemma_skip_field_bounds(self@, self.pos as int, head.tars_type);
        }
        self.skip_field(head.tars_type)?;
        Ok(self.sub_decoder(start, self.pos))
    }

    /// Reads the field `tag` where the region has it, and hands back `default`
    /// where it has not.
    pub fn read_optional<T: DecodeFromTars>(&mut self, tag: u8, default: T) -> (r: Result<
        T,
        DecodeErr,
    >)
        ensures
            final(self)@ == old(self)@,
            tag_absent(old(self)@, tag) ==> r == Ok::<T, DecodeErr>(default),
            !tag_absent(old(self)@, tag) ==> T::tars_decoded(old(self)@, tag, r),
    {
        match self.locate(tag) {
            Ok(None) => Ok(default),
            _ => T::decode_from_tars(self, tag),
        }
    }
}

/// A field ends after its start, within the region.
pub proof fn lemma_field_end_bounds(bytes: Seq<u8>, pos: int)
    ensures
        spec_field_end(bytes, pos) matches Ok(end) ==> 0 <= pos < end <= bytes.len(),
{
    match spec_take_head(bytes, pos) {
        Ok(head) => {
            lemma_skip_field_bounds(bytes, pos + head.len, head.tars_type);
        },
        Err(e) => {},
    }
}

/// Whether `r` is what reading the elements of a sequence gives, from the
/// position `pos` of its region on, when the elements before `pos` gave `done`.
/// At the end of the region the result is `done`. Before it the next field is
/// measured, and read as an element with tag 0: where the measure or the
/// element fails, that error is the result; else the element joins `done`.
pub open spec fn items_decoded<T: DecodeFromTars>(
    inner: Seq<u8>,
    pos: int,
    done: Seq<T>,
    r: Result<Vec<T>, DecodeErr>,
) -> bool
    decreases inner.len() - pos,
    via items_decoded_decreases::<T>
{
    if pos >= inner.len() {
        r matches Ok(v) && v@ == done
    } else {
        match spec_field_end(inner, pos) {
            Err(e) => r matches Err(e2) && e2 == e,
            Ok(end) => {
                ||| (r matches Err(e2) && T::tars_decoded(
                    inner.subrange(pos, end),
                    0,
                    Err::<T, DecodeErr>(e2),
                ))
                ||| (exists|item: T| #[trigger]
                    T::tars_decoded(inner.subrange(pos, end), 0, Ok::<T, DecodeErr>(item))
                        && items_decoded(inner, end, done.push(item), r))
            },
        }
    }
}

#[via_fn]
proof fn items_decoded_decreases<T: DecodeFromTars>(
    inner: Seq<u8>,
    pos: int,
    done: Seq<T>,
    r: Result<Vec<T>, DecodeErr>,
) {
    lemma_field_end_bounds(inner, pos);
}

/// Whether `r` is what reading the entries of a mapping gives, from the
/// position `pos` of its region on, when the entries before `pos` gave the
/// mapping `done`. Each entry is two fields, the key and then the value, each
/// read with tag 0, and is put into the mapping: a value under a key that the
/// mapping has takes the place of the one that was there.
pub open spec fn entries_decoded<K: DecodeFromTars + TarsKey, V: DecodeFromTars>(
    inner: Seq<u8>,
    pos: int,
    done: Seq<(K, V)>,
    r: Result<TarsMap<K, V>, DecodeErr>,
) -> bool
    decreases inner.len() - pos,
    via entries_decoded_decreases::<K, V>
{
    if pos >= inner.len() {
        r matches Ok(v) && v@ == done
    } else {
        match spec_field_end(inner, pos) {
            Err(e) => r matches Err(e2) && e2 == e,
            Ok(mid) => {
                ||| (r matches Err(e2) && K::tars_decoded(
                    inner.subrange(pos, mid),
                    0,
                    Err::<K, DecodeErr>(e2),
                ))
                ||| (exists|key: K| #[trigger]
                    K::tars_decoded(inner.subrange(pos, mid), 0, Ok::<K, DecodeErr>(key))
                        && value_decoded(inner, mid, key, done, r))
            },
        }
    }
}

/// Whether `r` is what reading a mapping gives from the value at `pos` on,
/// when the key of that value is `key`.
pub open spec fn value_decoded<K: DecodeFromTars + TarsKey, V: DecodeFromTars>(
    inner: Seq<u8>,
    pos: int,
    key: K,
    done: Seq<(K, V)>,
    r: Result<TarsMap<K, V>, DecodeErr>,
) -> bool
    decreases inner.len() - pos, 0int,
    via value_decoded_decreases::<K, V>
{
    match spec_field_end(inner, pos) {
        Err(e) => r matches Err(e2) && e2 == e,
        Ok(end) => {
            ||| (r matches Err(e2) && V::tars_decoded(
                inner.subrange(pos, end),
                0,
                Err::<V, DecodeErr>(e2),
            ))
            ||| (exists|value: V| #[trigger]
                V::tars_decoded(inner.subrange(pos, end), 0, Ok::<V, DecodeErr>(value))
                    && entries_decoded(inner, end, map_put(done, key, value), r))
        },
    }
}

#[via_fn]
proof fn entries_decoded_decreases<K: DecodeFromTars + TarsKey, V: DecodeFromTars>(
    inner: Seq<u8>,
    pos: int,
    done: Seq<(K, V)>,
    r: Result<TarsMap<K, V>, DecodeErr>,
) {
    lemma_field_end_bounds(inner, pos);
}

#[via_fn]
proof fn value_decoded_decreases<K: DecodeFromTars + TarsKey, V: DecodeFromTars>(
    inner: Seq<u8>,
    pos: int,
    key: K,
    done: Seq<(K, V)>,
    r: Result<TarsMap<K, V>, DecodeErr>,
) {
    lemma_field_end_bounds(inner, pos);
}

/// A sequence is read from a field with the mark `EnList`: the region that the
/// field announces holds the elements, one field each.
impl<T: DecodeFromTars + TarsListItem> DecodeFromTars for Vec<T> {
    open spec fn tars_decoded(region: Seq<u8>, tag: u8, r: Result<Self, DecodeErr>) -> bool {
        match spec_read_region(region, tag, TarsTypeMark::EnList) {
            Err(e) => r matches Err(e2) && e2 == e,
            Ok(inner) => items_decoded::<T>(inner, 0, Seq::<T>::empty(), r),
        }
    }

    fn decode_from_tars(decoder: &mut TarsDecoder, tag: u8) -> (r: Result<Self, DecodeErr>) {
        let head = decoder.skip_to_tag(tag)?;
        let mut sub = decoder.region_payload(head.tars_type, TarsTypeMark::EnList)?;
        let ghost inner = sub@;
        let mut v: Vec<T> = Vec::new();
        while sub.has_remaining()
            invariant
                sub.wf(),
                sub@ == inner,
                decoder@ == old(decoder)@,
                spec_read_region(old(decoder)@, tag, TarsTypeMark::EnList) == Ok::<
                    Seq<u8>,
                    DecodeErr,
                >(inner),
                forall|r: Result<Vec<T>, DecodeErr>| #[trigger]
                    items_decoded::<T>(inner, sub.pos as int, v@, r) ==> items_decoded::<T>(
                        inner,
                        0,
                        Seq::<T>::empty(),
                        r,
                    ),
            decreases inner.len() - sub.pos,
        {
            let ghost start = sub.pos as int;
            let ghost done = v@;
            let mut element = match sub.take_field() {
                Ok(element) => element,
                Err(e) => {
                    proof {
                        assert(items_decoded::<T>(inner, start, done, Err(e)));
                    }
                    return Err(e);
                },
            };
            let ghost end = sub.pos as int;
            match T::decode_from_tars(&mut element, 0) {
                Err(e) => {
                    proof {
                        assert(items_decoded::<T>(inner, start, done, Err(e)));
                    }
                    return Err(e);
                },
                Ok(item) => {
                    proof {
                        assert forall|r: Result<Vec<T>, DecodeErr>| #[trigger]
                            items_decoded::<T>(inner, end, done.push(item), r) implies items_decoded::<
                            T,
                        >(inner, 0, Seq::<T>::empty(), r) by {
                            assert(T::tars_decoded(
                                inner.subrange(start, end),
                                0,
                                Ok::<T, DecodeErr>(item),
                            ));
                            assert(items_decoded::<T>(inner, start, done, r));
                        }
                    }
                    v.push(item);
                },
            }
        }
        proof {
            assert(items_decoded::<T>(inner, sub.pos as int, v@, Ok(v)));
        }
        Ok(v)
    }
}

/// A mapping is read from a field with the mark `EnMaps`: its entries are
/// put into a mapping in the order in which they stand in the region, so that
/// of two entries with one key the later one stays.
impl<K: DecodeFromTars + TarsKey, V: DecodeFromTars> DecodeFromTars for TarsMap<K, V> {
    open spec fn tars_decoded(region: Seq<u8>, tag: u8, r: Result<Self, DecodeErr>) -> bool {
        match spec_read_region(region, tag, TarsTypeMark::EnMaps) {
            Err(e) => r matches Err(e2) && e2 == e,
            Ok(inner) => entries_decoded::<K, V>(inner, 0, Seq::<(K, V)>::empty(), r),
        }
    }

    fn decode_from_tars(decoder: &mut TarsDecoder, tag: u8) -> (r: Result<Self, DecodeErr>)
        ensures
            r matches Ok(m) ==> m.wf(),
    {
        let head = decoder.skip_to_tag(tag)?;
        let mut sub = decoder.region_payload(head.tars_type, TarsTypeMark::EnMaps)?;
        let ghost inner = sub@;
        let mut m: TarsMap<K, V> = TarsMap::new();
        while sub.has_remaining()
            invariant
                sub.wf(),
                m.wf(),
                sub@ == inner,
                decoder@ == old(decoder)@,
                spec_read_region(old(decoder)@, tag, TarsTypeMark::EnMaps) == Ok::<
                    Seq<u8>,
                    DecodeErr,
                >(inner),
                forall|r: Result<TarsMap<K, V>, DecodeErr>| #[trigger]
                    entries_decoded::<K, V>(inner, sub.pos as int, m@, r) ==> entries_decoded::<
                        K,
                        V,
                    >(inner, 0, Seq::<(K, V)>::empty(), r),
            decreases inner.len() - sub.pos,
        {
            let ghost start = sub.pos as int;
            let ghost done = m@;
            let mut key_field = match sub.take_field() {
                Ok(field) => field,
                Err(e) => {
                    proof {
                        assert(entries_decoded::<K, V>(inner, start, done, Err(e)));
                    }
                    return Err(e);
                },
            };
            let ghost mid = sub.pos as int;
            let key = match K::decode_from_tars(&mut key_field, 0) {
                Ok(key) => key,
                Err(e) => {
                    proof {
                        assert(entries_decoded::<K, V>(inner, start, done, Err(e)));
                    }
                    return Err(e);
                },
            };
            let mut value_field = match sub.take_field() {
                Ok(field) => field,
                Err(e) => {
                    proof {
                        assert(value_decoded::<K, V>(inner, mid, key, done, Err(e)));
                        assert(entries_decoded::<K, V>(inner, start, done, Err(e)));
                    }
                    return Err(e);
                },
            };
            let ghost end = sub.pos as int;
            match V::decode_from_tars(&mut value_field, 0) {
                Err(e) => {
                    proof {
                        assert(value_decoded::<K, V>(inner, mid, key, done, Err(e)));
                        assert(entries_decoded::<K, V>(inner, start, done, Err(e)));
                    }
                    return Err(e);
                },
                Ok(value) => {
                    proof {
                        assert forall|r: Result<TarsMap<K, V>, DecodeErr>| #[trigger]
                            entries_decoded::<K, V>(
                                inner,
                                end,
                                map_put(done, key, value),
                                r,
                            ) implies entries_decoded::<K, V>(
                            inner,
                            0,
                            Seq::<(K, V)>::empty(),
                            r,
                        ) by {
                            assert(V::tars_decoded(
                                inner.subrange(mid, end),
                                0,
                                Ok::<V, DecodeErr>(value),
                            ));
                            assert(value_decoded::<K, V>(inner, mid, key, done, r));
                            assert(K::tars_decoded(
                                inner.subrange(start, mid),
                                0,
                                Ok::<K, DecodeErr>(key),
                            ));
                            assert(entries_decoded::<K, V>(inner, start, done, r));
                        }
                    }
                    m.insert(key, value);
                },
            }
        }
        proof {
            assert(entries_decoded::<K, V>(inner, sub.pos as int, m@, Ok(m)));
        }
        Ok(m)
    }
}

/// A record is read from a field with the mark `EnStructBegin`: the fields up
/// to the struct-end header that closes the record are its region.
impl<T: StructDecodeFromTars> DecodeFromTars for T {
    open spec fn tars_decoded(region: Seq<u8>, tag: u8, r: Result<Self, DecodeErr>) -> bool {
        match spec_read_struct(region, tag) {
            Err(e) => r matches Err(e2) && e2 == e,
            Ok(body) => T::tars_body_decoded(body, r),
        }
    }

    fn decode_from_tars(decoder: &mut TarsDecoder, tag: u8) -> (r: Result<Self, DecodeErr>) {
        let head = decoder.skip_to_tag(tag)?;
        let mut body = decoder.struct_payload(head.tars_type)?;
        T::struct_decode_from(&mut body)
    }
}

/// The required read of a sequence of `T`.
pub trait TarsDecodeListTrait<T> where T: DecodeFromTars {
    fn read_list(&mut self, tag: u8) -> Result<Vec<T>, DecodeErr>;
}

/// The required read of a mapping from `K` to `V`: its keys ascend, each
/// stands once, and of two entries with one key in the region the later one
/// stays.
pub trait TarsDecodeMapTrait<K, V> where K: DecodeFromTars + TarsKey, V: DecodeFromTars {
    fn read_map(&mut self, tag: u8) -> Result<TarsMap<K, V>, DecodeErr>;
}

/// The required read of a nested record `T`.
pub trait TarsDecodeStructTrait<T> where T: DecodeFromTars {
    fn read_struct(&mut self, tag: u8) -> Result<T, DecodeErr>;
}

impl<T: DecodeFromTars + TarsListItem> TarsDecodeListTrait<T> for TarsDecoder {
    /// Reads the field `tag` as a sequence, one field for each element.
    fn read_list(&mut self, tag: u8) -> (r: Result<Vec<T>, DecodeErr>)
        ensures
            final(self)@ == old(self)@,
            Vec::<T>::tars_decoded(old(self)@, tag, r),
    {
        Vec::<T>::decode_from_tars(self, tag)
    }
}

impl TarsDecodeListTrait<u8> for TarsDecoder {
    /// Reads the field `tag` as a simple list of unsigned 8-bit numbers.
    fn read_list(&mut self, tag: u8) -> (r: Result<Vec<u8>, DecodeErr>)
        ensures
            final(self)@ == old(self)@,
            Vec::<u8>::tars_decoded(old(self)@, tag, r),
    {
        Vec::<u8>::decode_from_tars(self, tag)
    }
}

impl TarsDecodeListTrait<i8> for TarsDecoder {
    /// Reads the field `tag` as a simple list of signed 8-bit numbers.
    fn read_list(&mut self, tag: u8) -> (r: Result<Vec<i8>, DecodeErr>)
        ensures
            final(self)@ == old(self)@,
            Vec::<i8>::tars_decoded(old(self)@, tag, r),
    {
        Vec::<i8>::decode_from_tars(self, tag)
    }
}

impl TarsDecodeListTrait<bool> for TarsDecoder {
    /// Reads the field `tag` as a simple list of booleans.
    fn read_list(&mut self, tag: u8) -> (r: Result<Vec<bool>, DecodeErr>)
        ensures
            final(self)@ == old(self)@,
            Vec::<bool>::tars_decoded(old(self)@, tag, r),
    {
        Vec::<bool>::decode_from_tars(self, tag)
    }
}

impl<K: DecodeFromTars + TarsKey, V: DecodeFromTars> TarsDecodeMapTrait<K, V> for TarsDecoder {
    /// Reads the field `tag` as a mapping, two fields for each entry.
    fn read_map(&mut self, tag: u8) -> (r: Result<TarsMap<K, V>, DecodeErr>)
        ensures
            final(self)@ == old(self)@,
            r matches Ok(m) ==> m.wf(),
            TarsMap::<K, V>::tars_decoded(old(self)@, tag, r),
    {
        TarsMap::<K, V>::decode_from_tars(self, tag)
    }
}

impl<T: StructDecodeFromTars> TarsDecodeStructTrait<T> for TarsDecoder {
    /// Reads the field `tag` as a nested record.
    fn read_struct(&mut self, tag: u8) -> (r: Result<T, DecodeErr>)
        ensures
            final(self)@ == old(self)@,
            T::tars_decoded(old(self)@, tag, r),
    {
        T::decode_from_tars(self, tag)
    }
}

} // verus!
