//! The laws of the wire format: what is written reads back as it was.
//!
//! The laws here are stated over the specification of the format. The encoder
//! and the decoder are verified against the same specification, so the laws
//! hold of what they do.
use crate::errors::DecodeErr;
use crate::framing::{
    lemma_extend_field_end, lemma_extend_find_tag, lemma_extend_payloads, lemma_shift_field_end,
    lemma_shift_find_tag, lemma_shift_payloads, lemma_shift_take_head, shift_found,
};
use crate::tars_decoder::Head;
use crate::tars_encoder::head_len;
use crate::tars_type::{lemma_mark_value_round_trip, TarsTypeMark};
use crate::wire::{
    be_bytes, blob_field, bool_field, double_field, float_field, head_bytes, int_field, int_mark,
    int_width, lemma_be_bytes_len, lemma_be_signed_round_trip, lemma_be_unsigned_round_trip,
    lemma_skip_field_bounds, lemma_skip_flat_bounds, max_len, pow256, region_field,
    spec_blob_payload, spec_counted, spec_field_end, spec_find_tag, spec_float_payload,
    spec_int_payload, spec_read_blob, spec_read_float, spec_read_int, spec_read_region,
    spec_read_string, spec_read_struct, spec_region_payload, spec_skip_counted, spec_skip_field,
    spec_skip_flat, spec_string_payload, spec_struct_close, spec_struct_payload, spec_take_head,
    string_field, struct_field, tag_absent, uint_field, uint_mark,
};
use vstd::prelude::*;

verus! {

/// Whether `field` is exactly one field with the tag `tag`: it starts with a
/// header that has the tag, its mark is not the one that closes a record, and
/// its payload ends where the bytes end.
pub open spec fn whole_field(field: Seq<u8>, tag: u8) -> bool {
    &&& spec_take_head(field, 0) matches Ok(head)
    &&& head.tag == tag
    &&& head.tars_type != TarsTypeMark::EnStructEnd
    &&& spec_field_end(field, 0) == Ok::<int, DecodeErr>(field.len() as int)
}

/// Whether the bytes of `region` from `pos` on are whole fields, one after the
/// other: a record's fields are such a region.
pub open spec fn whole_fields(region: Seq<u8>, pos: int) -> bool
    decreases region.len() - pos,
    via whole_fields_decreases
{
    if pos >= region.len() {
        pos == region.len()
    } else {
        &&& spec_take_head(region, pos) matches Ok(head)
        &&& head.tars_type != TarsTypeMark::EnStructEnd
        &&& spec_field_end(region, pos) matches Ok(end)
        &&& whole_fields(region, end)
    }
}

#[via_fn]
proof fn whole_fields_decreases(region: Seq<u8>, pos: int) {
    match spec_take_head(region, pos) {
        Ok(head) => {
            lemma_skip_field_bounds(region, pos + head.len, head.tars_type);
        },
        Err(e) => {},
    }
}

/// Whether the bytes of `region` from `pos` on are whole fields of which none
/// has the tag `tag`.
pub open spec fn whole_fields_without(region: Seq<u8>, pos: int, tag: u8) -> bool
    decreases region.len() - pos,
    via whole_fields_without_decreases
{
    if pos >= region.len() {
        pos == region.len()
    } else {
        &&& spec_take_head(region, pos) matches Ok(head)
        &&& head.tars_type != TarsTypeMark::EnStructEnd
        &&& head.tag != tag
        &&& spec_field_end(region, pos) matches Ok(end)
        &&& whole_fields_without(region, end, tag)
    }
}

#[via_fn]
proof fn whole_fields_without_decreases(region: Seq<u8>, pos: int, tag: u8) {
    match spec_take_head(region, pos) {
        Ok(head) => {
            lemma_skip_field_bounds(region, pos + head.len, head.tars_type);
        },
        Err(e) => {},
    }
}

// ---------------------------------------------------------------------------
// Headers
// ---------------------------------------------------------------------------

/// A tag up to 14 is packed with the mark into one byte, the tag in the high
/// nibble; a tag from 15 on takes two bytes, the first with the high nibble 15
/// above the mark, the second the tag. Reading the header gives back the tag and
/// the mark, whatever follows.
pub proof fn law_header_packing(tag: u8, mark: TarsTypeMark, rest: Seq<u8>)
    ensures
        tag <= 14 ==> head_bytes(tag, mark) == seq![(16 * tag + mark.spec_value()) as u8],
        tag >= 15 ==> head_bytes(tag, mark) == seq![(0xf0 + mark.spec_value()) as u8, tag],
        head_bytes(tag, mark).len() == head_len(tag),
        spec_take_head(head_bytes(tag, mark) + rest, 0) == Ok::<Head, DecodeErr>(
            Head { tag, tars_type: mark, len: head_len(tag) as u8 },
        ),
{
    lemma_mark_value_round_trip(mark);
    let bytes = head_bytes(tag, mark) + rest;
    let v = mark.spec_value();
    if tag < 15 {
        assert(bytes[0] == (16 * tag + v) as u8);
        assert((16 * tag + v) / 16 == tag as int);
        assert((16 * tag + v) % 16 == v as int);
    } else {
        assert(bytes[0] == (0xf0 + v) as u8);
        assert(bytes[1] == tag);
        assert((0xf0 + v) / 16 == 15);
        assert((0xf0 + v) % 16 == v as int);
    }
}

/// In a region that starts with the header of `tag`, a scan for `tag` stops at
/// that header: the payload starts right after it.
pub proof fn lemma_find_first(tag: u8, mark: TarsTypeMark, rest: Seq<u8>)
    ensures
        spec_find_tag(head_bytes(tag, mark) + rest, 0, tag) == Ok::<(Head, int), DecodeErr>(
            (Head { tag, tars_type: mark, len: head_len(tag) as u8 }, head_len(tag)),
        ),
{
    law_header_packing(tag, mark, rest);
}

// ---------------------------------------------------------------------------
// What is written is one whole field, and reads back as the value
// ---------------------------------------------------------------------------

/// The powers of 256 that the four integer widths need.
pub proof fn lemma_pow256_values()
    ensures
        pow256(1) == 0x100,
        pow256(2) == 0x1_0000,
        pow256(4) == 0x1_0000_0000,
        pow256(8) == 0x1_0000_0000_0000_0000,
{
    reveal_with_fuel(pow256, 9);
}

/// A signed number is written as one whole field, and a read of any width
/// that holds the number gives the number back.
pub proof fn law_int_round_trip(tag: u8, v: int, width: nat)
    requires
        width == 1 || width == 2 || width == 4 || width == 8,
        -pow256(width) <= 2 * v < pow256(width),
    ensures
        whole_field(int_field(tag, v), tag),
        spec_read_int(int_field(tag, v), tag, width, true) == Ok::<int, DecodeErr>(v),
{
    reveal(spec_skip_field);
    lemma_pow256_values();
    let mark = int_mark(v);
    let w = int_width(mark);
    let payload = be_bytes(v, w);
    let field = int_field(tag, v);
    lemma_be_bytes_len(v, w);
    law_header_packing(tag, mark, payload);
    lemma_find_first(tag, mark, payload);
    let hl = head_len(tag);
    if v != 0 {
        assert(field.subrange(hl, hl + w) =~= payload);
        lemma_be_signed_round_trip(v, w);
    }
}

/// An unsigned number is written as one whole field, and a read of any width
/// that holds the number gives the number back.
pub proof fn law_uint_round_trip(tag: u8, v: int, width: nat)
    requires
        width == 1 || width == 2 || width == 4 || width == 8,
        0 <= v < pow256(width),
    ensures
        whole_field(uint_field(tag, v), tag),
        spec_read_int(uint_field(tag, v), tag, width, false) == Ok::<int, DecodeErr>(v),
{
    reveal(spec_skip_field);
    lemma_pow256_values();
    let mark = uint_mark(v);
    let w = int_width(mark);
    let payload = be_bytes(v, w);
    let field = uint_field(tag, v);
    lemma_be_bytes_len(v, w);
    law_header_packing(tag, mark, payload);
    lemma_find_first(tag, mark, payload);
    let hl = head_len(tag);
    if v != 0 {
        assert(field.subrange(hl, hl + w) =~= payload);
        lemma_be_unsigned_round_trip(v, w);
    }
}

/// The number 0 is written as the header alone, with the mark `EnZero`,
/// whatever the width it was declared with; and every number is written the
/// same whatever the width it was declared with, since the field depends on
/// the number alone.
pub proof fn law_narrowing(tag: u8, v: int)
    ensures
        int_field(tag, 0) == head_bytes(tag, TarsTypeMark::EnZero),
        uint_field(tag, 0) == head_bytes(tag, TarsTypeMark::EnZero),
        int_field(tag, v).len() == head_len(tag) + int_width(int_mark(v)),
        v != 0 && -0x80 <= v <= 0x7f ==> int_mark(v) == TarsTypeMark::EnInt8,
        !(-0x80 <= v <= 0x7f) && -0x8000 <= v <= 0x7fff ==> int_mark(v) == TarsTypeMark::EnInt16,
        !(-0x8000 <= v <= 0x7fff) && -0x8000_0000 <= v <= 0x7fff_ffff ==> int_mark(v)
            == TarsTypeMark::EnInt32,
        !(-0x8000_0000 <= v <= 0x7fff_ffff) ==> int_mark(v) == TarsTypeMark::EnInt64,
{
    assert(int_field(tag, 0) =~= head_bytes(tag, TarsTypeMark::EnZero));
    assert(uint_field(tag, 0) =~= head_bytes(tag, TarsTypeMark::EnZero));
    lemma_be_bytes_len(v, int_width(int_mark(v)));
}

/// A boolean is written as one whole field, and reads back as a number that
/// is 0 for `false` and not 0 for `true`.
pub proof fn law_bool_round_trip(tag: u8, b: bool)
    ensures
        whole_field(bool_field(tag, b), tag),
        spec_read_int(bool_field(tag, b), tag, 1, true) matches Ok(n) && (n != 0) == b,
{
    reveal_with_fuel(pow256, 2);
    law_int_round_trip(tag, if b { 1 } else { 0 }, 1);
}

/// The bits of a 32-bit float are written as one whole field, and read back
/// as they were.
pub proof fn law_float_round_trip(tag: u8, bits: u32)
    ensures
        whole_field(float_field(tag, bits), tag),
        spec_read_float(float_field(tag, bits), tag, TarsTypeMark::EnFloat, 4) == Ok::<
            int,
            DecodeErr,
        >(bits as int),
{
    reveal(spec_skip_field);
    lemma_pow256_values();
    let payload = be_bytes(bits as int, 4);
    let field = float_field(tag, bits);
    lemma_be_bytes_len(bits as int, 4);
    law_header_packing(tag, TarsTypeMark::EnFloat, payload);
    lemma_find_first(tag, TarsTypeMark::EnFloat, payload);
    let hl = head_len(tag);
    assert(field.subrange(hl, hl + 4) =~= payload);
    lemma_be_unsigned_round_trip(bits as int, 4);
}

/// The bits of a 64-bit float are written as one whole field, and read back
/// as they were.
pub proof fn law_double_round_trip(tag: u8, bits: u64)
    ensures
        whole_field(double_field(tag, bits), tag),
        spec_read_float(double_field(tag, bits), tag, TarsTypeMark::EnDouble, 8) == Ok::<
            int,
            DecodeErr,
        >(bits as int),
{
    reveal(spec_skip_field);
    lemma_pow256_values();
    let payload = be_bytes(bits as int, 8);
    let field = double_field(tag, bits);
    lemma_be_bytes_len(bits as int, 8);
    law_header_packing(tag, TarsTypeMark::EnDouble, payload);
    lemma_find_first(tag, TarsTypeMark::EnDouble, payload);
    let hl = head_len(tag);
    assert(field.subrange(hl, hl + 8) =~= payload);
    lemma_be_unsigned_round_trip(bits as int, 8);
}

/// Bytes behind their count: the count reads back, and the bytes after it are
/// the bytes that were counted.
proof fn lemma_counted_round_trip(pre: Seq<u8>, bytes: Seq<u8>, width: nat)
    requires
        width == 1 || width == 4,
        bytes.len() < pow256(width),
    ensures
        spec_counted(pre + be_bytes(bytes.len() as int, width) + bytes, pre.len() as int, width)
            == Ok::<Seq<u8>, DecodeErr>(bytes),
        spec_skip_counted(
            pre + be_bytes(bytes.len() as int, width) + bytes,
            pre.len() as int,
            width,
        ) == Ok::<int, DecodeErr>((pre.len() + width + bytes.len()) as int),
{
    let count = be_bytes(bytes.len() as int, width);
    let all = pre + count + bytes;
    let p = pre.len() as int;
    lemma_be_bytes_len(bytes.len() as int, width);
    assert(all.subrange(p, p + width) =~= count);
    lemma_be_unsigned_round_trip(bytes.len() as int, width);
    assert(all.subrange(p + width, p + width + bytes.len()) =~= bytes);
}

/// A field that is a header, a count and the counted bytes: a scan finds it,
/// the counted bytes read back, and the field ends with them.
proof fn lemma_counted_field(tag: u8, mark: TarsTypeMark, width: nat, bytes: Seq<u8>)
    requires
        width == 1 || width == 4,
        bytes.len() < pow256(width),
    ensures
        ({
            let field = head_bytes(tag, mark) + be_bytes(bytes.len() as int, width) + bytes;
            let head = Head { tag, tars_type: mark, len: head_len(tag) as u8 };
            &&& spec_take_head(field, 0) == Ok::<Head, DecodeErr>(head)
            &&& spec_find_tag(field, 0, tag) == Ok::<(Head, int), DecodeErr>(
                (head, head_len(tag)),
            )
            &&& spec_counted(field, head_len(tag), width) == Ok::<Seq<u8>, DecodeErr>(bytes)
            &&& spec_skip_counted(field, head_len(tag), width) == Ok::<int, DecodeErr>(
                field.len() as int,
            )
        }),
{
    let head = head_bytes(tag, mark);
    let rest = be_bytes(bytes.len() as int, width) + bytes;
    let field = head + be_bytes(bytes.len() as int, width) + bytes;
    assert(field =~= head + rest);
    law_header_packing(tag, mark, rest);
    lemma_find_first(tag, mark, rest);
    lemma_counted_round_trip(head, bytes, width);
    lemma_be_bytes_len(bytes.len() as int, width);
}

/// A string of at most 255 bytes of UTF-8 is written in the short form, with a
/// length of one byte; a longer one in the long form, with a length of four
/// bytes. Either is one whole field, and the bytes read back as they were.
pub proof fn law_string_round_trip(tag: u8, utf8: Seq<u8>)
    requires
        utf8.len() <= max_len(),
    ensures
        utf8.len() <= 255 ==> string_field(tag, utf8) == head_bytes(tag, TarsTypeMark::EnString1)
            + be_bytes(utf8.len() as int, 1) + utf8,
        utf8.len() >= 256 ==> string_field(tag, utf8) == head_bytes(tag, TarsTypeMark::EnString4)
            + be_bytes(utf8.len() as int, 4) + utf8,
        whole_field(string_field(tag, utf8), tag),
        spec_read_string(string_field(tag, utf8), tag) == Ok::<Seq<u8>, DecodeErr>(utf8),
{
    reveal(spec_skip_field);
    lemma_pow256_values();
    if utf8.len() <= 255 {
        lemma_counted_field(tag, TarsTypeMark::EnString1, 1, utf8);
    } else {
        lemma_counted_field(tag, TarsTypeMark::EnString4, 4, utf8);
    }
}

/// A sequence of 8-bit elements is written as one whole field, a simple list,
/// and its bytes read back as they were.
pub proof fn law_blob_round_trip(tag: u8, bytes: Seq<u8>)
    requires
        bytes.len() <= max_len(),
    ensures
        whole_field(blob_field(tag, bytes), tag),
        spec_read_blob(blob_field(tag, bytes), tag) == Ok::<Seq<u8>, DecodeErr>(bytes),
{
    reveal(spec_skip_field);
    lemma_pow256_values();
    let head = head_bytes(tag, TarsTypeMark::EnSimplelist);
    let inner = head_bytes(0, TarsTypeMark::EnInt8);
    let count = be_bytes(bytes.len() as int, 4);
    let field = blob_field(tag, bytes);
    lemma_be_bytes_len(bytes.len() as int, 4);
    assert(field =~= head + (inner + count + bytes));
    law_header_packing(tag, TarsTypeMark::EnSimplelist, inner + count + bytes);
    lemma_find_first(tag, TarsTypeMark::EnSimplelist, inner + count + bytes);
    law_header_packing(0, TarsTypeMark::EnInt8, count + bytes);
    lemma_shift_take_head(head, inner + count + bytes, 0);
    assert(inner + count + bytes =~= inner + (count + bytes));
    lemma_counted_round_trip(head + inner, bytes, 4);
    assert(head + inner + count + bytes =~= field);
}

/// A sequence or a mapping whose elements are written to `inner` is one whole
/// field, and its region reads back as `inner`.
pub proof fn law_region_round_trip(tag: u8, mark: TarsTypeMark, inner: Seq<u8>)
    requires
        mark == TarsTypeMark::EnList || mark == TarsTypeMark::EnMaps,
        inner.len() <= max_len(),
    ensures
        whole_field(region_field(tag, mark, inner), tag),
        spec_read_region(region_field(tag, mark, inner), tag, mark) == Ok::<Seq<u8>, DecodeErr>(
            inner,
        ),
{
    reveal(spec_skip_field);
    lemma_pow256_values();
    lemma_counted_field(tag, mark, 4, inner);
}

// ---------------------------------------------------------------------------
// Nested records
// ---------------------------------------------------------------------------

/// A record that was opened after `depth` others closes where the walk goes on
/// at `depth`: once the walk from `pos` at depth `inner_depth` has closed its
/// record, the walk from `pos` at a greater depth continues behind that close.
proof fn lemma_close_nested(bytes: Seq<u8>, pos: int, inner_depth: nat, depth: nat)
    requires
        spec_struct_close(bytes, pos, inner_depth) is Ok,
    ensures
        spec_struct_close(bytes, pos, inner_depth + depth + 1) == spec_struct_close(
            bytes,
            spec_struct_close(bytes, pos, inner_depth)->Ok_0.1,
            depth,
        ),
    decreases bytes.len() - pos,
{
    let head = spec_take_head(bytes, pos)->Ok_0;
    let next = pos + head.len;
    lemma_skip_flat_bounds(bytes, next, head.tars_type);
    match head.tars_type {
        TarsTypeMark::EnStructBegin => {
            lemma_close_nested(bytes, next, inner_depth + 1, depth);
        },
        TarsTypeMark::EnStructEnd => {
            if inner_depth > 0 {
                lemma_close_nested(bytes, next, (inner_depth - 1) as nat, depth);
            }
        },
        mark => {
            let after = spec_skip_flat(bytes, next, mark)->Ok_0;
            lemma_close_nested(bytes, after, inner_depth, depth);
        },
    }
}

/// The walk to the close of a record steps over a whole field: from the start
/// of the field it comes to the same close as from its end.
proof fn lemma_walk_over_field(bytes: Seq<u8>, pos: int, depth: nat)
    requires
        spec_take_head(bytes, pos) matches Ok(head) && head.tars_type
            != TarsTypeMark::EnStructEnd,
        spec_field_end(bytes, pos) is Ok,
    ensures
        spec_struct_close(bytes, pos, depth) == spec_struct_close(
            bytes,
            spec_field_end(bytes, pos)->Ok_0,
            depth,
        ),
{
    reveal(spec_skip_field);
    let head = spec_take_head(bytes, pos)->Ok_0;
    if head.tars_type == TarsTypeMark::EnStructBegin {
        lemma_close_nested(bytes, pos + head.len, 0, depth);
    }
}

/// Whole fields that are followed by a struct-end header are the fields of a
/// record: the walk from any of them closes the record at that header.
proof fn lemma_fields_close(pre: Seq<u8>, body: Seq<u8>, post: Seq<u8>, pos: int)
    requires
        0 <= pos,
        whole_fields(body, pos),
    ensures
        spec_struct_close(
            pre + body + head_bytes(0, TarsTypeMark::EnStructEnd) + post,
            pre.len() + pos,
            0,
        ) == Ok::<(int, int), DecodeErr>(
            ((pre.len() + body.len()) as int, (pre.len() + body.len() + 1) as int),
        ),
    decreases body.len() - pos,
{
    let end = head_bytes(0, TarsTypeMark::EnStructEnd);
    let tail = end + post;
    let bytes = pre + body + end + post;
    assert(bytes =~= pre + (body + tail));
    assert(bytes =~= (pre + body) + tail);
    if pos >= body.len() {
        law_header_packing(0, TarsTypeMark::EnStructEnd, post);
        lemma_shift_take_head(pre + body, tail, 0);
    } else {
        let head = spec_take_head(body, pos)->Ok_0;
        let next = spec_field_end(body, pos)->Ok_0;
        lemma_skip_field_bounds(body, pos + head.len, head.tars_type);
        lemma_extend_field_end(body, tail, pos);
        lemma_shift_take_head(pre, body + tail, pos);
        lemma_shift_field_end(pre, body + tail, pos);
        lemma_walk_over_field(bytes, pre.len() + pos, 0);
        lemma_fields_close(pre, body, post, next);
    }
}

/// A record whose fields are whole fields is written as one whole field, and
/// its fields read back as they were.
pub proof fn law_struct_round_trip(tag: u8, body: Seq<u8>)
    requires
        whole_fields(body, 0),
    ensures
        whole_field(struct_field(tag, body), tag),
        spec_read_struct(struct_field(tag, body), tag) == Ok::<Seq<u8>, DecodeErr>(body),
{
    reveal(spec_skip_field);
    let head = head_bytes(tag, TarsTypeMark::EnStructBegin);
    let end = head_bytes(0, TarsTypeMark::EnStructEnd);
    let field = struct_field(tag, body);
    let hl = head_len(tag);
    law_header_packing(tag, TarsTypeMark::EnStructBegin, body + end);
    lemma_find_first(tag, TarsTypeMark::EnStructBegin, body + end);
    assert(field =~= head + (body + end));
    lemma_fields_close(head, body, Seq::<u8>::empty(), 0);
    assert(head + body + end + Seq::<u8>::empty() =~= field);
    assert(field.subrange(hl, hl + body.len()) =~= body);
}

// ---------------------------------------------------------------------------
// Fields in a record
// ---------------------------------------------------------------------------

/// A scan for `tag` steps over whole fields with other tags: behind them it
/// finds what it finds in the rest alone.
pub proof fn lemma_find_after_fields(pre: Seq<u8>, rest: Seq<u8>, tag: u8, pos: int)
    requires
        0 <= pos,
        whole_fields_without(pre, pos, tag),
    ensures
        spec_find_tag(pre + rest, pos, tag) == shift_found(
            spec_find_tag(rest, 0, tag),
            pre.len() as int,
        ),
    decreases pre.len() - pos,
{
    if pos >= pre.len() {
        lemma_shift_find_tag(pre, rest, 0, tag);
    } else {
        let head = spec_take_head(pre, pos)->Ok_0;
        let next = spec_field_end(pre, pos)->Ok_0;
        lemma_skip_field_bounds(pre, pos + head.len, head.tars_type);
        lemma_extend_field_end(pre, rest, pos);
        if rest.len() == 0 {
            assert(pre + rest =~= pre);
        }
        lemma_find_after_fields(pre, rest, tag, next);
    }
}

/// In a region where whole fields with other tags stand before the field
/// `tag`, a scan for `tag` finds that field.
pub proof fn lemma_find_in_record(pre: Seq<u8>, field: Seq<u8>, post: Seq<u8>, tag: u8)
    requires
        whole_fields_without(pre, 0, tag),
        whole_field(field, tag),
    ensures
        spec_find_tag(field, 0, tag) == Ok::<(Head, int), DecodeErr>(
            (spec_take_head(field, 0)->Ok_0, spec_take_head(field, 0)->Ok_0.len as int),
        ),
        spec_find_tag(pre + field + post, 0, tag) == Ok::<(Head, int), DecodeErr>(
            (
                spec_take_head(field, 0)->Ok_0,
                pre.len() + spec_take_head(field, 0)->Ok_0.len as int,
            ),
        ),
{
    let bytes = pre + field + post;
    let rest = field + post;
    assert(bytes =~= pre + rest);
    lemma_extend_find_tag(field, post, 0, tag);
    lemma_find_after_fields(pre, rest, tag, 0);
}

/// A payload that reads well in a field reads the same where bytes stand
/// before and after the field.
proof fn lemma_payload_in_record(
    pre: Seq<u8>,
    field: Seq<u8>,
    post: Seq<u8>,
    at: int,
    mark: TarsTypeMark,
)
    requires
        at >= 0,
    ensures
        forall|width: nat, signed: bool| #[trigger]
            spec_int_payload(field, at, mark, width, signed) is Ok ==> spec_int_payload(
                pre + field + post,
                pre.len() + at,
                mark,
                width,
                signed,
            ) == spec_int_payload(field, at, mark, width, signed),
        forall|want: TarsTypeMark, width: nat| #[trigger]
            spec_float_payload(field, at, mark, want, width) is Ok ==> spec_float_payload(
                pre + field + post,
                pre.len() + at,
                mark,
                want,
                width,
            ) == spec_float_payload(field, at, mark, want, width),
        spec_string_payload(field, at, mark) is Ok ==> spec_string_payload(
            pre + field + post,
            pre.len() + at,
            mark,
        ) == spec_string_payload(field, at, mark),
        spec_blob_payload(field, at, mark) is Ok ==> spec_blob_payload(
            pre + field + post,
            pre.len() + at,
            mark,
        ) == spec_blob_payload(field, at, mark),
        forall|want: TarsTypeMark| #[trigger]
            spec_region_payload(field, at, mark, want) is Ok ==> spec_region_payload(
                pre + field + post,
                pre.len() + at,
                mark,
                want,
            ) == spec_region_payload(field, at, mark, want),
        spec_struct_payload(field, at, mark) is Ok ==> spec_struct_payload(
            pre + field + post,
            pre.len() + at,
            mark,
        ) == spec_struct_payload(field, at, mark),
{
    let bytes = pre + field + post;
    let rest = field + post;
    assert(bytes =~= pre + rest);
    lemma_extend_payloads(field, post, at, mark);
    lemma_shift_payloads(pre, rest, at, mark);
    assert forall|width: nat, signed: bool| #[trigger]
        spec_int_payload(field, at, mark, width, signed) is Ok implies spec_int_payload(
        bytes,
        pre.len() + at,
        mark,
        width,
        signed,
    ) == spec_int_payload(field, at, mark, width, signed) by {
        assert(spec_int_payload(bytes, pre.len() + at, mark, width, signed) == spec_int_payload(
            rest,
            at,
            mark,
            width,
            signed,
        ));
    }
    assert forall|want: TarsTypeMark, width: nat| #[trigger]
        spec_float_payload(field, at, mark, want, width) is Ok implies spec_float_payload(
        bytes,
        pre.len() + at,
        mark,
        want,
        width,
    ) == spec_float_payload(field, at, mark, want, width) by {
        assert(spec_float_payload(bytes, pre.len() + at, mark, want, width)
            == spec_float_payload(rest, at, mark, want, width));
    }
    assert forall|want: TarsTypeMark| #[trigger]
        spec_region_payload(field, at, mark, want) is Ok implies spec_region_payload(
        bytes,
        pre.len() + at,
        mark,
        want,
    ) == spec_region_payload(field, at, mark, want) by {
        assert(spec_region_payload(bytes, pre.len() + at, mark, want) == spec_region_payload(
            rest,
            at,
            mark,
            want,
        ));
    }
}

/// The order of the fields does not matter to a read, and neither do fields
/// that the reader does not ask for. In a region where whole fields with other
/// tags stand before the field `tag`, and anything after it, a read of `tag`
/// that succeeds on the field alone gives the same on the region.
pub proof fn law_read_in_record(pre: Seq<u8>, field: Seq<u8>, post: Seq<u8>, tag: u8)
    requires
        whole_fields_without(pre, 0, tag),
        whole_field(field, tag),
    ensures
        !tag_absent(pre + field + post, tag),
        forall|width: nat, signed: bool| #[trigger]
            spec_read_int(field, tag, width, signed) is Ok ==> spec_read_int(
                pre + field + post,
                tag,
                width,
                signed,
            ) == spec_read_int(field, tag, width, signed),
        forall|want: TarsTypeMark, width: nat| #[trigger]
            spec_read_float(field, tag, want, width) is Ok ==> spec_read_float(
                pre + field + post,
                tag,
                want,
                width,
            ) == spec_read_float(field, tag, want, width),
        spec_read_string(field, tag) is Ok ==> spec_read_string(pre + field + post, tag)
            == spec_read_string(field, tag),
        spec_read_blob(field, tag) is Ok ==> spec_read_blob(pre + field + post, tag)
            == spec_read_blob(field, tag),
        forall|want: TarsTypeMark| #[trigger]
            spec_read_region(field, tag, want) is Ok ==> spec_read_region(
                pre + field + post,
                tag,
                want,
            ) == spec_read_region(field, tag, want),
        spec_read_struct(field, tag) is Ok ==> spec_read_struct(pre + field + post, tag)
            == spec_read_struct(field, tag),
{
    let bytes = pre + field + post;
    let head = spec_take_head(field, 0)->Ok_0;
    let at = head.len as int;
    lemma_find_in_record(pre, field, post, tag);
    lemma_payload_in_record(pre, field, post, at, head.tars_type);
    assert forall|width: nat, signed: bool| #[trigger]
        spec_read_int(field, tag, width, signed) is Ok implies spec_read_int(
        bytes,
        tag,
        width,
        signed,
    ) == spec_read_int(field, tag, width, signed) by {
        assert(spec_int_payload(field, at, head.tars_type, width, signed) is Ok);
    }
    assert forall|want: TarsTypeMark, width: nat| #[trigger]
        spec_read_float(field, tag, want, width) is Ok implies spec_read_float(
        bytes,
        tag,
        want,
        width,
    ) == spec_read_float(field, tag, want, width) by {
        assert(spec_float_payload(field, at, head.tars_type, want, width) is Ok);
    }
    assert forall|want: TarsTypeMark| #[trigger]
        spec_read_region(field, tag, want) is Ok implies spec_read_region(bytes, tag, want)
        == spec_read_region(field, tag, want) by {
        assert(spec_region_payload(field, at, head.tars_type, want) is Ok);
    }
}

/// A region of whole fields of which none has the tag `tag` has no field `tag`.
pub proof fn law_fields_without_absent(region: Seq<u8>, tag: u8)
    requires
        whole_fields_without(region, 0, tag),
    ensures
        tag_absent(region, tag),
{
    lemma_find_after_fields(region, Seq::<u8>::empty(), tag, 0);
    assert(region + Seq::<u8>::empty() =~= region);
}

/// Where the region has no field with the tag, every required read of the tag
/// fails with `TagNotFoundErr`.
pub proof fn law_absent_tag_not_found(region: Seq<u8>, tag: u8)
    requires
        tag_absent(region, tag),
    ensures
        forall|width: nat, signed: bool| #[trigger]
            spec_read_int(region, tag, width, signed) == Err::<int, DecodeErr>(
                DecodeErr::TagNotFoundErr,
            ),
        forall|want: TarsTypeMark, width: nat| #[trigger]
            spec_read_float(region, tag, want, width) == Err::<int, DecodeErr>(
                DecodeErr::TagNotFoundErr,
            ),
        spec_read_string(region, tag) == Err::<Seq<u8>, DecodeErr>(DecodeErr::TagNotFoundErr),
        spec_read_blob(region, tag) == Err::<Seq<u8>, DecodeErr>(DecodeErr::TagNotFoundErr),
        forall|want: TarsTypeMark| #[trigger]
            spec_read_region(region, tag, want) == Err::<Seq<u8>, DecodeErr>(
                DecodeErr::TagNotFoundErr,
            ),
        spec_read_struct(region, tag) == Err::<Seq<u8>, DecodeErr>(DecodeErr::TagNotFoundErr),
{
}

} // verus!
