//! How reading behaves when a region is moved or grown: what stands in a region
//! reads the same with other bytes before it, and what reads well in a region
//! still reads the same with more bytes after it. The laws of the codec rest on
//! these facts.
use crate::errors::DecodeErr;
use crate::tars_decoder::Head;
use crate::tars_type::TarsTypeMark;
use crate::wire::{
    int_width, lemma_skip_field_bounds, lemma_skip_flat_bounds, lemma_struct_close_bounds,
    spec_advance, spec_blob_payload, spec_counted, spec_field_end, spec_find_tag,
    spec_float_payload, spec_int_payload, spec_region_payload, spec_skip_counted, spec_skip_field,
    spec_skip_flat, spec_string_payload, spec_struct_close, spec_struct_payload, spec_take_head,
};
use vstd::prelude::*;

verus! {

/// The position `r`, moved on by `by`.
pub open spec fn shift_pos(r: Result<int, DecodeErr>, by: int) -> Result<int, DecodeErr> {
    match r {
        Ok(p) => Ok(p + by),
        Err(e) => Err(e),
    }
}

/// The two positions of `r`, moved on by `by`.
pub open spec fn shift_close(r: Result<(int, int), DecodeErr>, by: int) -> Result<
    (int, int),
    DecodeErr,
> {
    match r {
        Ok(c) => Ok((c.0 + by, c.1 + by)),
        Err(e) => Err(e),
    }
}

/// The found field `r`, with its payload position moved on by `by`.
pub open spec fn shift_found(r: Result<(Head, int), DecodeErr>, by: int) -> Result<
    (Head, int),
    DecodeErr,
> {
    match r {
        Ok(f) => Ok((f.0, f.1 + by)),
        Err(e) => Err(e),
    }
}

// ---------------------------------------------------------------------------
// Bytes before the region
// ---------------------------------------------------------------------------

/// A header reads the same with bytes before the region.
pub proof fn lemma_shift_take_head(pre: Seq<u8>, region: Seq<u8>, p: int)
    requires
        p >= 0,
    ensures
        spec_take_head(pre + region, pre.len() + p) == spec_take_head(region, p),
{
    let bytes = pre + region;
    if p < region.len() {
        assert(bytes[pre.len() + p] == region[p]);
        if p + 1 < region.len() {
            assert(bytes[pre.len() + p + 1] == region[p + 1]);
        }
    }
}

/// Counted bytes are the same with bytes before the region.
pub proof fn lemma_shift_counted(pre: Seq<u8>, region: Seq<u8>, p: int, width: nat)
    requires
        p >= 0,
    ensures
        spec_counted(pre + region, pre.len() + p, width) == spec_counted(region, p, width),
        spec_skip_counted(pre + region, pre.len() + p, width) == shift_pos(
            spec_skip_counted(region, p, width),
            pre.len() as int,
        ),
{
    let bytes = pre + region;
    let by = pre.len() as int;
    if spec_advance(region, p, width as int) is Ok {
        let start = p + width;
        assert(bytes.subrange(by + p, by + start) =~= region.subrange(p, start));
        match spec_advance(region, start, crate::wire::be_unsigned(region.subrange(p, start))) {
            Ok(end) => {
                assert(bytes.subrange(by + start, by + end) =~= region.subrange(start, end));
            },
            Err(e) => {},
        }
    }
}

/// A payload without nesting ends at the same place with bytes before the region.
pub proof fn lemma_shift_skip_flat(pre: Seq<u8>, region: Seq<u8>, p: int, mark: TarsTypeMark)
    requires
        p >= 0,
    ensures
        spec_skip_flat(pre + region, pre.len() + p, mark) == shift_pos(
            spec_skip_flat(region, p, mark),
            pre.len() as int,
        ),
{
    lemma_shift_counted(pre, region, p, 1);
    lemma_shift_counted(pre, region, p, 4);
    lemma_shift_take_head(pre, region, p);
    if mark == TarsTypeMark::EnSimplelist {
        match spec_take_head(region, p) {
            Ok(inner) => {
                lemma_shift_counted(pre, region, p + inner.len, 4);
            },
            Err(e) => {},
        }
    }
}

/// A record closes at the same place with bytes before the region.
pub proof fn lemma_shift_struct_close(pre: Seq<u8>, region: Seq<u8>, p: int, depth: nat)
    requires
        p >= 0,
    ensures
        spec_struct_close(pre + region, pre.len() + p, depth) == shift_close(
            spec_struct_close(region, p, depth),
            pre.len() as int,
        ),
    decreases region.len() - p,
{
    lemma_shift_take_head(pre, region, p);
    match spec_take_head(region, p) {
        Err(e) => {},
        Ok(head) => {
            let next = p + head.len;
            lemma_shift_skip_flat(pre, region, next, head.tars_type);
            lemma_skip_flat_bounds(region, next, head.tars_type);
            match head.tars_type {
                TarsTypeMark::EnStructBegin => {
                    lemma_shift_struct_close(pre, region, next, depth + 1);
                },
                TarsTypeMark::EnStructEnd => {
                    if depth > 0 {
                        lemma_shift_struct_close(pre, region, next, (depth - 1) as nat);
                    }
                },
                mark => {
                    match spec_skip_flat(region, next, mark) {
                        Err(e) => {},
                        Ok(after) => {
                            lemma_shift_struct_close(pre, region, after, depth);
                        },
                    }
                },
            }
        },
    }
}

/// A payload ends at the same place with bytes before the region.
pub proof fn lemma_shift_skip_field(pre: Seq<u8>, region: Seq<u8>, p: int, mark: TarsTypeMark)
    requires
        p >= 0,
    ensures
        spec_skip_field(pre + region, pre.len() + p, mark) == shift_pos(
            spec_skip_field(region, p, mark),
            pre.len() as int,
        ),
{
    reveal(spec_skip_field);
    lemma_shift_skip_flat(pre, region, p, mark);
    lemma_shift_struct_close(pre, region, p, 0);
}

/// A field ends at the same place with bytes before the region.
pub proof fn lemma_shift_field_end(pre: Seq<u8>, region: Seq<u8>, p: int)
    requires
        p >= 0,
    ensures
        spec_field_end(pre + region, pre.len() + p) == shift_pos(
            spec_field_end(region, p),
            pre.len() as int,
        ),
{
    lemma_shift_take_head(pre, region, p);
    match spec_take_head(region, p) {
        Err(e) => {},
        Ok(head) => {
            lemma_shift_skip_field(pre, region, p + head.len, head.tars_type);
        },
    }
}

/// A scan finds the same field with bytes before the region.
pub proof fn lemma_shift_find_tag(pre: Seq<u8>, region: Seq<u8>, p: int, tag: u8)
    requires
        p >= 0,
    ensures
        spec_find_tag(pre + region, pre.len() + p, tag) == shift_found(
            spec_find_tag(region, p, tag),
            pre.len() as int,
        ),
    decreases region.len() - p,
{
    let bytes = pre + region;
    let by = pre.len() as int;
    if p < region.len() {
        lemma_shift_take_head(pre, region, p);
        match spec_take_head(region, p) {
            Err(e) => {},
            Ok(head) => {
                if head.tag != tag {
                    let start = p + head.len;
                    lemma_shift_skip_field(pre, region, start, head.tars_type);
                    lemma_skip_field_bounds(region, start, head.tars_type);
                    match spec_skip_field(region, start, head.tars_type) {
                        Err(e) => {
                            assert(spec_skip_field(bytes, by + start, head.tars_type) == Err::<
                                int,
                                DecodeErr,
                            >(e));
                        },
                        Ok(after) => {
                            lemma_shift_find_tag(pre, region, after, tag);
                            assert(spec_skip_field(bytes, by + start, head.tars_type) == Ok::<
                                int,
                                DecodeErr,
                            >(by + after));
                            assert(spec_find_tag(region, p, tag) == spec_find_tag(
                                region,
                                after,
                                tag,
                            ));
                            assert(spec_find_tag(bytes, by + p, tag) == spec_find_tag(
                                bytes,
                                by + after,
                                tag,
                            ));
                        },
                    }
                }
            },
        }
    }
}

/// A number reads the same with bytes before the region.
proof fn lemma_shift_int_payload(
    pre: Seq<u8>,
    region: Seq<u8>,
    p: int,
    mark: TarsTypeMark,
    width: nat,
    signed: bool,
)
    requires
        p >= 0,
    ensures
        spec_int_payload(pre + region, pre.len() + p, mark, width, signed) == spec_int_payload(
            region,
            p,
            mark,
            width,
            signed,
        ),
{
    let bytes = pre + region;
    let by = pre.len() as int;
    let w = int_width(mark) as int;
    if spec_advance(region, p, w) is Ok {
        assert(bytes.subrange(by + p, by + p + w) =~= region.subrange(p, p + w));
    }
}

/// The bits of a float read the same with bytes before the region.
proof fn lemma_shift_float_payload(
    pre: Seq<u8>,
    region: Seq<u8>,
    p: int,
    mark: TarsTypeMark,
    want: TarsTypeMark,
    width: nat,
)
    requires
        p >= 0,
    ensures
        spec_float_payload(pre + region, pre.len() + p, mark, want, width) == spec_float_payload(
            region,
            p,
            mark,
            want,
            width,
        ),
{
    let bytes = pre + region;
    let by = pre.len() as int;
    if spec_advance(region, p, width as int) is Ok {
        assert(bytes.subrange(by + p, by + p + width) =~= region.subrange(p, p + width));
    }
}

/// A string reads the same with bytes before the region.
proof fn lemma_shift_string_payload(pre: Seq<u8>, region: Seq<u8>, p: int, mark: TarsTypeMark)
    requires
        p >= 0,
    ensures
        spec_string_payload(pre + region, pre.len() + p, mark) == spec_string_payload(
            region,
            p,
            mark,
        ),
{
    lemma_shift_counted(pre, region, p, 1);
    lemma_shift_counted(pre, region, p, 4);
}

/// A simple list reads the same with bytes before the region.
proof fn lemma_shift_blob_payload(pre: Seq<u8>, region: Seq<u8>, p: int, mark: TarsTypeMark)
    requires
        p >= 0,
    ensures
        spec_blob_payload(pre + region, pre.len() + p, mark) == spec_blob_payload(region, p, mark),
{
    lemma_shift_take_head(pre, region, p);
    match spec_take_head(region, p) {
        Ok(inner) => {
            lemma_shift_counted(pre, region, p + inner.len, 4);
        },
        Err(e) => {},
    }
}

/// The region of a sequence or a mapping reads the same with bytes before the
/// region that holds it.
proof fn lemma_shift_region_payload(
    pre: Seq<u8>,
    region: Seq<u8>,
    p: int,
    mark: TarsTypeMark,
    want: TarsTypeMark,
)
    requires
        p >= 0,
    ensures
        spec_region_payload(pre + region, pre.len() + p, mark, want) == spec_region_payload(
            region,
            p,
            mark,
            want,
        ),
{
    lemma_shift_counted(pre, region, p, 4);
}

/// The fields of a nested record read the same with bytes before the region.
proof fn lemma_shift_struct_payload(pre: Seq<u8>, region: Seq<u8>, p: int, mark: TarsTypeMark)
    requires
        p >= 0,
    ensures
        spec_struct_payload(pre + region, pre.len() + p, mark) == spec_struct_payload(
            region,
            p,
            mark,
        ),
{
    let bytes = pre + region;
    let by = pre.len() as int;
    lemma_shift_struct_close(pre, region, p, 0);
    match spec_struct_close(region, p, 0) {
        Ok(close) => {
            lemma_struct_close_bounds(region, p, 0);
            assert(bytes.subrange(by + p, by + close.0) =~= region.subrange(p, close.0));
        },
        Err(e) => {},
    }
}

/// Every payload reads the same with bytes before the region.
pub proof fn lemma_shift_payloads(pre: Seq<u8>, region: Seq<u8>, p: int, mark: TarsTypeMark)
    requires
        p >= 0,
    ensures
        forall|width: nat, signed: bool|
            spec_int_payload(pre + region, pre.len() + p, mark, width, signed)
                == #[trigger] spec_int_payload(region, p, mark, width, signed),
        forall|want: TarsTypeMark, width: nat|
            spec_float_payload(pre + region, pre.len() + p, mark, want, width)
                == #[trigger] spec_float_payload(region, p, mark, want, width),
        spec_string_payload(pre + region, pre.len() + p, mark) == spec_string_payload(
            region,
            p,
            mark,
        ),
        spec_blob_payload(pre + region, pre.len() + p, mark) == spec_blob_payload(region, p, mark),
        forall|want: TarsTypeMark|
            spec_region_payload(pre + region, pre.len() + p, mark, want)
                == #[trigger] spec_region_payload(region, p, mark, want),
        spec_struct_payload(pre + region, pre.len() + p, mark) == spec_struct_payload(
            region,
            p,
            mark,
        ),
{
    assert forall|width: nat, signed: bool|
        spec_int_payload(pre + region, pre.len() + p, mark, width, signed)
            == #[trigger] spec_int_payload(region, p, mark, width, signed) by {
        lemma_shift_int_payload(pre, region, p, mark, width, signed);
    }
    assert forall|want: TarsTypeMark, width: nat|
        spec_float_payload(pre + region, pre.len() + p, mark, want, width)
            == #[trigger] spec_float_payload(region, p, mark, want, width) by {
        lemma_shift_float_payload(pre, region, p, mark, want, width);
    }
    lemma_shift_string_payload(pre, region, p, mark);
    lemma_shift_blob_payload(pre, region, p, mark);
    assert forall|want: TarsTypeMark|
        spec_region_payload(pre + region, pre.len() + p, mark, want)
            == #[trigger] spec_region_payload(region, p, mark, want) by {
        lemma_shift_region_payload(pre, region, p, mark, want);
    }
    lemma_shift_struct_payload(pre, region, p, mark);
}

// ---------------------------------------------------------------------------
// Bytes after the region
// ---------------------------------------------------------------------------

/// A header that reads well reads the same with bytes after the region.
pub proof fn lemma_extend_take_head(region: Seq<u8>, post: Seq<u8>, p: int)
    requires
        spec_take_head(region, p) is Ok,
    ensures
        spec_take_head(region + post, p) == spec_take_head(region, p),
{
    let bytes = region + post;
    assert(bytes[p] == region[p]);
    if region[p] / 16 == 15 {
        assert(bytes[p + 1] == region[p + 1]);
    }
}

/// Counted bytes that read well read the same with bytes after the region.
pub proof fn lemma_extend_counted(region: Seq<u8>, post: Seq<u8>, p: int, width: nat)
    requires
        spec_skip_counted(region, p, width) is Ok,
    ensures
        spec_counted(region + post, p, width) == spec_counted(region, p, width),
        spec_skip_counted(region + post, p, width) == spec_skip_counted(region, p, width),
{
    let bytes = region + post;
    let start = p + width;
    assert(bytes.subrange(p, start) =~= region.subrange(p, start));
    let end = spec_skip_counted(region, p, width)->Ok_0;
    assert(bytes.subrange(start, end) =~= region.subrange(start, end));
}

/// A payload without nesting that ends well ends at the same place with bytes
/// after the region.
pub proof fn lemma_extend_skip_flat(region: Seq<u8>, post: Seq<u8>, p: int, mark: TarsTypeMark)
    requires
        spec_skip_flat(region, p, mark) is Ok,
    ensures
        spec_skip_flat(region + post, p, mark) == spec_skip_flat(region, p, mark),
{
    if mark == TarsTypeMark::EnString1 {
        lemma_extend_counted(region, post, p, 1);
    } else if mark == TarsTypeMark::EnString4 || mark == TarsTypeMark::EnMaps || mark
        == TarsTypeMark::EnList {
        lemma_extend_counted(region, post, p, 4);
    } else if mark == TarsTypeMark::EnSimplelist {
        lemma_extend_take_head(region, post, p);
        let inner = spec_take_head(region, p)->Ok_0;
        lemma_extend_counted(region, post, p + inner.len, 4);
    }
}

/// A record that closes within the region closes at the same place with bytes
/// after the region.
pub proof fn lemma_extend_struct_close(region: Seq<u8>, post: Seq<u8>, p: int, depth: nat)
    requires
        spec_struct_close(region, p, depth) is Ok,
    ensures
        spec_struct_close(region + post, p, depth) == spec_struct_close(region, p, depth),
    decreases region.len() - p,
{
    lemma_extend_take_head(region, post, p);
    let head = spec_take_head(region, p)->Ok_0;
    let next = p + head.len;
    lemma_skip_flat_bounds(region, next, head.tars_type);
    match head.tars_type {
        TarsTypeMark::EnStructBegin => {
            lemma_extend_struct_close(region, post, next, depth + 1);
        },
        TarsTypeMark::EnStructEnd => {
            if depth > 0 {
                lemma_extend_struct_close(region, post, next, (depth - 1) as nat);
            }
        },
        mark => {
            lemma_extend_skip_flat(region, post, next, mark);
            let after = spec_skip_flat(region, next, mark)->Ok_0;
            lemma_extend_struct_close(region, post, after, depth);
        },
    }
}

/// A field that ends within the region ends at the same place with bytes
/// after the region.
pub proof fn lemma_extend_field_end(region: Seq<u8>, post: Seq<u8>, p: int)
    requires
        spec_field_end(region, p) is Ok,
    ensures
        spec_field_end(region + post, p) == spec_field_end(region, p),
        spec_take_head(region + post, p) == spec_take_head(region, p),
{
    reveal(spec_skip_field);
    lemma_extend_take_head(region, post, p);
    let head = spec_take_head(region, p)->Ok_0;
    if head.tars_type == TarsTypeMark::EnStructBegin {
        lemma_extend_struct_close(region, post, p + head.len, 0);
    } else {
        lemma_extend_skip_flat(region, post, p + head.len, head.tars_type);
    }
}

/// A scan that finds its field within the region finds the same field with
/// bytes after the region.
pub proof fn lemma_extend_find_tag(region: Seq<u8>, post: Seq<u8>, p: int, tag: u8)
    requires
        spec_find_tag(region, p, tag) is Ok,
    ensures
        spec_find_tag(region + post, p, tag) == spec_find_tag(region, p, tag),
    decreases region.len() - p,
{
    lemma_extend_take_head(region, post, p);
    let head = spec_take_head(region, p)->Ok_0;
    if head.tag != tag {
        lemma_skip_field_bounds(region, p + head.len, head.tars_type);
        lemma_extend_field_end(region, post, p);
        let after = spec_skip_field(region, p + head.len, head.tars_type)->Ok_0;
        lemma_extend_find_tag(region, post, after, tag);
    }
}

/// A number that reads well reads the same with bytes after the region.
proof fn lemma_extend_int_payload(
    region: Seq<u8>,
    post: Seq<u8>,
    p: int,
    mark: TarsTypeMark,
    width: nat,
    signed: bool,
)
    requires
        spec_int_payload(region, p, mark, width, signed) is Ok,
    ensures
        spec_int_payload(region + post, p, mark, width, signed) == spec_int_payload(
            region,
            p,
            mark,
            width,
            signed,
        ),
{
    let bytes = region + post;
    let w = int_width(mark) as int;
    if mark != TarsTypeMark::EnZero {
        assert(bytes.subrange(p, p + w) =~= region.subrange(p, p + w));
    }
}

/// The bits of a float that read well read the same with bytes after the
/// region.
proof fn lemma_extend_float_payload(
    region: Seq<u8>,
    post: Seq<u8>,
    p: int,
    mark: TarsTypeMark,
    want: TarsTypeMark,
    width: nat,
)
    requires
        spec_float_payload(region, p, mark, want, width) is Ok,
    ensures
        spec_float_payload(region + post, p, mark, want, width) == spec_float_payload(
            region,
            p,
            mark,
            want,
            width,
        ),
{
    let bytes = region + post;
    if mark != TarsTypeMark::EnZero {
        assert(bytes.subrange(p, p + width) =~= region.subrange(p, p + width));
    }
}

/// A string that reads well reads the same with bytes after the region.
proof fn lemma_extend_string_payload(region: Seq<u8>, post: Seq<u8>, p: int, mark: TarsTypeMark)
    requires
        spec_string_payload(region, p, mark) is Ok,
    ensures
        spec_string_payload(region + post, p, mark) == spec_string_payload(region, p, mark),
{
    if mark == TarsTypeMark::EnString1 {
        lemma_extend_counted(region, post, p, 1);
    } else {
        lemma_extend_counted(region, post, p, 4);
    }
}

/// A simple list that reads well reads the same with bytes after the region.
proof fn lemma_extend_blob_payload(region: Seq<u8>, post: Seq<u8>, p: int, mark: TarsTypeMark)
    requires
        spec_blob_payload(region, p, mark) is Ok,
    ensures
        spec_blob_payload(region + post, p, mark) == spec_blob_payload(region, p, mark),
{
    lemma_extend_take_head(region, post, p);
    let inner = spec_take_head(region, p)->Ok_0;
    lemma_extend_counted(region, post, p + inner.len, 4);
}

/// The region of a sequence or a mapping that reads well reads the same with
/// bytes after the region that holds it.
proof fn lemma_extend_region_payload(
    region: Seq<u8>,
    post: Seq<u8>,
    p: int,
    mark: TarsTypeMark,
    want: TarsTypeMark,
)
    requires
        spec_region_payload(region, p, mark, want) is Ok,
    ensures
        spec_region_payload(region + post, p, mark, want) == spec_region_payload(
            region,
            p,
            mark,
            want,
        ),
{
    lemma_extend_counted(region, post, p, 4);
}

/// The fields of a nested record that read well read the same with bytes
/// after the region.
proof fn lemma_extend_struct_payload(region: Seq<u8>, post: Seq<u8>, p: int, mark: TarsTypeMark)
    requires
        spec_struct_payload(region, p, mark) is Ok,
    ensures
        spec_struct_payload(region + post, p, mark) == spec_struct_payload(region, p, mark),
{
    let bytes = region + post;
    lemma_extend_struct_close(region, post, p, 0);
    lemma_struct_close_bounds(region, p, 0);
    let close = spec_struct_close(region, p, 0)->Ok_0;
    assert(bytes.subrange(p, close.0) =~= region.subrange(p, close.0));
}

/// Every payload that reads well reads the same with bytes after the region.
pub proof fn lemma_extend_payloads(region: Seq<u8>, post: Seq<u8>, p: int, mark: TarsTypeMark)
    ensures
        forall|width: nat, signed: bool| #[trigger]
            spec_int_payload(region, p, mark, width, signed) is Ok ==> spec_int_payload(
                region + post,
                p,
                mark,
                width,
                signed,
            ) == spec_int_payload(region, p, mark, width, signed),
        forall|want: TarsTypeMark, width: nat| #[trigger]
            spec_float_payload(region, p, mark, want, width) is Ok ==> spec_float_payload(
                region + post,
                p,
                mark,
                want,
                width,
            ) == spec_float_payload(region, p, mark, want, width),
        spec_string_payload(region, p, mark) is Ok ==> spec_string_payload(region + post, p, mark)
            == spec_string_payload(region, p, mark),
        spec_blob_payload(region, p, mark) is Ok ==> spec_blob_payload(region + post, p, mark)
            == spec_blob_payload(region, p, mark),
        forall|want: TarsTypeMark| #[trigger]
            spec_region_payload(region, p, mark, want) is Ok ==> spec_region_payload(
                region + post,
                p,
                mark,
                want,
            ) == spec_region_payload(region, p, mark, want),
        spec_struct_payload(region, p, mark) is Ok ==> spec_struct_payload(region + post, p, mark)
            == spec_struct_payload(region, p, mark),
{
    assert forall|width: nat, signed: bool| #[trigger]
        spec_int_payload(region, p, mark, width, signed) is Ok implies spec_int_payload(
        region + post,
        p,
        mark,
        width,
        signed,
    ) == spec_int_payload(region, p, mark, width, signed) by {
        lemma_extend_int_payload(region, post, p, mark, width, signed);
    }
    assert forall|want: TarsTypeMark, width: nat| #[trigger]
        spec_float_payload(region, p, mark, want, width) is Ok implies spec_float_payload(
        region + post,
        p,
        mark,
        want,
        width,
    ) == spec_float_payload(region, p, mark, want, width) by {
        lemma_extend_float_payload(region, post, p, mark, want, width);
    }
    if spec_string_payload(region, p, mark) is Ok {
        lemma_extend_string_payload(region, post, p, mark);
    }
    if spec_blob_payload(region, p, mark) is Ok {
        lemma_extend_blob_payload(region, post, p, mark);
    }
    assert forall|want: TarsTypeMark| #[trigger]
        spec_region_payload(region, p, mark, want) is Ok implies spec_region_payload(
        region + post,
        p,
        mark,
        want,
    ) == spec_region_payload(region, p, mark, want) by {
        lemma_extend_region_payload(region, post, p, mark, want);
    }
    if spec_struct_payload(region, p, mark) is Ok {
        lemma_extend_struct_payload(region, post, p, mark);
    }
}

} // verus!
