//! The wire format as mathematics: what the bytes of each field are, and what
//! a region of bytes means when it is read back.
//!
//! Everything here is specification. The encoder and the decoder state their
//! contracts over these functions.
use crate::errors::DecodeErr;
use crate::errors::EncodeErr;
use crate::tars_decoder::Head;
use crate::tars_type::TarsTypeMark;
use vstd::prelude::*;

verus! {

/// The largest length that the four-byte length prefix can hold.
pub open spec fn max_len() -> int {
    0xffff_ffff
}

/// 256 to the power `n`.
pub open spec fn pow256(n: nat) -> int
    decreases n,
{
    if n == 0 {
        1
    } else {
        256 * pow256((n - 1) as nat)
    }
}

/// The `n` bytes that hold `v` in big-endian order: the last byte is `v`
/// modulo 256, the bytes before it hold `v` divided by 256. A negative `v`
/// comes out in two's complement.
pub open spec fn be_bytes(v: int, n: nat) -> Seq<u8>
    decreases n,
{
    if n == 0 {
        Seq::<u8>::empty()
    } else {
        be_bytes(v / 256, (n - 1) as nat).push((v % 256) as u8)
    }
}

/// The number that the bytes `b` hold in big-endian order, read as unsigned.
pub open spec fn be_unsigned(b: Seq<u8>) -> int
    decreases b.len(),
{
    if b.len() == 0 {
        0
    } else {
        256 * be_unsigned(b.drop_last()) + b.last() as int
    }
}

/// The number that the bytes `b` hold in big-endian order, read in two's
/// complement: the first byte carries the sign.
pub open spec fn be_signed(b: Seq<u8>) -> int {
    if b.len() > 0 && b[0] >= 128 {
        be_unsigned(b) - pow256(b.len())
    } else {
        be_unsigned(b)
    }
}

/// `be_bytes` gives exactly `n` bytes.
pub proof fn lemma_be_bytes_len(v: int, n: nat)
    ensures
        be_bytes(v, n).len() == n,
    decreases n,
{
    if n > 0 {
        lemma_be_bytes_len(v / 256, (n - 1) as nat);
    }
}

/// The unsigned reading of `b` lies below 256 to the power of its length.
pub proof fn lemma_be_unsigned_bound(b: Seq<u8>)
    ensures
        0 <= be_unsigned(b) < pow256(b.len()),
    decreases b.len(),
{
    if b.len() > 0 {
        lemma_be_unsigned_bound(b.drop_last());
    }
}

/// Reading back the bytes of a number that fits `n` bytes unsigned gives the number.
pub proof fn lemma_be_unsigned_round_trip(v: int, n: nat)
    requires
        0 <= v < pow256(n),
    ensures
        be_unsigned(be_bytes(v, n)) == v,
    decreases n,
{
    if n > 0 {
        let rest = be_bytes(v / 256, (n - 1) as nat);
        lemma_be_unsigned_round_trip(v / 256, (n - 1) as nat);
        assert(be_bytes(v, n).drop_last() =~= rest);
    }
}

/// 256 to any power is positive.
pub proof fn lemma_pow256_positive(n: nat)
    ensures
        pow256(n) > 0,
    decreases n,
{
    if n > 0 {
        lemma_pow256_positive((n - 1) as nat);
    }
}

/// The first of the `n` big-endian bytes of a number that is not negative is
/// the number divided by 256 to the power `n - 1`, modulo 256.
proof fn lemma_be_bytes_first(v: int, n: nat)
    requires
        n > 0,
        0 <= v,
    ensures
        be_bytes(v, n).len() == n,
        be_bytes(v, n)[0] as int == (v / pow256((n - 1) as nat)) % 256,
    decreases n,
{
    lemma_be_bytes_len(v, n);
    let m = (n - 1) as nat;
    let rest = be_bytes(v / 256, m);
    assert(be_bytes(v, n) == rest.push((v % 256) as u8));
    lemma_be_bytes_len(v / 256, m);
    if n == 1 {
        assert(rest.len() == 0);
        assert(be_bytes(v, n)[0] == (v % 256) as u8);
        assert(pow256(0) == 1);
        assert(v / 1 == v);
    } else {
        lemma_be_bytes_first(v / 256, m);
        assert(be_bytes(v, n)[0] == rest[0]);
        let p = pow256((n - 2) as nat);
        lemma_pow256_positive((n - 2) as nat);
        assert(pow256(m) == 256 * p);
        assert((v / 256) / p == v / (256 * p)) by {
            vstd::arithmetic::div_mod::lemma_div_denominator(v, 256, p);
        }
        assert(rest[0] as int == ((v / 256) / p) % 256);
    }
}

/// The `n` bytes of a number do not change when 256 to the power `n` is added
/// to it: this is how two's complement stores a negative number.
pub proof fn lemma_be_bytes_periodic(v: int, n: nat)
    ensures
        be_bytes(v + pow256(n), n) == be_bytes(v, n),
    decreases n,
{
    if n > 0 {
        let p = pow256((n - 1) as nat);
        assert((v + 256 * p) / 256 == v / 256 + p);
        assert((v + 256 * p) % 256 == v % 256);
        lemma_be_bytes_periodic(v / 256, (n - 1) as nat);
    }
}

/// Reading back in two's complement the bytes of a number that fits `n` bytes
/// signed gives the number.
pub proof fn lemma_be_signed_round_trip(v: int, n: nat)
    requires
        n > 0,
        -pow256(n) <= 2 * v < pow256(n),
    ensures
        be_signed(be_bytes(v, n)) == v,
{
    let m = (n - 1) as nat;
    let half = pow256(m);
    let full = pow256(n);
    lemma_pow256_positive(m);
    assert(full == 256 * half);
    if v >= 0 {
        lemma_be_bytes_first(v, n);
        lemma_be_unsigned_round_trip(v, n);
        assert(v / half < 128) by {
            assert(v < 128 * half);
            vstd::arithmetic::div_mod::lemma_div_by_multiple_is_strongly_ordered(
                v,
                128 * half,
                128,
                half,
            );
            vstd::arithmetic::div_mod::lemma_div_by_multiple(128, half);
        }
        assert(0 <= v / half) by {
            vstd::arithmetic::div_mod::lemma_div_pos_is_pos(v, half);
        }
    } else {
        let w = v + full;
        assert(0 <= w < full);
        lemma_be_bytes_periodic(v, n);
        lemma_be_bytes_first(w, n);
        lemma_be_unsigned_round_trip(w, n);
        assert(w >= 128 * half);
        assert(w / half >= 128) by {
            vstd::arithmetic::div_mod::lemma_div_is_ordered(128 * half, w, half);
            vstd::arithmetic::div_mod::lemma_div_by_multiple(128, half);
        }
        assert(w / half < 256) by {
            vstd::arithmetic::div_mod::lemma_div_by_multiple_is_strongly_ordered(
                w,
                256 * half,
                256,
                half,
            );
            vstd::arithmetic::div_mod::lemma_div_by_multiple(256, half);
        }
    }
}

// ---------------------------------------------------------------------------
// What the encoder writes
// ---------------------------------------------------------------------------

/// The header of a field: one byte, the tag in the high nibble and the mark in
/// the low one, where the tag is below 15; else two bytes, the first with the
/// nibble 15 above the mark, the second the tag itself.
pub open spec fn head_bytes(tag: u8, mark: TarsTypeMark) -> Seq<u8> {
    if tag < 15 {
        seq![(tag * 16 + mark.spec_value()) as u8]
    } else {
        seq![(240 + mark.spec_value()) as u8, tag]
    }
}

/// The narrowest mark that holds the signed number `v` exactly: `EnZero` for 0,
/// else the first of the four widths whose signed range has `v`.
pub open spec fn int_mark(v: int) -> TarsTypeMark {
    if v == 0 {
        TarsTypeMark::EnZero
    } else if -0x80 <= v <= 0x7f {
        TarsTypeMark::EnInt8
    } else if -0x8000 <= v <= 0x7fff {
        TarsTypeMark::EnInt16
    } else if -0x8000_0000 <= v <= 0x7fff_ffff {
        TarsTypeMark::EnInt32
    } else {
        TarsTypeMark::EnInt64
    }
}

/// The narrowest mark that holds the unsigned number `v` exactly: `EnZero` for
/// 0, else the first of the four widths whose unsigned range has `v`.
pub open spec fn uint_mark(v: int) -> TarsTypeMark {
    if v == 0 {
        TarsTypeMark::EnZero
    } else if v <= 0xff {
        TarsTypeMark::EnInt8
    } else if v <= 0xffff {
        TarsTypeMark::EnInt16
    } else if v <= 0xffff_ffff {
        TarsTypeMark::EnInt32
    } else {
        TarsTypeMark::EnInt64
    }
}

/// The number of payload bytes of an integer mark; 0 for every other mark.
pub open spec fn int_width(mark: TarsTypeMark) -> nat {
    match mark {
        TarsTypeMark::EnInt8 => 1,
        TarsTypeMark::EnInt16 => 2,
        TarsTypeMark::EnInt32 => 4,
        TarsTypeMark::EnInt64 => 8,
        _ => 0,
    }
}

/// The field that holds the signed number `v` at `tag`: the header with the
/// narrowest mark, then the number in as many big-endian bytes as the mark has.
pub open spec fn int_field(tag: u8, v: int) -> Seq<u8> {
    head_bytes(tag, int_mark(v)) + be_bytes(v, int_width(int_mark(v)))
}

/// The field that holds the unsigned number `v` at `tag`.
pub open spec fn uint_field(tag: u8, v: int) -> Seq<u8> {
    head_bytes(tag, uint_mark(v)) + be_bytes(v, int_width(uint_mark(v)))
}

/// The field that holds a boolean at `tag`: `false` is the number 0, `true` the number 1.
pub open spec fn bool_field(tag: u8, b: bool) -> Seq<u8> {
    int_field(tag, if b { 1 } else { 0 })
}

/// The field that holds a 32-bit float at `tag`, given the bits of the float:
/// always the mark `EnFloat` and four bytes.
pub open spec fn float_field(tag: u8, bits: u32) -> Seq<u8> {
    head_bytes(tag, TarsTypeMark::EnFloat) + be_bytes(bits as int, 4)
}

/// The field that holds a 64-bit float at `tag`, given the bits of the float:
/// always the mark `EnDouble` and eight bytes.
pub open spec fn double_field(tag: u8, bits: u64) -> Seq<u8> {
    head_bytes(tag, TarsTypeMark::EnDouble) + be_bytes(bits as int, 8)
}

/// The field that holds a string at `tag`, given the UTF-8 bytes of the
/// string: up to 255 bytes take the short form with a one-byte length, more
/// take the long form with a four-byte length.
pub open spec fn string_field(tag: u8, utf8: Seq<u8>) -> Seq<u8> {
    if utf8.len() <= 255 {
        head_bytes(tag, TarsTypeMark::EnString1) + be_bytes(utf8.len() as int, 1) + utf8
    } else {
        head_bytes(tag, TarsTypeMark::EnString4) + be_bytes(utf8.len() as int, 4) + utf8
    }
}

/// The field that holds a sequence of 8-bit elements at `tag`: the simple-list
/// header, an inner header with tag 0 and the mark `EnInt8`, the number of
/// elements in four bytes, then one raw byte for each element.
pub open spec fn blob_field(tag: u8, bytes: Seq<u8>) -> Seq<u8> {
    head_bytes(tag, TarsTypeMark::EnSimplelist) + head_bytes(0, TarsTypeMark::EnInt8) + be_bytes(
        bytes.len() as int,
        4,
    ) + bytes
}

/// The field that holds a composite at `tag` whose elements, each encoded as a
/// field with tag 0, make up `inner`: the header with `mark`, the byte length
/// of `inner` in four bytes, then `inner`. `mark` is `EnList` for a sequence
/// and `EnMaps` for a mapping.
pub open spec fn region_field(tag: u8, mark: TarsTypeMark, inner: Seq<u8>) -> Seq<u8> {
    head_bytes(tag, mark) + be_bytes(inner.len() as int, 4) + inner
}

/// The field that holds a nested record at `tag` whose own fields make up
/// `body`: the struct-begin header, the body, and the struct-end header with tag 0.
pub open spec fn struct_field(tag: u8, body: Seq<u8>) -> Seq<u8> {
    head_bytes(tag, TarsTypeMark::EnStructBegin) + body + head_bytes(0, TarsTypeMark::EnStructEnd)
}

/// The byte that stands for a signed 8-bit element of a simple list.
pub open spec fn i8_byte(v: i8) -> u8 {
    (if v < 0 { v + 256 } else { v as int }) as u8
}

/// The byte that stands for a boolean element of a simple list.
pub open spec fn bool_byte(b: bool) -> u8 {
    if b { 1u8 } else { 0u8 }
}

/// What a write leaves behind. A buffer that holds `before` takes the bytes
/// `field` where they fit: then the result is `Ok` and the buffer holds
/// `before + field`. Where they do not fit, the result is `BufferTooBigErr`
/// and the buffer is as before.
pub open spec fn appended(
    before: Seq<u8>,
    field: Seq<u8>,
    after: Seq<u8>,
    r: Result<(), EncodeErr>,
) -> bool {
    if before.len() + field.len() <= isize::MAX {
        r == Ok::<(), EncodeErr>(()) && after == before + field
    } else {
        r == Err::<(), EncodeErr>(EncodeErr::BufferTooBigErr) && after == before
    }
}

// ---------------------------------------------------------------------------
// What the decoder reads
// ---------------------------------------------------------------------------

/// The header that stands at `pos`. The first byte has the mark in its low
/// nibble and the tag in its high one; a high nibble of 15 says that the tag
/// is the next byte. Without the bytes for it the result is `NoEnoughDataErr`;
/// a mark that is none of the fourteen gives `UnknownTarsTypeErr`.
pub open spec fn spec_take_head(bytes: Seq<u8>, pos: int) -> Result<Head, DecodeErr> {
    if pos < 0 || pos >= bytes.len() {
        Err(DecodeErr::NoEnoughDataErr)
    } else if bytes[pos] / 16 < 15 {
        match TarsTypeMark::spec_from_nibble(bytes[pos] % 16) {
            Some(mark) => Ok(Head { tag: bytes[pos] / 16, tars_type: mark, len: 1 }),
            None => Err(DecodeErr::UnknownTarsTypeErr),
        }
    } else if pos + 1 >= bytes.len() {
        Err(DecodeErr::NoEnoughDataErr)
    } else {
        match TarsTypeMark::spec_from_nibble(bytes[pos] % 16) {
            Some(mark) => Ok(Head { tag: bytes[pos + 1], tars_type: mark, len: 2 }),
            None => Err(DecodeErr::UnknownTarsTypeErr),
        }
    }
}

/// The position `count` bytes after `pos`, where the region has them.
pub open spec fn spec_advance(bytes: Seq<u8>, pos: int, count: int) -> Result<int, DecodeErr> {
    if 0 <= pos && 0 <= count && pos + count <= bytes.len() {
        Ok(pos + count)
    } else {
        Err(DecodeErr::NoEnoughDataErr)
    }
}

/// The bytes that a count announces: at `pos` stands a count of `width` bytes
/// in big-endian order, and after it come as many bytes as the count says.
pub open spec fn spec_counted(bytes: Seq<u8>, pos: int, width: nat) -> Result<Seq<u8>, DecodeErr> {
    match spec_advance(bytes, pos, width as int) {
        Err(e) => Err(e),
        Ok(start) => match spec_advance(bytes, start, be_unsigned(bytes.subrange(pos, start))) {
            Err(e) => Err(e),
            Ok(end) => Ok(bytes.subrange(start, end)),
        },
    }
}

/// The position after the bytes that a count announces.
pub open spec fn spec_skip_counted(bytes: Seq<u8>, pos: int, width: nat) -> Result<int, DecodeErr> {
    match spec_advance(bytes, pos, width as int) {
        Err(e) => Err(e),
        Ok(start) => spec_advance(bytes, start, be_unsigned(bytes.subrange(pos, start))),
    }
}

/// Where the payload that starts at `pos` ends, for every mark but
/// `EnStructBegin`: the integers and floats have their widths, a string has
/// its length before it, a sequence or mapping the byte length of its region,
/// a simple list an inner header and a count; `EnZero` and `EnStructEnd` have
/// no payload.
pub open spec fn spec_skip_flat(bytes: Seq<u8>, pos: int, mark: TarsTypeMark) -> Result<
    int,
    DecodeErr,
> {
    match mark {
        TarsTypeMark::EnInt8 => spec_advance(bytes, pos, 1),
        TarsTypeMark::EnInt16 => spec_advance(bytes, pos, 2),
        TarsTypeMark::EnInt32 => spec_advance(bytes, pos, 4),
        TarsTypeMark::EnInt64 => spec_advance(bytes, pos, 8),
        TarsTypeMark::EnFloat => spec_advance(bytes, pos, 4),
        TarsTypeMark::EnDouble => spec_advance(bytes, pos, 8),
        TarsTypeMark::EnString1 => spec_skip_counted(bytes, pos, 1),
        TarsTypeMark::EnString4 => spec_skip_counted(bytes, pos, 4),
        TarsTypeMark::EnMaps => spec_skip_counted(bytes, pos, 4),
        TarsTypeMark::EnList => spec_skip_counted(bytes, pos, 4),
        TarsTypeMark::EnSimplelist => match spec_take_head(bytes, pos) {
            Err(e) => Err(e),
            Ok(inner) => spec_skip_counted(bytes, pos + inner.len, 4),
        },
        TarsTypeMark::EnStructBegin => spec_advance(bytes, pos, 0),
        TarsTypeMark::EnStructEnd => spec_advance(bytes, pos, 0),
        TarsTypeMark::EnZero => spec_advance(bytes, pos, 0),
    }
}

/// Where the record closes whose fields start at `pos`, when `depth` records
/// have been opened since and not yet closed: the position of the struct-end
/// header that closes it, and the position after that header. Every field on
/// the way is stepped over by its size; a nested record raises the depth, a
/// struct-end header lowers it.
pub open spec fn spec_struct_close(bytes: Seq<u8>, pos: int, depth: nat) -> Result<
    (int, int),
    DecodeErr,
>
    decreases bytes.len() - pos,
    via spec_struct_close_decreases
{
    match spec_take_head(bytes, pos) {
        Err(e) => Err(e),
        Ok(head) => match head.tars_type {
            TarsTypeMark::EnStructBegin => spec_struct_close(bytes, pos + head.len, depth + 1),
            TarsTypeMark::EnStructEnd => if depth == 0 {
                Ok((pos, pos + head.len))
            } else {
                spec_struct_close(bytes, pos + head.len, (depth - 1) as nat)
            },
            mark => match spec_skip_flat(bytes, pos + head.len, mark) {
                Err(e) => Err(e),
                Ok(after) => spec_struct_close(bytes, after, depth),
            },
        },
    }
}

#[via_fn]
proof fn spec_struct_close_decreases(bytes: Seq<u8>, pos: int, depth: nat) {
    match spec_take_head(bytes, pos) {
        Err(e) => {},
        Ok(head) => {
            lemma_skip_flat_bounds(bytes, pos + head.len, head.tars_type);
        },
    }
}

/// A payload ends at or after its start, and within the region.
pub proof fn lemma_skip_flat_bounds(bytes: Seq<u8>, pos: int, mark: TarsTypeMark)
    ensures
        spec_skip_flat(bytes, pos, mark) matches Ok(after) ==> pos <= after <= bytes.len(),
{
    if mark == TarsTypeMark::EnString1 || mark == TarsTypeMark::EnString4 || mark
        == TarsTypeMark::EnMaps || mark == TarsTypeMark::EnList {
        let width: nat = if mark == TarsTypeMark::EnString1 { 1 } else { 4 };
        if spec_advance(bytes, pos, width as int) is Ok {
            lemma_be_unsigned_bound(bytes.subrange(pos, pos + width));
        }
    } else if mark == TarsTypeMark::EnSimplelist {
        match spec_take_head(bytes, pos) {
            Err(e) => {},
            Ok(inner) => {
                if spec_advance(bytes, pos + inner.len, 4) is Ok {
                    lemma_be_unsigned_bound(bytes.subrange(pos + inner.len, pos + inner.len + 4));
                }
            },
        }
    }
}

/// Where the payload that starts at `pos` ends, for every mark: a nested
/// record ends after the struct-end header that closes it.
///
/// The definition is opaque, so that a proof about a scan does not unfold the
/// sizes of the fields it steps over; a proof about a size reveals it.
#[verifier::opaque]
pub open spec fn spec_skip_field(bytes: Seq<u8>, pos: int, mark: TarsTypeMark) -> Result<
    int,
    DecodeErr,
> {
    if mark == TarsTypeMark::EnStructBegin {
        match spec_struct_close(bytes, pos, 0) {
            Err(e) => Err(e),
            Ok(close) => Ok(close.1),
        }
    } else {
        spec_skip_flat(bytes, pos, mark)
    }
}

/// Where the field that starts at `pos` ends: after its header and its payload.
pub open spec fn spec_field_end(bytes: Seq<u8>, pos: int) -> Result<int, DecodeErr> {
    match spec_take_head(bytes, pos) {
        Err(e) => Err(e),
        Ok(head) => spec_skip_field(bytes, pos + head.len, head.tars_type),
    }
}

/// The first field with the tag `tag` at or after `pos`: its header and the
/// position of its payload. Fields with other tags are stepped over by their
/// size. Where the region ends without the tag the result is `TagNotFoundErr`.
pub open spec fn spec_find_tag(bytes: Seq<u8>, pos: int, tag: u8) -> Result<(Head, int), DecodeErr>
    decreases bytes.len() - pos,
    via spec_find_tag_decreases
{
    if pos >= bytes.len() {
        Err(DecodeErr::TagNotFoundErr)
    } else {
        match spec_take_head(bytes, pos) {
            Err(e) => Err(e),
            Ok(head) => if head.tag == tag {
                Ok((head, pos + head.len))
            } else {
                match spec_skip_field(bytes, pos + head.len, head.tars_type) {
                    Err(e) => Err(e),
                    Ok(after) => spec_find_tag(bytes, after, tag),
                }
            },
        }
    }
}

#[via_fn]
proof fn spec_find_tag_decreases(bytes: Seq<u8>, pos: int, tag: u8) {
    match spec_take_head(bytes, pos) {
        Err(e) => {},
        Ok(head) => {
            lemma_skip_field_bounds(bytes, pos + head.len, head.tars_type);
        },
    }
}

/// Where a record closes lies after the start of its fields and within the region.
pub proof fn lemma_struct_close_bounds(bytes: Seq<u8>, pos: int, depth: nat)
    ensures
        spec_struct_close(bytes, pos, depth) matches Ok(close) ==> pos <= close.0 < close.1
            <= bytes.len(),
    decreases bytes.len() - pos,
{
    match spec_take_head(bytes, pos) {
        Err(e) => {},
        Ok(head) => {
            lemma_skip_flat_bounds(bytes, pos + head.len, head.tars_type);
            match head.tars_type {
                TarsTypeMark::EnStructBegin => {
                    lemma_struct_close_bounds(bytes, pos + head.len, depth + 1);
                },
                TarsTypeMark::EnStructEnd => {
                    if depth > 0 {
                        lemma_struct_close_bounds(bytes, pos + head.len, (depth - 1) as nat);
                    }
                },
                mark => {
                    match spec_skip_flat(bytes, pos + head.len, mark) {
                        Err(e) => {},
                        Ok(after) => {
                            lemma_struct_close_bounds(bytes, after, depth);
                        },
                    }
                },
            }
        },
    }
}

/// A payload of any mark ends at or after its start, and within the region.
pub proof fn lemma_skip_field_bounds(bytes: Seq<u8>, pos: int, mark: TarsTypeMark)
    ensures
        spec_skip_field(bytes, pos, mark) matches Ok(after) ==> pos <= after <= bytes.len(),
{
    reveal(spec_skip_field);
    lemma_skip_flat_bounds(bytes, pos, mark);
    lemma_struct_close_bounds(bytes, pos, 0);
}

/// Whether the region has no field with the tag `tag`: whether a scan from
/// the start reaches the end of the region without meeting the tag.
pub open spec fn tag_absent(bytes: Seq<u8>, tag: u8) -> bool {
    spec_find_tag(bytes, 0, tag) == Err::<(Head, int), DecodeErr>(DecodeErr::TagNotFoundErr)
}

/// The integer that a payload at `pos` with the mark `mark` holds, for a
/// request of `width` bytes: 0 for `EnZero`; for an integer mark of at most
/// `width` bytes the big-endian number, read in two's complement where
/// `signed` and as unsigned where not; `MisMatchTarsTypeErr` for a wider
/// integer mark and for every other mark.
pub open spec fn spec_int_payload(
    bytes: Seq<u8>,
    pos: int,
    mark: TarsTypeMark,
    width: nat,
    signed: bool,
) -> Result<int, DecodeErr> {
    if mark == TarsTypeMark::EnZero {
        Ok(0)
    } else if int_width(mark) == 0 || int_width(mark) > width {
        Err(DecodeErr::MisMatchTarsTypeErr)
    } else {
        match spec_advance(bytes, pos, int_width(mark) as int) {
            Err(e) => Err(e),
            Ok(end) => if signed {
                Ok(be_signed(bytes.subrange(pos, end)))
            } else {
                Ok(be_unsigned(bytes.subrange(pos, end)))
            },
        }
    }
}

/// The bits of the float that a payload at `pos` with the mark `mark` holds,
/// for a request of the mark `want` (`EnFloat` with `width` 4 or `EnDouble`
/// with `width` 8): 0 for `EnZero`, the big-endian bits for `want`,
/// `MisMatchTarsTypeErr` for every other mark.
pub open spec fn spec_float_payload(
    bytes: Seq<u8>,
    pos: int,
    mark: TarsTypeMark,
    want: TarsTypeMark,
    width: nat,
) -> Result<int, DecodeErr> {
    if mark == TarsTypeMark::EnZero {
        Ok(0)
    } else if mark != want {
        Err(DecodeErr::MisMatchTarsTypeErr)
    } else {
        match spec_advance(bytes, pos, width as int) {
            Err(e) => Err(e),
            Ok(end) => Ok(be_unsigned(bytes.subrange(pos, end))),
        }
    }
}

/// The UTF-8 bytes of the string that a payload at `pos` with the mark `mark`
/// holds: a one-byte length and the bytes for `EnString1`, a four-byte length
/// and the bytes for `EnString4`, `MisMatchTarsTypeErr` for every other mark.
pub open spec fn spec_string_payload(bytes: Seq<u8>, pos: int, mark: TarsTypeMark) -> Result<
    Seq<u8>,
    DecodeErr,
> {
    if mark == TarsTypeMark::EnString1 {
        spec_counted(bytes, pos, 1)
    } else if mark == TarsTypeMark::EnString4 {
        spec_counted(bytes, pos, 4)
    } else {
        Err(DecodeErr::MisMatchTarsTypeErr)
    }
}

/// The bytes of the simple list that a payload at `pos` with the mark `mark`
/// holds: `MisMatchTarsTypeErr` unless the mark is `EnSimplelist`;
/// `WrongSimpleListTarsTypeErr` unless the inner header has the mark `EnInt8`;
/// then a four-byte count and as many bytes.
pub open spec fn spec_blob_payload(bytes: Seq<u8>, pos: int, mark: TarsTypeMark) -> Result<
    Seq<u8>,
    DecodeErr,
> {
    if mark != TarsTypeMark::EnSimplelist {
        Err(DecodeErr::MisMatchTarsTypeErr)
    } else {
        match spec_take_head(bytes, pos) {
            Err(e) => Err(e),
            Ok(inner) => if inner.tars_type != TarsTypeMark::EnInt8 {
                Err(DecodeErr::WrongSimpleListTarsTypeErr)
            } else {
                spec_counted(bytes, pos + inner.len, 4)
            },
        }
    }
}

/// The region of a composite that a payload at `pos` with the mark `mark`
/// holds, for a request of the mark `want` (`EnList` or `EnMaps`):
/// `MisMatchTarsTypeErr` unless the mark is `want`; then a four-byte length
/// and as many bytes, in which the elements stand.
pub open spec fn spec_region_payload(
    bytes: Seq<u8>,
    pos: int,
    mark: TarsTypeMark,
    want: TarsTypeMark,
) -> Result<Seq<u8>, DecodeErr> {
    if mark != want {
        Err(DecodeErr::MisMatchTarsTypeErr)
    } else {
        spec_counted(bytes, pos, 4)
    }
}

/// The fields of the nested record that a payload at `pos` with the mark
/// `mark` holds: `MisMatchTarsTypeErr` unless the mark is `EnStructBegin`; then
/// the bytes from `pos` up to the struct-end header that closes the record.
pub open spec fn spec_struct_payload(bytes: Seq<u8>, pos: int, mark: TarsTypeMark) -> Result<
    Seq<u8>,
    DecodeErr,
> {
    if mark != TarsTypeMark::EnStructBegin {
        Err(DecodeErr::MisMatchTarsTypeErr)
    } else {
        match spec_struct_close(bytes, pos, 0) {
            Err(e) => Err(e),
            Ok(close) => Ok(bytes.subrange(pos, close.0)),
        }
    }
}

/// The integer that the field `tag` of the region holds, for a request of
/// `width` bytes, signed or unsigned.
pub open spec fn spec_read_int(bytes: Seq<u8>, tag: u8, width: nat, signed: bool) -> Result<
    int,
    DecodeErr,
> {
    match spec_find_tag(bytes, 0, tag) {
        Err(e) => Err(e),
        Ok(found) => spec_int_payload(bytes, found.1, found.0.tars_type, width, signed),
    }
}

/// The bits of the float that the field `tag` of the region holds.
pub open spec fn spec_read_float(bytes: Seq<u8>, tag: u8, want: TarsTypeMark, width: nat) -> Result<
    int,
    DecodeErr,
> {
    match spec_find_tag(bytes, 0, tag) {
        Err(e) => Err(e),
        Ok(found) => spec_float_payload(bytes, found.1, found.0.tars_type, want, width),
    }
}

/// The UTF-8 bytes of the string that the field `tag` of the region holds.
pub open spec fn spec_read_string(bytes: Seq<u8>, tag: u8) -> Result<Seq<u8>, DecodeErr> {
    match spec_find_tag(bytes, 0, tag) {
        Err(e) => Err(e),
        Ok(found) => spec_string_payload(bytes, found.1, found.0.tars_type),
    }
}

/// The bytes of the simple list that the field `tag` of the region holds.
pub open spec fn spec_read_blob(bytes: Seq<u8>, tag: u8) -> Result<Seq<u8>, DecodeErr> {
    match spec_find_tag(bytes, 0, tag) {
        Err(e) => Err(e),
        Ok(found) => spec_blob_payload(bytes, found.1, found.0.tars_type),
    }
}

/// The region of the composite with the mark `want` that the field `tag` of
/// the region holds.
pub open spec fn spec_read_region(bytes: Seq<u8>, tag: u8, want: TarsTypeMark) -> Result<
    Seq<u8>,
    DecodeErr,
> {
    match spec_find_tag(bytes, 0, tag) {
        Err(e) => Err(e),
        Ok(found) => spec_region_payload(bytes, found.1, found.0.tars_type, want),
    }
}

/// The fields of the nested record that the field `tag` of the region holds.
pub open spec fn spec_read_struct(bytes: Seq<u8>, tag: u8) -> Result<Seq<u8>, DecodeErr> {
    match spec_find_tag(bytes, 0, tag) {
        Err(e) => Err(e),
        Ok(found) => spec_struct_payload(bytes, found.1, found.0.tars_type),
    }
}

} // verus!
