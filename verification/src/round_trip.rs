//! The laws of the values: a value that was written reads back as the same
//! value, wherever its field stands among the fields of a record, and writing
//! what was read gives the same bytes again.
//!
//! `reads_back` states this of one value and one tag. It is proved here for
//! every kind of value that this library writes. For a sequence, a mapping,
//! an optional value and a record it is proved from the same law of the parts.
use crate::buffer::{bytes_contents, lossy_text};
use crate::errors::DecodeErr;
use crate::framing::{lemma_extend_field_end, lemma_shift_field_end, lemma_shift_take_head};
use crate::laws::{
    law_blob_round_trip, law_bool_round_trip, law_double_round_trip, law_float_round_trip,
    law_int_round_trip, law_read_in_record, law_region_round_trip, law_string_round_trip,
    law_struct_round_trip, law_uint_round_trip, lemma_pow256_values, whole_field, whole_fields,
    whole_fields_without,
};
use crate::tars_decoder::{
    byte_bool, byte_i8, entries_decoded, items_decoded, lemma_field_end_bounds, value_decoded,
    DecodeFromTars, StructDecodeFromTars,
};
use crate::tars_encoder::{
    bool_bytes, entries_bytes, entries_same, i8_bytes, items_bytes, items_same, EncodeIntoTars,
    StructEncodeIntoTars, TarsListItem,
};
use crate::tars_map::{
    key_transitive, law_ascending_all, lemma_bytes_lt_transitive, lemma_put_last, map_put,
    put_all, TarsKey, TarsMap,
};
use crate::tars_type::{TarsDouble, TarsFloat, TarsTypeMark};
use crate::wire::{
    max_len, region_field, spec_field_end, spec_read_float, spec_read_int, spec_read_region, tag_absent,
};
use bytes::Bytes;
use vstd::prelude::*;
use vstd::utf8::{encode_utf8, encode_utf8_decode_utf8, encode_utf8_valid_utf8};

verus! {

/// The law of a value `v` written at `tag`:
/// - what is written is exactly one field with that tag;
/// - in every region where whole fields with other tags stand before that
///   field, and anything after it, a read of `tag` gives a value that is the
///   same as `v`, and gives nothing else;
/// - `v` is the same as itself, and a value that is the same as `v` is written
///   as the same bytes.
pub open spec fn reads_back<T: EncodeIntoTars + DecodeFromTars>(v: T, tag: u8) -> bool {
    &&& whole_field(v.tars_field(tag), tag)
    &&& forall|pre: Seq<u8>, post: Seq<u8>, r: Result<T, DecodeErr>|
        whole_fields_without(pre, 0, tag) ==> (#[trigger] T::tars_decoded(
            pre + v.tars_field(tag) + post,
            tag,
            r,
        ) <==> (r matches Ok(w) && w.tars_same(&v)))
    &&& v.tars_same(&v)
    &&& forall|w: T| #[trigger] w.tars_same(&v) ==> w.tars_field(tag) == v.tars_field(tag)
}

/// A value that reads back does so from its field alone.
pub proof fn lemma_reads_back_alone<T: EncodeIntoTars + DecodeFromTars>(
    v: T,
    tag: u8,
    r: Result<T, DecodeErr>,
)
    requires
        reads_back(v, tag),
    ensures
        T::tars_decoded(v.tars_field(tag), tag, r) <==> (r matches Ok(w) && w.tars_same(&v)),
{
    let none = Seq::<u8>::empty();
    let field = v.tars_field(tag);
    assert(none + field + none =~= field);
    assert(whole_fields_without(none, 0, tag));
    assert(T::tars_decoded(none + field + none, tag, r) <==> (r matches Ok(w) && w.tars_same(&v)));
}

/// Writing what was read in the place of what was written gives the same
/// region, byte for byte. So a record whose fields are read one by one by
/// their tags and written again in the same order gives the bytes that were
/// read.
pub proof fn law_rewritten_field<T: EncodeIntoTars + DecodeFromTars>(
    v: T,
    tag: u8,
    pre: Seq<u8>,
    post: Seq<u8>,
    w: T,
)
    requires
        reads_back(v, tag),
        whole_fields_without(pre, 0, tag),
        T::tars_decoded(pre + v.tars_field(tag) + post, tag, Ok::<T, DecodeErr>(w)),
    ensures
        w.tars_same(&v),
        pre + w.tars_field(tag) + post == pre + v.tars_field(tag) + post,
{
}

/// Two fields with two tags that are written one after the other, read by
/// their tags and written again in the same order give the same bytes.
pub proof fn law_rewritten_fields<
    A: EncodeIntoTars + DecodeFromTars,
    B: EncodeIntoTars + DecodeFromTars,
>(a: A, tag_a: u8, b: B, tag_b: u8, read_a: A, read_b: B)
    requires
        tag_a != tag_b,
        reads_back(a, tag_a),
        reads_back(b, tag_b),
        A::tars_decoded(a.tars_field(tag_a) + b.tars_field(tag_b), tag_a, Ok::<A, DecodeErr>(read_a)),
        B::tars_decoded(a.tars_field(tag_a) + b.tars_field(tag_b), tag_b, Ok::<B, DecodeErr>(read_b)),
    ensures
        read_a.tars_field(tag_a) + read_b.tars_field(tag_b) == a.tars_field(tag_a) + b.tars_field(
            tag_b,
        ),
{
    let none = Seq::<u8>::empty();
    let field_a = a.tars_field(tag_a);
    let field_b = b.tars_field(tag_b);
    assert(whole_fields_without(none, 0, tag_a));
    assert(none + field_a + field_b =~= field_a + field_b);
    law_rewritten_field(a, tag_a, none, field_b, read_a);
    law_fields_without_then_field(none, field_a, tag_a, tag_b);
    assert(none + field_a =~= field_a);
    assert(field_a + field_b + none =~= field_a + field_b);
    law_rewritten_field(b, tag_b, field_a, none, read_b);
}

// ---------------------------------------------------------------------------
// Numbers, booleans, floats
// ---------------------------------------------------------------------------

/// Every signed 8-bit number reads back, at every tag, whatever width it was
/// written in.
pub proof fn law_i8_reads_back(v: i8, tag: u8)
    ensures
        reads_back::<i8>(v, tag),
{
    lemma_pow256_values();
    law_int_round_trip(tag, v as int, 1);
    let field = v.tars_field(tag);
    assert forall|pre: Seq<u8>, post: Seq<u8>, r: Result<i8, DecodeErr>|
        whole_fields_without(pre, 0, tag) implies (#[trigger] i8::tars_decoded(
        pre + field + post,
        tag,
        r,
    ) <==> (r matches Ok(w) && w.tars_same(&v))) by {
        law_read_in_record(pre, field, post, tag);
        assert(spec_read_int(field, tag, 1, true) is Ok);
    }
}

/// Every signed 16-bit number reads back, at every tag, whatever width it was
/// written in.
pub proof fn law_i16_reads_back(v: i16, tag: u8)
    ensures
        reads_back::<i16>(v, tag),
{
    lemma_pow256_values();
    law_int_round_trip(tag, v as int, 2);
    let field = v.tars_field(tag);
    assert forall|pre: Seq<u8>, post: Seq<u8>, r: Result<i16, DecodeErr>|
        whole_fields_without(pre, 0, tag) implies (#[trigger] i16::tars_decoded(
        pre + field + post,
        tag,
        r,
    ) <==> (r matches Ok(w) && w.tars_same(&v))) by {
        law_read_in_record(pre, field, post, tag);
        assert(spec_read_int(field, tag, 2, true) is Ok);
    }
}

/// Every signed 32-bit number reads back, at every tag, whatever width it was
/// written in.
pub proof fn law_i32_reads_back(v: i32, tag: u8)
    ensures
        reads_back::<i32>(v, tag),
{
    lemma_pow256_values();
    law_int_round_trip(tag, v as int, 4);
    let field = v.tars_field(tag);
    assert forall|pre: Seq<u8>, post: Seq<u8>, r: Result<i32, DecodeErr>|
        whole_fields_without(pre, 0, tag) implies (#[trigger] i32::tars_decoded(
        pre + field + post,
        tag,
        r,
    ) <==> (r matches Ok(w) && w.tars_same(&v))) by {
        law_read_in_record(pre, field, post, tag);
        assert(spec_read_int(field, tag, 4, true) is Ok);
    }
}

/// Every signed 64-bit number reads back, at every tag, whatever width it was
/// written in.
pub proof fn law_i64_reads_back(v: i64, tag: u8)
    ensures
        reads_back::<i64>(v, tag),
{
    lemma_pow256_values();
    law_int_round_trip(tag, v as int, 8);
    let field = v.tars_field(tag);
    assert forall|pre: Seq<u8>, post: Seq<u8>, r: Result<i64, DecodeErr>|
        whole_fields_without(pre, 0, tag) implies (#[trigger] i64::tars_decoded(
        pre + field + post,
        tag,
        r,
    ) <==> (r matches Ok(w) && w.tars_same(&v))) by {
        law_read_in_record(pre, field, post, tag);
        assert(spec_read_int(field, tag, 8, true) is Ok);
    }
}

/// Every unsigned 8-bit number reads back, at every tag, whatever width it was
/// written in.
pub proof fn law_u8_reads_back(v: u8, tag: u8)
    ensures
        reads_back::<u8>(v, tag),
{
    lemma_pow256_values();
    law_uint_round_trip(tag, v as int, 1);
    let field = v.tars_field(tag);
    assert forall|pre: Seq<u8>, post: Seq<u8>, r: Result<u8, DecodeErr>|
        whole_fields_without(pre, 0, tag) implies (#[trigger] u8::tars_decoded(
        pre + field + post,
        tag,
        r,
    ) <==> (r matches Ok(w) && w.tars_same(&v))) by {
        law_read_in_record(pre, field, post, tag);
        assert(spec_read_int(field, tag, 1, false) is Ok);
    }
}

/// Every unsigned 16-bit number reads back, at every tag, whatever width it was
/// written in.
pub proof fn law_u16_reads_back(v: u16, tag: u8)
    ensures
        reads_back::<u16>(v, tag),
{
    lemma_pow256_values();
    law_uint_round_trip(tag, v as int, 2);
    let field = v.tars_field(tag);
    assert forall|pre: Seq<u8>, post: Seq<u8>, r: Result<u16, DecodeErr>|
        whole_fields_without(pre, 0, tag) implies (#[trigger] u16::tars_decoded(
        pre + field + post,
        tag,
        r,
    ) <==> (r matches Ok(w) && w.tars_same(&v))) by {
        law_read_in_record(pre, field, post, tag);
        assert(spec_read_int(field, tag, 2, false) is Ok);
    }
}

/// Every unsigned 32-bit number reads back, at every tag, whatever width it was
/// written in.
pub proof fn law_u32_reads_back(v: u32, tag: u8)
    ensures
        reads_back::<u32>(v, tag),
{
    lemma_pow256_values();
    law_uint_round_trip(tag, v as int, 4);
    let field = v.tars_field(tag);
    assert forall|pre: Seq<u8>, post: Seq<u8>, r: Result<u32, DecodeErr>|
        whole_fields_without(pre, 0, tag) implies (#[trigger] u32::tars_decoded(
        pre + field + post,
        tag,
        r,
    ) <==> (r matches Ok(w) && w.tars_same(&v))) by {
        law_read_in_record(pre, field, post, tag);
        assert(spec_read_int(field, tag, 4, false) is Ok);
    }
}

/// Every unsigned 64-bit number reads back, at every tag, whatever width it was
/// written in.
pub proof fn law_u64_reads_back(v: u64, tag: u8)
    ensures
        reads_back::<u64>(v, tag),
{
    lemma_pow256_values();
    law_uint_round_trip(tag, v as int, 8);
    let field = v.tars_field(tag);
    assert forall|pre: Seq<u8>, post: Seq<u8>, r: Result<u64, DecodeErr>|
        whole_fields_without(pre, 0, tag) implies (#[trigger] u64::tars_decoded(
        pre + field + post,
        tag,
        r,
    ) <==> (r matches Ok(w) && w.tars_same(&v))) by {
        law_read_in_record(pre, field, post, tag);
        assert(spec_read_int(field, tag, 8, false) is Ok);
    }
}

/// A signed number is written as the same bytes whatever the width of the
/// type that holds it: the narrowest width that holds the number is chosen
/// from the number alone.
pub proof fn law_signed_width_does_not_matter(v: i64, tag: u8)
    ensures
        i8::MIN <= v <= i8::MAX ==> (v as i8).tars_field(tag) == v.tars_field(tag),
        i16::MIN <= v <= i16::MAX ==> (v as i16).tars_field(tag) == v.tars_field(tag),
        i32::MIN <= v <= i32::MAX ==> (v as i32).tars_field(tag) == v.tars_field(tag),
{
}

/// An unsigned number is written as the same bytes whatever the width of the
/// type that holds it.
pub proof fn law_unsigned_width_does_not_matter(v: u64, tag: u8)
    ensures
        v <= u8::MAX ==> (v as u8).tars_field(tag) == v.tars_field(tag),
        v <= u16::MAX ==> (v as u16).tars_field(tag) == v.tars_field(tag),
        v <= u32::MAX ==> (v as u32).tars_field(tag) == v.tars_field(tag),
{
}

/// Every boolean reads back, at every tag.
pub proof fn law_bool_reads_back(v: bool, tag: u8)
    ensures
        reads_back::<bool>(v, tag),
{
    law_bool_round_trip(tag, v);
    let field = v.tars_field(tag);
    assert forall|pre: Seq<u8>, post: Seq<u8>, r: Result<bool, DecodeErr>|
        whole_fields_without(pre, 0, tag) implies (#[trigger] bool::tars_decoded(
        pre + field + post,
        tag,
        r,
    ) <==> (r matches Ok(w) && w.tars_same(&v))) by {
        law_read_in_record(pre, field, post, tag);
        assert(spec_read_int(field, tag, 1, true) is Ok);
    }
}

/// Every 32-bit float reads back bit for bit, at every tag.
pub proof fn law_float_reads_back(v: TarsFloat, tag: u8)
    ensures
        reads_back::<TarsFloat>(v, tag),
{
    law_float_round_trip(tag, v.bits);
    let field = v.tars_field(tag);
    assert forall|pre: Seq<u8>, post: Seq<u8>, r: Result<TarsFloat, DecodeErr>|
        whole_fields_without(pre, 0, tag) implies (#[trigger] TarsFloat::tars_decoded(
        pre + field + post,
        tag,
        r,
    ) <==> (r matches Ok(w) && w.tars_same(&v))) by {
        law_read_in_record(pre, field, post, tag);
        assert(spec_read_float(field, tag, TarsTypeMark::EnFloat, 4) is Ok);
    }
}

/// Every 64-bit float reads back bit for bit, at every tag.
pub proof fn law_double_reads_back(v: TarsDouble, tag: u8)
    ensures
        reads_back::<TarsDouble>(v, tag),
{
    law_double_round_trip(tag, v.bits);
    let field = v.tars_field(tag);
    assert forall|pre: Seq<u8>, post: Seq<u8>, r: Result<TarsDouble, DecodeErr>|
        whole_fields_without(pre, 0, tag) implies (#[trigger] TarsDouble::tars_decoded(
        pre + field + post,
        tag,
        r,
    ) <==> (r matches Ok(w) && w.tars_same(&v))) by {
        law_read_in_record(pre, field, post, tag);
        assert(spec_read_float(field, tag, TarsTypeMark::EnDouble, 8) is Ok);
    }
}

// ---------------------------------------------------------------------------
// Strings and simple lists
// ---------------------------------------------------------------------------

/// Every string that a buffer took reads back as the same characters, at
/// every tag, in the short form or the long one.
pub proof fn law_string_reads_back(v: String, tag: u8, held: nat)
    requires
        v.tars_outcome(held, tag) is Ok,
    ensures
        reads_back::<String>(v, tag),
{
    let utf8 = encode_utf8(v@);
    law_string_round_trip(tag, utf8);
    encode_utf8_valid_utf8(v@);
    encode_utf8_decode_utf8(v@);
    assert(lossy_text(utf8) == v@);
    let field = v.tars_field(tag);
    assert forall|pre: Seq<u8>, post: Seq<u8>, r: Result<String, DecodeErr>|
        whole_fields_without(pre, 0, tag) implies (#[trigger] String::tars_decoded(
        pre + field + post,
        tag,
        r,
    ) <==> (r matches Ok(w) && w.tars_same(&v))) by {
        law_read_in_record(pre, field, post, tag);
    }
}

/// Every sequence of bytes that a buffer took reads back as the same bytes,
/// at every tag.
pub proof fn law_byte_list_reads_back(v: Vec<u8>, tag: u8, held: nat)
    requires
        v.tars_outcome(held, tag) is Ok,
    ensures
        reads_back::<Vec<u8>>(v, tag),
{
    law_blob_round_trip(tag, v@);
    let field = v.tars_field(tag);
    assert forall|pre: Seq<u8>, post: Seq<u8>, r: Result<Vec<u8>, DecodeErr>|
        whole_fields_without(pre, 0, tag) implies (#[trigger] Vec::<u8>::tars_decoded(
        pre + field + post,
        tag,
        r,
    ) <==> (r matches Ok(w) && w.tars_same(&v))) by {
        law_read_in_record(pre, field, post, tag);
    }
}

/// Every byte buffer that an encoder took reads back with the same contents,
/// at every tag.
pub proof fn law_bytes_reads_back(v: Bytes, tag: u8, held: nat)
    requires
        v.tars_outcome(held, tag) is Ok,
    ensures
        reads_back::<Bytes>(v, tag),
{
    law_blob_round_trip(tag, bytes_contents(v));
    let field = v.tars_field(tag);
    assert forall|pre: Seq<u8>, post: Seq<u8>, r: Result<Bytes, DecodeErr>|
        whole_fields_without(pre, 0, tag) implies (#[trigger] Bytes::tars_decoded(
        pre + field + post,
        tag,
        r,
    ) <==> (r matches Ok(w) && w.tars_same(&v))) by {
        law_read_in_record(pre, field, post, tag);
    }
}

/// Every sequence of signed 8-bit numbers that a buffer took reads back as
/// the same numbers, at every tag.
pub proof fn law_i8_list_reads_back(v: Vec<i8>, tag: u8, held: nat)
    requires
        v.tars_outcome(held, tag) is Ok,
    ensures
        reads_back::<Vec<i8>>(v, tag),
{
    let raw = i8_bytes(v@);
    law_blob_round_trip(tag, raw);
    assert(raw.map_values(|b: u8| byte_i8(b)) =~= v@);
    let field = v.tars_field(tag);
    assert forall|pre: Seq<u8>, post: Seq<u8>, r: Result<Vec<i8>, DecodeErr>|
        whole_fields_without(pre, 0, tag) implies (#[trigger] Vec::<i8>::tars_decoded(
        pre + field + post,
        tag,
        r,
    ) <==> (r matches Ok(w) && w.tars_same(&v))) by {
        law_read_in_record(pre, field, post, tag);
    }
}

/// Every sequence of booleans that a buffer took reads back as the same
/// booleans, at every tag.
pub proof fn law_bool_list_reads_back(v: Vec<bool>, tag: u8, held: nat)
    requires
        v.tars_outcome(held, tag) is Ok,
    ensures
        reads_back::<Vec<bool>>(v, tag),
{
    let raw = bool_bytes(v@);
    law_blob_round_trip(tag, raw);
    assert(raw.map_values(|b: u8| byte_bool(b)) =~= v@);
    let field = v.tars_field(tag);
    assert forall|pre: Seq<u8>, post: Seq<u8>, r: Result<Vec<bool>, DecodeErr>|
        whole_fields_without(pre, 0, tag) implies (#[trigger] Vec::<bool>::tars_decoded(
        pre + field + post,
        tag,
        r,
    ) <==> (r matches Ok(w) && w.tars_same(&v))) by {
        law_read_in_record(pre, field, post, tag);
    }
}

// ---------------------------------------------------------------------------
// Optional values
// ---------------------------------------------------------------------------

/// An optional value that is present reads back as present, with the same
/// value, where the value itself reads back.
pub proof fn law_present_reads_back<T: EncodeIntoTars + DecodeFromTars>(v: T, tag: u8)
    requires
        reads_back(v, tag),
    ensures
        reads_back::<Option<T>>(Some(v), tag),
{
    let field = v.tars_field(tag);
    let some = Some(v);
    assert(some.tars_field(tag) == field);
    assert forall|pre: Seq<u8>, post: Seq<u8>, r: Result<Option<T>, DecodeErr>|
        whole_fields_without(pre, 0, tag) implies (#[trigger] Option::<T>::tars_decoded(
        pre + field + post,
        tag,
        r,
    ) <==> (r matches Ok(w) && w.tars_same(&some))) by {
        law_read_in_record(pre, field, post, tag);
        let region = pre + field + post;
        match r {
            Ok(Some(w)) => {
                assert(T::tars_decoded(region, tag, Ok::<T, DecodeErr>(w)) <==> w.tars_same(&v));
            },
            Ok(None) => {},
            Err(e) => {
                assert(!T::tars_decoded(region, tag, Err::<T, DecodeErr>(e)));
            },
        }
    }
    assert forall|w: Option<T>| #[trigger] w.tars_same(&some) implies w.tars_field(tag)
        == some.tars_field(tag) by {
        assert(w->Some_0.tars_same(&v));
    }
}

/// An optional value that is absent writes nothing, and a read of its tag in
/// a region without that tag gives it back as absent.
pub proof fn law_absent_reads_back<T: EncodeIntoTars + DecodeFromTars>(
    region: Seq<u8>,
    tag: u8,
    r: Result<Option<T>, DecodeErr>,
)
    requires
        tag_absent(region, tag),
    ensures
        None::<T>.tars_field(tag) == Seq::<u8>::empty(),
        Option::<T>::tars_decoded(region, tag, r) <==> (r matches Ok(w) && w is None),
{
}

// ---------------------------------------------------------------------------
// Sequences
// ---------------------------------------------------------------------------

/// Whether the sequence `w` is `done` followed by as many elements as `rest`
/// has, each the same as the element of `rest` at its place.
pub open spec fn items_follow<T: EncodeIntoTars>(w: Seq<T>, done: Seq<T>, rest: Seq<T>) -> bool {
    &&& w.len() == done.len() + rest.len()
    &&& w.take(done.len() as int) == done
    &&& forall|j: int| 0 <= j < rest.len() ==> (#[trigger] w[done.len() + j]).tars_same(&rest[j])
}

/// The field of a value that reads back, standing between `before` and
/// `after`, ends where `after` starts, and is what stands between the two.
proof fn lemma_field_in_region<T: EncodeIntoTars + DecodeFromTars>(
    before: Seq<u8>,
    v: T,
    after: Seq<u8>,
)
    requires
        reads_back(v, 0),
    ensures
        v.tars_field(0).len() > 0,
        spec_field_end(before + v.tars_field(0) + after, before.len() as int) == Ok::<
            int,
            DecodeErr,
        >((before.len() + v.tars_field(0).len()) as int),
        (before + v.tars_field(0) + after).subrange(
            before.len() as int,
            (before.len() + v.tars_field(0).len()) as int,
        ) == v.tars_field(0),
{
    let field = v.tars_field(0);
    lemma_field_end_bounds(field, 0);
    lemma_extend_field_end(field, after, 0);
    lemma_shift_field_end(before, field + after, 0);
    assert(before + (field + after) =~= before + field + after);
    assert((before + field + after).subrange(
        before.len() as int,
        (before.len() + field.len()) as int,
    )
        =~= field);
}

/// Whether a read of the tag 0 in `field` gives a value that is the same as
/// `x`, and gives nothing else.
pub open spec fn field_gives<T: EncodeIntoTars + DecodeFromTars>(field: Seq<u8>, x: T) -> bool {
    forall|rr: Result<T, DecodeErr>| #[trigger]
        T::tars_decoded(field, 0, rr) <==> (rr matches Ok(y) && y.tars_same(&x))
}

/// A value that reads back at the tag 0 is what its field gives.
proof fn lemma_field_gives<T: EncodeIntoTars + DecodeFromTars>(x: T)
    requires
        reads_back(x, 0),
    ensures
        field_gives(x.tars_field(0), x),
{
    assert forall|rr: Result<T, DecodeErr>| #[trigger]
        T::tars_decoded(x.tars_field(0), 0, rr) <==> (rr matches Ok(y) && y.tars_same(&x)) by {
        lemma_reads_back_alone(x, 0, rr);
    }
}

/// Reading the elements from `pos`, where a field stands that ends at `end`
/// and gives `x`, is reading some element that is the same as `x` and then the
/// elements from `end`.
proof fn lemma_items_next<T: EncodeIntoTars + DecodeFromTars>(
    inner: Seq<u8>,
    pos: int,
    end: int,
    x: T,
    done: Seq<T>,
    r: Result<Vec<T>, DecodeErr>,
)
    requires
        0 <= pos < end <= inner.len(),
        spec_field_end(inner, pos) == Ok::<int, DecodeErr>(end),
        field_gives(inner.subrange(pos, end), x),
    ensures
        items_decoded::<T>(inner, pos, done, r) <==> (exists|item: T| #[trigger]
            item.tars_same(&x) && items_decoded::<T>(inner, end, done.push(item), r)),
{
    let field = inner.subrange(pos, end);
    if items_decoded::<T>(inner, pos, done, r) {
        if r is Err {
            assert(!T::tars_decoded(field, 0, Err::<T, DecodeErr>(r->Err_0)));
        }
        let item = choose|item: T| #[trigger]
            T::tars_decoded(field, 0, Ok::<T, DecodeErr>(item)) && items_decoded(
                inner,
                end,
                done.push(item),
                r,
            );
        assert(item.tars_same(&x) && items_decoded::<T>(inner, end, done.push(item), r));
        assert(exists|item: T| #[trigger]
            item.tars_same(&x) && items_decoded::<T>(inner, end, done.push(item), r));
    }
    if exists|item: T| #[trigger]
        item.tars_same(&x) && items_decoded::<T>(inner, end, done.push(item), r) {
        let item = choose|item: T| #[trigger]
            item.tars_same(&x) && items_decoded::<T>(inner, end, done.push(item), r);
        let at = spec_field_end(inner, pos)->Ok_0;
        assert(at == end);
        assert(T::tars_decoded(inner.subrange(pos, at), 0, Ok::<T, DecodeErr>(item))
            && items_decoded(inner, at, done.push(item), r));
        assert(exists|item: T| #[trigger]
            T::tars_decoded(inner.subrange(pos, at), 0, Ok::<T, DecodeErr>(item))
                && items_decoded(inner, at, done.push(item), r));
        assert(items_decoded::<T>(inner, pos, done, r));
    }
}

/// Reading the elements from the start of the field of `x`, which stands
/// between `before` and `after`, is reading some element that is the same as
/// `x` and then the elements from the end of that field.
proof fn lemma_items_step<T: EncodeIntoTars + DecodeFromTars>(
    before: Seq<u8>,
    x: T,
    after: Seq<u8>,
    done: Seq<T>,
    r: Result<Vec<T>, DecodeErr>,
)
    requires
        reads_back(x, 0),
    ensures
        items_decoded::<T>(before + x.tars_field(0) + after, before.len() as int, done, r) <==> (
        exists|item: T| #[trigger]
            item.tars_same(&x) && items_decoded::<T>(
                before + x.tars_field(0) + after,
                (before.len() + x.tars_field(0).len()) as int,
                done.push(item),
                r,
            )),
{
    let field = x.tars_field(0);
    let inner = before + field + after;
    let pos = before.len() as int;
    let end = pos + field.len();
    lemma_field_in_region(before, x, after);
    lemma_field_gives(x);
    lemma_items_next(inner, pos, end, x, done, r);
}

/// A sequence is `done`, the element `item` and what follows `tail`, where
/// `item` is the same as `x`, exactly when it is `done` and what follows `x`
/// and `tail`, with `item` at its place.
proof fn lemma_follow_push<T: EncodeIntoTars>(
    w: Seq<T>,
    done: Seq<T>,
    item: T,
    rest: Seq<T>,
)
    requires
        rest.len() > 0,
    ensures
        (items_follow(w, done.push(item), rest.drop_first()) && item.tars_same(&rest[0])) <==> (
        items_follow(w, done, rest) && w[done.len() as int] == item),
{
    let n = done.len() as int;
    let tail = rest.drop_first();
    let more = done.push(item);
    if items_follow(w, more, tail) && item.tars_same(&rest[0]) {
        assert(w.take(n + 1)[n] == more[n]);
        assert(w.take(n) =~= done) by {
            assert forall|k: int| 0 <= k < n implies w.take(n)[k] == done[k] by {
                assert(w.take(n + 1)[k] == more[k]);
            }
        }
        assert forall|j: int| 0 <= j < rest.len() implies (#[trigger] w[done.len() + j]).tars_same(
            &rest[j],
        ) by {
            if j > 0 {
                assert(w[more.len() + (j - 1)].tars_same(&tail[j - 1]));
                assert(more.len() + (j - 1) == done.len() + j);
            }
        }
    }
    if items_follow(w, done, rest) && w[n] == item {
        assert(w[done.len() + 0int].tars_same(&rest[0]));
        assert(w.take(n + 1) =~= more) by {
            assert forall|k: int| 0 <= k < n implies w.take(n + 1)[k] == more[k] by {
                assert(w.take(n)[k] == done[k]);
            }
        }
        assert forall|j: int| 0 <= j < tail.len() implies (#[trigger] w[more.len() + j]).tars_same(
            &tail[j],
        ) by {
            assert(w[done.len() + (j + 1)].tars_same(&rest[j + 1]));
            assert(more.len() + j == done.len() + (j + 1));
        }
    }
}

/// The elements `rest`, written one after the other behind `before`, read
/// back from there as elements that are the same as those of `rest`, behind
/// what was read before.
proof fn lemma_items_read_back<T: EncodeIntoTars + DecodeFromTars>(
    before: Seq<u8>,
    rest: Seq<T>,
    done: Seq<T>,
    r: Result<Vec<T>, DecodeErr>,
)
    requires
        forall|i: int| 0 <= i < rest.len() ==> reads_back(#[trigger] rest[i], 0),
    ensures
        items_decoded::<T>(before + items_bytes(rest), before.len() as int, done, r) <==> (
        r matches Ok(w) && items_follow(w@, done, rest)),
    decreases rest.len(),
{
    let inner = before + items_bytes(rest);
    let pos = before.len() as int;
    if rest.len() == 0 {
        assert(inner =~= before);
        if r is Ok {
            let w = r->Ok_0;
            assert(w@.take(w@.len() as int) =~= w@);
        }
    } else {
        let x = rest[0];
        let tail = rest.drop_first();
        let field = x.tars_field(0);
        let after = items_bytes(tail);
        let end = pos + field.len();
        assert(reads_back(x, 0));
        assert(inner =~= before + field + after);
        assert((before + field).len() == end);
        assert forall|i: int| 0 <= i < tail.len() implies reads_back(#[trigger] tail[i], 0) by {
            assert(tail[i] == rest[i + 1]);
        }
        lemma_items_step(before, x, after, done, r);
        if items_decoded::<T>(inner, pos, done, r) {
            let item = choose|item: T| #[trigger]
                item.tars_same(&x) && items_decoded::<T>(inner, end, done.push(item), r);
            lemma_items_read_back(before + field, tail, done.push(item), r);
            lemma_follow_push(r->Ok_0@, done, item, rest);
        }
        if r is Ok && items_follow(r->Ok_0@, done, rest) {
            let w = r->Ok_0;
            let item = w@[done.len() as int];
            lemma_follow_push(w@, done, item, rest);
            lemma_items_read_back(before + field, tail, done.push(item), r);
            assert(item.tars_same(&x) && items_decoded::<T>(inner, end, done.push(item), r));
        }
    }
}

/// Sequences that are the same, element for element, are written as the same
/// bytes, where the elements of the one read back.
proof fn lemma_items_same_bytes<T: EncodeIntoTars + DecodeFromTars>(a: Seq<T>, b: Seq<T>)
    requires
        items_same(a, b),
        forall|i: int| 0 <= i < b.len() ==> reads_back(#[trigger] b[i], 0),
    ensures
        items_bytes(a) == items_bytes(b),
    decreases b.len(),
{
    if b.len() > 0 {
        assert(a[0].tars_same(&b[0]));
        assert(reads_back(b[0], 0));
        let a_tail = a.drop_first();
        let b_tail = b.drop_first();
        assert forall|i: int| 0 <= i < b_tail.len() implies reads_back(#[trigger] b_tail[i], 0) by {
            assert(b_tail[i] == b[i + 1]);
        }
        assert forall|i: int| 0 <= i < a_tail.len() implies (#[trigger] a_tail[i]).tars_same(
            &b_tail[i],
        ) by {
            assert(a[i + 1].tars_same(&b[i + 1]));
        }
        lemma_items_same_bytes(a_tail, b_tail);
    }
}

/// Every sequence that a buffer took reads back as the same sequence, at
/// every tag, where each of its elements reads back. The empty sequence does.
pub proof fn law_list_reads_back<T: EncodeIntoTars + DecodeFromTars + TarsListItem>(
    v: Vec<T>,
    tag: u8,
    held: nat,
)
    requires
        v.tars_outcome(held, tag) is Ok,
        forall|i: int| 0 <= i < v@.len() ==> reads_back(#[trigger] v@[i], 0),
    ensures
        reads_back::<Vec<T>>(v, tag),
{
    let inner = items_bytes(v@);
    let none = Seq::<u8>::empty();
    law_region_round_trip(tag, TarsTypeMark::EnList, inner);
    let field = v.tars_field(tag);
    assert(none + inner =~= inner);
    assert forall|pre: Seq<u8>, post: Seq<u8>, r: Result<Vec<T>, DecodeErr>|
        whole_fields_without(pre, 0, tag) implies (#[trigger] Vec::<T>::tars_decoded(
        pre + field + post,
        tag,
        r,
    ) <==> (r matches Ok(w) && w.tars_same(&v))) by {
        law_read_in_record(pre, field, post, tag);
        assert(spec_read_region(field, tag, TarsTypeMark::EnList) is Ok);
        lemma_items_read_back(none, v@, Seq::<T>::empty(), r);
        if r is Ok {
            let w = r->Ok_0;
            assert(w@.take(0) =~= Seq::<T>::empty());
            assert(items_follow(w@, Seq::<T>::empty(), v@) <==> items_same(w@, v@)) by {
                if items_follow(w@, Seq::<T>::empty(), v@) {
                    assert forall|i: int| 0 <= i < w@.len() implies (#[trigger] w@[i]).tars_same(
                        &v@[i],
                    ) by {
                        assert(w@[0 + i].tars_same(&v@[i]));
                    }
                }
                if items_same(w@, v@) {
                    assert forall|j: int| 0 <= j < v@.len() implies (#[trigger] w@[0
                        + j]).tars_same(&v@[j]) by {
                        assert(w@[j].tars_same(&v@[j]));
                    }
                }
            }
        }
    }
    assert(v.tars_same(&v)) by {
        assert forall|i: int| 0 <= i < v@.len() implies (#[trigger] v@[i]).tars_same(&v@[i]) by {
            assert(reads_back(v@[i], 0));
        }
    }
    assert forall|w: Vec<T>| #[trigger] w.tars_same(&v) implies w.tars_field(tag) == v.tars_field(
        tag,
    ) by {
        lemma_items_same_bytes(w@, v@);
    }
}

// ---------------------------------------------------------------------------
// Mappings
// ---------------------------------------------------------------------------

/// Whether two entries are the same to the codec: the same key and the same
/// value.
pub open spec fn entry_same<K: EncodeIntoTars, V: EncodeIntoTars>(a: (K, V), b: (K, V)) -> bool {
    a.0.tars_same(&b.0) && a.1.tars_same(&b.1)
}

/// Whether the entries `w` are `done` followed by as many entries as `rest`
/// has, each the same as the entry of `rest` at its place.
pub open spec fn entries_follow<K: EncodeIntoTars, V: EncodeIntoTars>(
    w: Seq<(K, V)>,
    done: Seq<(K, V)>,
    rest: Seq<(K, V)>,
) -> bool {
    &&& w.len() == done.len() + rest.len()
    &&& w.take(done.len() as int) == done
    &&& forall|j: int| 0 <= j < rest.len() ==> entry_same(#[trigger] w[done.len() + j], rest[j])
}

/// Reading the entries from `pos`, where the field of a key stands that ends
/// at `mid` and gives `k`, and behind it the field of a value that ends at
/// `end` and gives `v`, is reading some entry that is the same as `(k, v)`,
/// putting it into the mapping, and then reading the entries from `end`.
proof fn lemma_entries_next<
    K: EncodeIntoTars + DecodeFromTars + TarsKey,
    V: EncodeIntoTars + DecodeFromTars,
>(
    inner: Seq<u8>,
    pos: int,
    mid: int,
    end: int,
    k: K,
    v: V,
    done: Seq<(K, V)>,
    r: Result<TarsMap<K, V>, DecodeErr>,
)
    requires
        0 <= pos < mid < end <= inner.len(),
        spec_field_end(inner, pos) == Ok::<int, DecodeErr>(mid),
        spec_field_end(inner, mid) == Ok::<int, DecodeErr>(end),
        field_gives(inner.subrange(pos, mid), k),
        field_gives(inner.subrange(mid, end), v),
    ensures
        entries_decoded::<K, V>(inner, pos, done, r) <==> (exists|entry: (K, V)| #[trigger]
            entry_same(entry, (k, v)) && entries_decoded::<K, V>(inner, end, map_put(done, entry.0, entry.1), r)),
{
    let key_field = inner.subrange(pos, mid);
    let value_field = inner.subrange(mid, end);
    if entries_decoded::<K, V>(inner, pos, done, r) {
        if r is Err {
            assert(!K::tars_decoded(key_field, 0, Err::<K, DecodeErr>(r->Err_0)));
            assert(!V::tars_decoded(value_field, 0, Err::<V, DecodeErr>(r->Err_0)));
        }
        let key = choose|key: K| #[trigger]
            K::tars_decoded(key_field, 0, Ok::<K, DecodeErr>(key)) && value_decoded(
                inner,
                mid,
                key,
                done,
                r,
            );
        assert(value_decoded(inner, mid, key, done, r));
        let value = choose|value: V| #[trigger]
            V::tars_decoded(value_field, 0, Ok::<V, DecodeErr>(value)) && entries_decoded(
                inner,
                end,
                map_put(done, key, value),
                r,
            );
        assert(entry_same((key, value), (k, v)) && entries_decoded::<K, V>(
            inner,
            end,
            map_put(done, key, value),
            r,
        ));
    }
    if exists|entry: (K, V)| #[trigger]
        entry_same(entry, (k, v)) && entries_decoded::<K, V>(inner, end, map_put(done, entry.0, entry.1), r) {
        let entry = choose|entry: (K, V)| #[trigger]
            entry_same(entry, (k, v)) && entries_decoded::<K, V>(inner, end, map_put(done, entry.0, entry.1), r);
        let key = entry.0;
        let value = entry.1;
        assert(entry == (key, value));
        let value_at = spec_field_end(inner, mid)->Ok_0;
        assert(value_at == end);
        assert(V::tars_decoded(inner.subrange(mid, value_at), 0, Ok::<V, DecodeErr>(value))
            && entries_decoded(inner, value_at, map_put(done, key, value), r));
        assert(exists|value: V| #[trigger]
            V::tars_decoded(inner.subrange(mid, value_at), 0, Ok::<V, DecodeErr>(value))
                && entries_decoded(inner, value_at, map_put(done, key, value), r));
        assert(value_decoded(inner, mid, key, done, r));
        let key_at = spec_field_end(inner, pos)->Ok_0;
        assert(key_at == mid);
        assert(K::tars_decoded(inner.subrange(pos, key_at), 0, Ok::<K, DecodeErr>(key))
            && value_decoded(inner, key_at, key, done, r));
        assert(exists|key: K| #[trigger]
            K::tars_decoded(inner.subrange(pos, key_at), 0, Ok::<K, DecodeErr>(key))
                && value_decoded(inner, key_at, key, done, r));
        assert(entries_decoded::<K, V>(inner, pos, done, r));
    }
}

/// Reading the entries from the start of the field of the key `k`, which
/// stands with the field of the value `v` between `before` and `after`, is
/// reading some entry that is the same as `(k, v)` and then the entries from
/// the end of the field of the value.
proof fn lemma_entries_step<
    K: EncodeIntoTars + DecodeFromTars + TarsKey,
    V: EncodeIntoTars + DecodeFromTars,
>(before: Seq<u8>, k: K, v: V, after: Seq<u8>, done: Seq<(K, V)>, r: Result<TarsMap<K, V>, DecodeErr>)
    requires
        reads_back(k, 0),
        reads_back(v, 0),
    ensures
        entries_decoded::<K, V>(
            before + k.tars_field(0) + v.tars_field(0) + after,
            before.len() as int,
            done,
            r,
        ) <==> (exists|entry: (K, V)| #[trigger]
            entry_same(entry, (k, v)) && entries_decoded::<K, V>(
                before + k.tars_field(0) + v.tars_field(0) + after,
                (before.len() + k.tars_field(0).len() + v.tars_field(0).len()) as int,
                map_put(done, entry.0, entry.1),
                r,
            )),
{
    let key_field = k.tars_field(0);
    let value_field = v.tars_field(0);
    let inner = before + key_field + value_field + after;
    let pos = before.len() as int;
    let mid = pos + key_field.len();
    let end = mid + value_field.len();
    lemma_field_in_region(before, k, value_field + after);
    assert(before + key_field + (value_field + after) =~= inner);
    lemma_field_in_region(before + key_field, v, after);
    lemma_field_gives(k);
    lemma_field_gives(v);
    lemma_entries_next(inner, pos, mid, end, k, v, done, r);
}

/// The entries are `done`, the entry `entry` and what follows `tail`, where
/// `entry` is the same as the first of `rest`, exactly when they are `done`
/// and what follows `rest`, with `entry` at its place.
proof fn lemma_entries_follow_push<K: EncodeIntoTars, V: EncodeIntoTars>(
    w: Seq<(K, V)>,
    done: Seq<(K, V)>,
    entry: (K, V),
    rest: Seq<(K, V)>,
)
    requires
        rest.len() > 0,
    ensures
        (entries_follow(w, done.push(entry), rest.drop_first()) && entry_same(entry, rest[0])) <==> (
        entries_follow(w, done, rest) && w[done.len() as int] == entry),
{
    let n = done.len() as int;
    let tail = rest.drop_first();
    let more = done.push(entry);
    if entries_follow(w, more, tail) && entry_same(entry, rest[0]) {
        assert(w.take(n + 1)[n] == more[n]);
        assert(w.take(n) =~= done) by {
            assert forall|k: int| 0 <= k < n implies w.take(n)[k] == done[k] by {
                assert(w.take(n + 1)[k] == more[k]);
            }
        }
        assert forall|j: int| 0 <= j < rest.len() implies entry_same(
            #[trigger] w[done.len() + j],
            rest[j],
        ) by {
            if j > 0 {
                assert(entry_same(w[more.len() + (j - 1)], tail[j - 1]));
                assert(more.len() + (j - 1) == done.len() + j);
            }
        }
    }
    if entries_follow(w, done, rest) && w[n] == entry {
        assert(entry_same(w[done.len() + 0int], rest[0]));
        assert(w.take(n + 1) =~= more) by {
            assert forall|k: int| 0 <= k < n implies w.take(n + 1)[k] == more[k] by {
                assert(w.take(n)[k] == done[k]);
            }
        }
        assert forall|j: int| 0 <= j < tail.len() implies entry_same(
            #[trigger] w[more.len() + j],
            tail[j],
        ) by {
            assert(entry_same(w[done.len() + (j + 1)], rest[j + 1]));
            assert(more.len() + j == done.len() + (j + 1));
        }
    }
}

/// Whether keys that are the same to the codec stand at the same place in the
/// order of the keys.
pub open spec fn key_same_respected<K: TarsKey + EncodeIntoTars>() -> bool {
    &&& forall|a: K, b: K, c: K|
        #![trigger a.tars_same(&b), a.key_lt(&c)]
        a.tars_same(&b) ==> a.key_lt(&c) == b.key_lt(&c)
    &&& forall|a: K, b: K, c: K|
        #![trigger a.tars_same(&b), c.key_lt(&a)]
        a.tars_same(&b) ==> c.key_lt(&a) == c.key_lt(&b)
}

/// Whether the keys of type `K` are ordered as the keys of a mapping must be:
/// the order is transitive, and keys that are the same to the codec stand at
/// the same place in it.
pub open spec fn key_order<K: TarsKey + EncodeIntoTars>() -> bool {
    key_transitive::<K>() && key_same_respected::<K>()
}

/// The signed 8-bit numbers are ordered as the keys of a mapping must be.
pub proof fn law_i8_key_order()
    ensures
        key_order::<i8>(),
{
}

/// The signed 16-bit numbers are ordered as the keys of a mapping must be.
pub proof fn law_i16_key_order()
    ensures
        key_order::<i16>(),
{
}

/// The signed 32-bit numbers are ordered as the keys of a mapping must be.
pub proof fn law_i32_key_order()
    ensures
        key_order::<i32>(),
{
}

/// The signed 64-bit numbers are ordered as the keys of a mapping must be.
pub proof fn law_i64_key_order()
    ensures
        key_order::<i64>(),
{
}

/// The unsigned 8-bit numbers are ordered as the keys of a mapping must be.
pub proof fn law_u8_key_order()
    ensures
        key_order::<u8>(),
{
}

/// The unsigned 16-bit numbers are ordered as the keys of a mapping must be.
pub proof fn law_u16_key_order()
    ensures
        key_order::<u16>(),
{
}

/// The unsigned 32-bit numbers are ordered as the keys of a mapping must be.
pub proof fn law_u32_key_order()
    ensures
        key_order::<u32>(),
{
}

/// The unsigned 64-bit numbers are ordered as the keys of a mapping must be.
pub proof fn law_u64_key_order()
    ensures
        key_order::<u64>(),
{
}

/// The booleans are ordered as the keys of a mapping must be.
pub proof fn law_bool_key_order()
    ensures
        key_order::<bool>(),
{
}

/// The strings are ordered as the keys of a mapping must be.
pub proof fn law_string_key_order()
    ensures
        key_order::<String>(),
{
    assert forall|a: String, b: String, c: String| #[trigger]
        a.key_lt(&b) && #[trigger] b.key_lt(&c) implies a.key_lt(&c) by {
        lemma_bytes_lt_transitive(encode_utf8(a@), encode_utf8(b@), encode_utf8(c@));
    }
}

/// The entries `rest`, written one after the other behind `before`, read back
/// from there as entries that are the same as those of `rest`, behind what
/// was read before: each is put at the end of the mapping, since its key comes
/// after every key read before.
proof fn lemma_entries_read_back<
    K: EncodeIntoTars + DecodeFromTars + TarsKey,
    V: EncodeIntoTars + DecodeFromTars,
>(before: Seq<u8>, rest: Seq<(K, V)>, done: Seq<(K, V)>, r: Result<TarsMap<K, V>, DecodeErr>)
    requires
        key_same_respected::<K>(),
        forall|i: int|
            0 <= i < rest.len() ==> reads_back((#[trigger] rest[i]).0, 0) && reads_back(
                rest[i].1,
                0,
            ),
        forall|i: int, j: int|
            0 <= i < done.len() && 0 <= j < rest.len() ==> (#[trigger] done[i]).0.key_lt(
                &(#[trigger] rest[j]).0,
            ),
        forall|i: int, j: int|
            0 <= i < j < rest.len() ==> (#[trigger] rest[i]).0.key_lt(&(#[trigger] rest[j]).0),
    ensures
        entries_decoded::<K, V>(before + entries_bytes(rest), before.len() as int, done, r) <==> (
        r matches Ok(w) && entries_follow(w@, done, rest)),
    decreases rest.len(),
{
    let inner = before + entries_bytes(rest);
    let pos = before.len() as int;
    if rest.len() == 0 {
        assert(inner =~= before);
        if r is Ok {
            let w = r->Ok_0;
            assert(w@.take(w@.len() as int) =~= w@);
        }
    } else {
        let k = rest[0].0;
        let v = rest[0].1;
        let tail = rest.drop_first();
        let key_field = k.tars_field(0);
        let value_field = v.tars_field(0);
        let after = entries_bytes(tail);
        let end = pos + key_field.len() + value_field.len();
        assert(reads_back(k, 0) && reads_back(v, 0));
        assert(inner =~= before + key_field + value_field + after);
        assert((before + key_field + value_field).len() == end);
        assert(rest[0] == (k, v));
        assert forall|i: int| 0 <= i < tail.len() implies reads_back((#[trigger] tail[i]).0, 0)
            && reads_back(tail[i].1, 0) by {
            assert(tail[i] == rest[i + 1]);
        }
        assert forall|i: int, j: int| 0 <= i < j < tail.len() implies (#[trigger] tail[i]).0.key_lt(
            &(#[trigger] tail[j]).0,
        ) by {
            assert(tail[i] == rest[i + 1] && tail[j] == rest[j + 1]);
            assert(rest[i + 1].0.key_lt(&rest[j + 1].0));
        }
        lemma_entries_step(before, k, v, after, done, r);
        // an entry that is the same as the first of `rest` goes to the end of
        // `done`, and stands before every later entry of `rest`
        assert forall|entry: (K, V)| #[trigger] entry_same(entry, (k, v)) implies map_put(
            done,
            entry.0,
            entry.1,
        ) == done.push(entry) && (forall|i: int, j: int|
            0 <= i < done.push(entry).len() && 0 <= j < tail.len() ==> (#[trigger] done.push(
                entry,
            )[i]).0.key_lt(&(#[trigger] tail[j]).0)) by {
            assert(entry.0.tars_same(&k));
            assert forall|i: int| 0 <= i < done.len() implies (#[trigger] done[i]).0.key_lt(
                &entry.0,
            ) by {
                assert(done[i].0.key_lt(&rest[0].0));
                assert(done[i].0.key_lt(&entry.0) == done[i].0.key_lt(&k));
            }
            lemma_put_last(done, entry.0, entry.1);
            assert((entry.0, entry.1) == entry);
            assert forall|i: int, j: int|
                0 <= i < done.push(entry).len() && 0 <= j < tail.len() implies (#[trigger] done.push(
                entry,
            )[i]).0.key_lt(&(#[trigger] tail[j]).0) by {
                assert(tail[j] == rest[j + 1]);
                if i < done.len() {
                    assert(done[i].0.key_lt(&rest[j + 1].0));
                } else {
                    assert(rest[0].0.key_lt(&rest[j + 1].0));
                    assert(entry.0.key_lt(&tail[j].0) == k.key_lt(&tail[j].0));
                }
            }
        }
        if entries_decoded::<K, V>(inner, pos, done, r) {
            let entry = choose|entry: (K, V)| #[trigger]
                entry_same(entry, (k, v)) && entries_decoded::<K, V>(
                    inner,
                    end,
                    map_put(done, entry.0, entry.1),
                    r,
                );
            lemma_entries_read_back(before + key_field + value_field, tail, done.push(entry), r);
            lemma_entries_follow_push(r->Ok_0@, done, entry, rest);
        }
        if r is Ok && entries_follow(r->Ok_0@, done, rest) {
            let w = r->Ok_0;
            let entry = w@[done.len() as int];
            lemma_entries_follow_push(w@, done, entry, rest);
            lemma_entries_read_back(before + key_field + value_field, tail, done.push(entry), r);
            assert(entry_same(entry, (k, v)) && entries_decoded::<K, V>(
                inner,
                end,
                map_put(done, entry.0, entry.1),
                r,
            ));
        }
    }
}

/// Mappings that are the same, entry for entry, are written as the same
/// bytes, where the keys and values of the one read back.
proof fn lemma_entries_same_bytes<
    K: EncodeIntoTars + DecodeFromTars,
    V: EncodeIntoTars + DecodeFromTars,
>(a: Seq<(K, V)>, b: Seq<(K, V)>)
    requires
        entries_same(a, b),
        forall|i: int|
            0 <= i < b.len() ==> reads_back((#[trigger] b[i]).0, 0) && reads_back(b[i].1, 0),
    ensures
        entries_bytes(a) == entries_bytes(b),
    decreases b.len(),
{
    if b.len() > 0 {
        assert(a[0].0.tars_same(&b[0].0) && a[0].1.tars_same(&b[0].1));
        assert(reads_back(b[0].0, 0) && reads_back(b[0].1, 0));
        let a_tail = a.drop_first();
        let b_tail = b.drop_first();
        assert forall|i: int| 0 <= i < b_tail.len() implies reads_back(
            (#[trigger] b_tail[i]).0,
            0,
        ) && reads_back(b_tail[i].1, 0) by {
            assert(b_tail[i] == b[i + 1]);
        }
        assert forall|i: int| 0 <= i < a_tail.len() implies (#[trigger] a_tail[i]).0.tars_same(
            &b_tail[i].0,
        ) && a_tail[i].1.tars_same(&b_tail[i].1) by {
            assert(a[i + 1].0.tars_same(&b[i + 1].0));
        }
        lemma_entries_same_bytes(a_tail, b_tail);
    }
}

/// The entries `rest`, written one after the other behind `before` in any
/// order and with any key as often as it comes, read back from there as a
/// mapping into which entries that are the same as those of `rest` were put,
/// first to last: of two entries with one key the later one stays.
proof fn lemma_entries_read_as_put<
    K: EncodeIntoTars + DecodeFromTars + TarsKey,
    V: EncodeIntoTars + DecodeFromTars,
>(before: Seq<u8>, rest: Seq<(K, V)>, done: Seq<(K, V)>, r: Result<TarsMap<K, V>, DecodeErr>)
    requires
        forall|i: int|
            0 <= i < rest.len() ==> reads_back((#[trigger] rest[i]).0, 0) && reads_back(
                rest[i].1,
                0,
            ),
    ensures
        entries_decoded::<K, V>(before + entries_bytes(rest), before.len() as int, done, r) <==> (
        r matches Ok(w) && exists|read: Seq<(K, V)>| #[trigger]
            entries_same(read, rest) && w@ == put_all(read, done)),
    decreases rest.len(),
{
    let inner = before + entries_bytes(rest);
    let pos = before.len() as int;
    if rest.len() == 0 {
        assert(inner =~= before);
        if entries_decoded::<K, V>(inner, pos, done, r) {
            let none = Seq::<(K, V)>::empty();
            assert(entries_same(none, rest) && r->Ok_0@ == put_all(none, done));
        }
    } else {
        let k = rest[0].0;
        let v = rest[0].1;
        let tail = rest.drop_first();
        let key_field = k.tars_field(0);
        let value_field = v.tars_field(0);
        let after = entries_bytes(tail);
        let end = pos + key_field.len() + value_field.len();
        assert(reads_back(k, 0) && reads_back(v, 0));
        assert(inner =~= before + key_field + value_field + after);
        assert((before + key_field + value_field).len() == end);
        assert forall|i: int| 0 <= i < tail.len() implies reads_back((#[trigger] tail[i]).0, 0)
            && reads_back(tail[i].1, 0) by {
            assert(tail[i] == rest[i + 1]);
        }
        lemma_entries_step(before, k, v, after, done, r);
        if entries_decoded::<K, V>(inner, pos, done, r) {
            let entry = choose|entry: (K, V)| #[trigger]
                entry_same(entry, (k, v)) && entries_decoded::<K, V>(
                    inner,
                    end,
                    map_put(done, entry.0, entry.1),
                    r,
                );
            let next = map_put(done, entry.0, entry.1);
            lemma_entries_read_as_put(before + key_field + value_field, tail, next, r);
            let w = r->Ok_0;
            let read_tail = choose|read: Seq<(K, V)>| #[trigger]
                entries_same(read, tail) && w@ == put_all(read, next);
            let read = seq![entry] + read_tail;
            assert(read[0] == entry);
            assert(read.drop_first() =~= read_tail);
            assert forall|i: int| 0 <= i < read.len() implies (#[trigger] read[i]).0.tars_same(
                &rest[i].0,
            ) && read[i].1.tars_same(&rest[i].1) by {
                if i > 0 {
                    assert(read[i] == read_tail[i - 1]);
                    assert(read_tail[i - 1].0.tars_same(&tail[i - 1].0));
                    assert(tail[i - 1] == rest[i]);
                }
            }
            assert(entries_same(read, rest) && w@ == put_all(read, done));
        }
        if r is Ok && (exists|read: Seq<(K, V)>| #[trigger]
            entries_same(read, rest) && r->Ok_0@ == put_all(read, done)) {
            let w = r->Ok_0;
            let read = choose|read: Seq<(K, V)>| #[trigger]
                entries_same(read, rest) && w@ == put_all(read, done);
            let entry = read[0];
            let read_tail = read.drop_first();
            let next = map_put(done, entry.0, entry.1);
            assert(entry.0.tars_same(&rest[0].0) && entry.1.tars_same(&rest[0].1));
            assert forall|i: int| 0 <= i < read_tail.len() implies (#[trigger] read_tail[i]).0.tars_same(
                &tail[i].0,
            ) && read_tail[i].1.tars_same(&tail[i].1) by {
                assert(read_tail[i] == read[i + 1]);
                assert(read[i + 1].0.tars_same(&rest[i + 1].0));
                assert(tail[i] == rest[i + 1]);
            }
            assert(entries_same(read_tail, tail) && w@ == put_all(read_tail, next));
            lemma_entries_read_as_put(before + key_field + value_field, tail, next, r);
            assert(entry_same(entry, (k, v)) && entries_decoded::<K, V>(inner, end, next, r));
        }
    }
}

/// Entries that were written as a mapping field, in any order and with any
/// key as often as it comes, read back as the mapping into which entries that
/// are the same were put, first to last, where each key and value reads back:
/// each key stands once, with the value of its last entry.
pub proof fn law_entries_read_as_put<
    K: EncodeIntoTars + DecodeFromTars + TarsKey,
    V: EncodeIntoTars + DecodeFromTars,
>(
    entries: Seq<(K, V)>,
    tag: u8,
    pre: Seq<u8>,
    post: Seq<u8>,
    r: Result<TarsMap<K, V>, DecodeErr>,
)
    requires
        entries_bytes(entries).len() <= max_len(),
        whole_fields_without(pre, 0, tag),
        forall|i: int|
            0 <= i < entries.len() ==> reads_back((#[trigger] entries[i]).0, 0) && reads_back(
                entries[i].1,
                0,
            ),
    ensures
        TarsMap::<K, V>::tars_decoded(
            pre + region_field(tag, TarsTypeMark::EnMaps, entries_bytes(entries)) + post,
            tag,
            r,
        ) <==> (r matches Ok(w) && exists|read: Seq<(K, V)>| #[trigger]
            entries_same(read, entries) && w@ == put_all(read, Seq::<(K, V)>::empty())),
{
    let inner = entries_bytes(entries);
    let none = Seq::<u8>::empty();
    let field = region_field(tag, TarsTypeMark::EnMaps, inner);
    law_region_round_trip(tag, TarsTypeMark::EnMaps, inner);
    law_read_in_record(pre, field, post, tag);
    assert(spec_read_region(field, tag, TarsTypeMark::EnMaps) is Ok);
    assert(none + inner =~= inner);
    lemma_entries_read_as_put(none, entries, Seq::<(K, V)>::empty(), r);
}

/// A mapping is written as its entries in strictly ascending order of the
/// keys, each key once, whatever the order in which the entries were put.
pub proof fn law_map_written_ascending<K: EncodeIntoTars + TarsKey, V: EncodeIntoTars>(
    v: TarsMap<K, V>,
    tag: u8,
)
    requires
        v.wf(),
        key_transitive::<K>(),
    ensures
        v.tars_field(tag) == region_field(tag, TarsTypeMark::EnMaps, entries_bytes(v@)),
        forall|i: int, j: int|
            0 <= i < j < v@.len() ==> (#[trigger] v@[i]).0.key_lt(&(#[trigger] v@[j]).0),
{
    assert forall|i: int, j: int| 0 <= i < j < v@.len() implies (#[trigger] v@[i]).0.key_lt(
        &(#[trigger] v@[j]).0,
    ) by {
        law_ascending_all(v@, i, j);
    }
}

/// Every mapping that a buffer took reads back as the same mapping, at every
/// tag, where its keys are ordered as keys must be and each of its keys and
/// values reads back. The empty mapping does.
pub proof fn law_map_reads_back<
    K: EncodeIntoTars + DecodeFromTars + TarsKey,
    V: EncodeIntoTars + DecodeFromTars,
>(v: TarsMap<K, V>, tag: u8, held: nat)
    requires
        v.tars_outcome(held, tag) is Ok,
        v.wf(),
        key_order::<K>(),
        forall|i: int|
            0 <= i < v@.len() ==> reads_back((#[trigger] v@[i]).0, 0) && reads_back(v@[i].1, 0),
    ensures
        reads_back::<TarsMap<K, V>>(v, tag),
{
    let inner = entries_bytes(v@);
    let none = Seq::<u8>::empty();
    let nothing = Seq::<(K, V)>::empty();
    law_region_round_trip(tag, TarsTypeMark::EnMaps, inner);
    let field = v.tars_field(tag);
    assert(none + inner =~= inner);
    assert forall|pre: Seq<u8>, post: Seq<u8>, r: Result<TarsMap<K, V>, DecodeErr>|
        whole_fields_without(pre, 0, tag) implies (#[trigger] TarsMap::<K, V>::tars_decoded(
        pre + field + post,
        tag,
        r,
    ) <==> (r matches Ok(w) && w.tars_same(&v))) by {
        law_read_in_record(pre, field, post, tag);
        assert(spec_read_region(field, tag, TarsTypeMark::EnMaps) is Ok);
        assert forall|i: int, j: int| 0 <= i < j < v@.len() implies (#[trigger] v@[i]).0.key_lt(
            &(#[trigger] v@[j]).0,
        ) by {
            law_ascending_all(v@, i, j);
        }
        lemma_entries_read_back(none, v@, nothing, r);
        if r is Ok {
            let w = r->Ok_0;
            assert(w@.take(0) =~= nothing);
            assert(entries_follow(w@, nothing, v@) <==> entries_same(w@, v@)) by {
                if entries_follow(w@, nothing, v@) {
                    assert forall|i: int| 0 <= i < w@.len() implies (#[trigger] w@[i]).0.tars_same(
                        &v@[i].0,
                    ) && w@[i].1.tars_same(&v@[i].1) by {
                        assert(entry_same(w@[0 + i], v@[i]));
                    }
                }
                if entries_same(w@, v@) {
                    assert forall|j: int| 0 <= j < v@.len() implies entry_same(
                        #[trigger] w@[0 + j],
                        v@[j],
                    ) by {
                        assert(w@[j].0.tars_same(&v@[j].0));
                    }
                }
            }
        }
    }
    assert(v.tars_same(&v)) by {
        assert forall|i: int| 0 <= i < v@.len() implies (#[trigger] v@[i]).0.tars_same(&v@[i].0)
            && v@[i].1.tars_same(&v@[i].1) by {
            assert(reads_back(v@[i].0, 0) && reads_back(v@[i].1, 0));
        }
    }
    assert forall|w: TarsMap<K, V>| #[trigger] w.tars_same(&v) implies w.tars_field(tag)
        == v.tars_field(tag) by {
        lemma_entries_same_bytes(w@, v@);
    }
}

// ---------------------------------------------------------------------------
// Records
// ---------------------------------------------------------------------------

/// The law of a record `v` and its own fields:
/// - what the record writes is whole fields, one after the other;
/// - reading a record from those fields gives a record that is the same as
///   `v`, and gives nothing else;
/// - `v` is the same as itself, and a record that is the same as `v` writes
///   the same fields.
pub open spec fn body_reads_back<T: StructEncodeIntoTars + StructDecodeFromTars>(v: T) -> bool {
    &&& whole_fields(v.tars_body(), 0)
    &&& forall|r: Result<T, DecodeErr>| #[trigger]
        T::tars_body_decoded(v.tars_body(), r) <==> (r matches Ok(w) && w.tars_body_same(&v))
    &&& v.tars_body_same(&v)
    &&& forall|w: T| #[trigger] w.tars_body_same(&v) ==> w.tars_body() == v.tars_body()
}

/// Whole fields from `pos` on stay whole fields when one more whole field
/// follows them.
proof fn lemma_fields_then_field(pre: Seq<u8>, field: Seq<u8>, tag: u8, pos: int)
    requires
        0 <= pos,
        whole_fields(pre, pos),
        whole_field(field, tag),
    ensures
        whole_fields(pre + field, pos),
    decreases pre.len() - pos,
{
    if pos >= pre.len() {
        lemma_shift_take_head(pre, field, 0);
        lemma_shift_field_end(pre, field, 0);
        lemma_field_end_bounds(field, 0);
        assert(whole_fields(pre + field, (pre.len() + field.len()) as int));
    } else {
        let next = spec_field_end(pre, pos)->Ok_0;
        lemma_field_end_bounds(pre, pos);
        lemma_extend_field_end(pre, field, pos);
        lemma_fields_then_field(pre, field, tag, next);
    }
}

/// Whole fields from `pos` on without the tag `tag` stay so when a whole field
/// with another tag follows them.
proof fn lemma_fields_without_then_field(
    pre: Seq<u8>,
    field: Seq<u8>,
    other: u8,
    tag: u8,
    pos: int,
)
    requires
        0 <= pos,
        whole_fields_without(pre, pos, tag),
        whole_field(field, other),
        other != tag,
    ensures
        whole_fields_without(pre + field, pos, tag),
    decreases pre.len() - pos,
{
    if pos >= pre.len() {
        lemma_shift_take_head(pre, field, 0);
        lemma_shift_field_end(pre, field, 0);
        lemma_field_end_bounds(field, 0);
        assert(whole_fields_without(pre + field, (pre.len() + field.len()) as int, tag));
    } else {
        let next = spec_field_end(pre, pos)->Ok_0;
        lemma_field_end_bounds(pre, pos);
        lemma_extend_field_end(pre, field, pos);
        lemma_fields_without_then_field(pre, field, other, tag, next);
    }
}

/// The fields that a record writes one after the other are whole fields:
/// nothing is whole fields, and whole fields stay whole fields when one more
/// whole field follows them.
pub proof fn law_fields_then_field(pre: Seq<u8>, field: Seq<u8>, tag: u8)
    requires
        whole_fields(pre, 0),
        whole_field(field, tag),
    ensures
        whole_fields(Seq::<u8>::empty(), 0),
        whole_fields(pre + field, 0),
{
    lemma_fields_then_field(pre, field, tag, 0);
}

/// The fields that a record writes before the field `tag` are whole fields
/// without that tag, where each has another tag: nothing is such fields, and
/// such fields stay so when a whole field with another tag follows them.
pub proof fn law_fields_without_then_field(pre: Seq<u8>, field: Seq<u8>, other: u8, tag: u8)
    requires
        whole_fields_without(pre, 0, tag),
        whole_field(field, other),
        other != tag,
    ensures
        whole_fields_without(Seq::<u8>::empty(), 0, tag),
        whole_fields_without(pre + field, 0, tag),
{
    lemma_fields_without_then_field(pre, field, other, tag, 0);
}

/// Every record whose own fields read back reads back as a nested record, at
/// every tag.
pub proof fn law_record_reads_back<T: StructEncodeIntoTars + StructDecodeFromTars>(v: T, tag: u8)
    requires
        body_reads_back(v),
    ensures
        reads_back::<T>(v, tag),
{
    let body = v.tars_body();
    law_struct_round_trip(tag, body);
    let field = v.tars_field(tag);
    assert forall|pre: Seq<u8>, post: Seq<u8>, r: Result<T, DecodeErr>|
        whole_fields_without(pre, 0, tag) implies (#[trigger] T::tars_decoded(
        pre + field + post,
        tag,
        r,
    ) <==> (r matches Ok(w) && w.tars_same(&v))) by {
        law_read_in_record(pre, field, post, tag);
        assert(T::tars_body_decoded(body, r) <==> (r matches Ok(w) && w.tars_body_same(&v)));
    }
}

} // verus!
