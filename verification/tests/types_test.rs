use bytes::{Bytes, BytesMut};
use tars_stream::errors::{DecodeErr, EncodeErr, TarsTypeErr};
use tars_stream::tars_decoder::{Head, TarsDecodeSimpleTrait, TarsDecoder};
use tars_stream::tars_encoder::{TarsEncoder, TarsEncoderTrait};
use tars_stream::tars_map::TarsMap;
use tars_stream::tars_struct::TarsStruct;
use tars_stream::tars_type::{ClassName, ProtocolVersion, TarsDouble, TarsFloat, TarsTypeMark};

// ---------------------------------------------------------------------------
// wire type marks and protocol versions
// ---------------------------------------------------------------------------

fn all_marks() -> Vec<TarsTypeMark> {
    vec![
        TarsTypeMark::EnInt8,
        TarsTypeMark::EnInt16,
        TarsTypeMark::EnInt32,
        TarsTypeMark::EnInt64,
        TarsTypeMark::EnFloat,
        TarsTypeMark::EnDouble,
        TarsTypeMark::EnString1,
        TarsTypeMark::EnString4,
        TarsTypeMark::EnMaps,
        TarsTypeMark::EnList,
        TarsTypeMark::EnStructBegin,
        TarsTypeMark::EnStructEnd,
        TarsTypeMark::EnZero,
        TarsTypeMark::EnSimplelist,
    ]
}

#[test]
fn marks_have_the_numbers_0_to_13() {
    let marks = all_marks();
    for (i, m) in marks.iter().enumerate() {
        assert_eq!(m.value(), i as u8);
    }
    assert_eq!(TarsTypeMark::EnInt8.value(), 0);
    assert_eq!(TarsTypeMark::EnStructBegin.value(), 10);
    assert_eq!(TarsTypeMark::EnStructEnd.value(), 11);
    assert_eq!(TarsTypeMark::EnZero.value(), 12);
    assert_eq!(TarsTypeMark::EnSimplelist.value(), 13);
}

#[test]
fn number_of_a_mark_leads_back_to_the_mark() {
    for m in all_marks() {
        assert_eq!(TarsTypeMark::from(m.value()), m);
        assert_eq!(TarsTypeMark::from_nibble(m.value()), Some(m));
    }
}

#[test]
fn number_without_a_mark_is_zero_or_nothing() {
    for v in 14..=255u8 {
        assert_eq!(TarsTypeMark::from(v), TarsTypeMark::EnZero);
        assert_eq!(TarsTypeMark::from_nibble(v), None);
    }
}

#[test]
fn marks_are_ordered_by_their_numbers() {
    assert!(TarsTypeMark::EnInt8 < TarsTypeMark::EnInt16);
    assert!(TarsTypeMark::EnZero < TarsTypeMark::EnSimplelist);
    let mut marks = all_marks();
    marks.reverse();
    marks.sort();
    assert_eq!(marks, all_marks());
}

#[test]
fn versions_have_the_numbers_1_to_3() {
    assert_eq!(ProtocolVersion::Tars.value(), 1);
    assert_eq!(ProtocolVersion::TupSimple.value(), 2);
    assert_eq!(ProtocolVersion::TupComplex.value(), 3);
}

#[test]
fn number_of_a_version_leads_back_to_the_version() {
    assert_eq!(ProtocolVersion::from(1), ProtocolVersion::Tars);
    assert_eq!(ProtocolVersion::from(2), ProtocolVersion::TupSimple);
    assert_eq!(ProtocolVersion::from(3), ProtocolVersion::TupComplex);
    // every other number is the complex wrapper
    assert_eq!(ProtocolVersion::from(0), ProtocolVersion::TupComplex);
    assert_eq!(ProtocolVersion::from(4), ProtocolVersion::TupComplex);
    assert_eq!(ProtocolVersion::from(255), ProtocolVersion::TupComplex);
}

#[test]
fn float_bits_are_kept() {
    assert_eq!(TarsFloat::from_bits(0x3e16bb99).to_bits(), 0x3e16bb99);
    assert_eq!(TarsFloat::from_bits(0x3e16bb99).bits, 0x3e16bb99);
    assert_eq!(TarsDouble::from_bits(0x3fc2d88ab09d972a).to_bits(), 0x3fc2d88ab09d972a);
    assert_eq!(TarsDouble::from_bits(u64::MAX).bits, u64::MAX);
}

#[test]
fn head_holds_tag_mark_and_length() {
    let head = Head { tag: 20, tars_type: TarsTypeMark::EnString1, len: 2 };
    assert_eq!(head.tag, 20);
    assert_eq!(head.tars_type, TarsTypeMark::EnString1);
    assert_eq!(head.len, 2);
}

// ---------------------------------------------------------------------------
// type names
// ---------------------------------------------------------------------------

#[test]
fn simple_types_have_their_names() {
    assert_eq!(bool::_class_name(), "bool");
    assert_eq!(i8::_class_name(), "char");
    assert_eq!(i16::_class_name(), "short");
    assert_eq!(i32::_class_name(), "int32");
    assert_eq!(i64::_class_name(), "int64");
    assert_eq!(TarsFloat::_class_name(), "float");
    assert_eq!(TarsDouble::_class_name(), "double");
    assert_eq!(String::_class_name(), "string");
    assert_eq!(Bytes::_class_name(), "list<byte>");
}

#[test]
fn unsigned_types_have_the_name_of_the_next_width() {
    assert_eq!(u8::_class_name(), "short");
    assert_eq!(u16::_class_name(), "int32");
    assert_eq!(u32::_class_name(), "int64");
}

#[test]
fn sequences_and_mappings_name_their_parts() {
    assert_eq!(Vec::<i32>::_class_name(), "List<int32>");
    assert_eq!(Vec::<Vec<String>>::_class_name(), "List<List<string>>");
    assert_eq!(TarsMap::<String, i64>::_class_name(), "map<string,int64>");
    assert_eq!(
        TarsMap::<String, TarsMap<i8, Bytes>>::_class_name(),
        "map<string,map<char,list<byte>>>"
    );
    assert_eq!(Vec::<TarsMap<u8, bool>>::_class_name(), "List<map<short,bool>>");
}

// ---------------------------------------------------------------------------
// errors
// ---------------------------------------------------------------------------

#[test]
fn decode_errors_describe_themselves() {
    assert_eq!(
        DecodeErr::NoEnoughDataErr.description(),
        "decoder: without enough data to read"
    );
    assert_eq!(DecodeErr::UnknownTarsTypeErr.description(), "decoder: unknown tars type");
    assert_eq!(DecodeErr::TagNotFoundErr.description(), "decoder: Tag Not Found");
    assert_eq!(DecodeErr::MisMatchTarsTypeErr.description(), "decoder: mismatch type");
    assert_eq!(
        DecodeErr::WrongSimpleListTarsTypeErr.description(),
        "decoder: wrong simple list type"
    );
    assert_eq!(DecodeErr::InvalidEnumValue.description(), "decoder: invalid enum value");
    assert_eq!(
        DecodeErr::FieldNotFoundErr(String::from("no field f")).description(),
        "no field f"
    );
    assert_eq!(
        DecodeErr::TypeNotFoundErr(String::from("no type t")).description(),
        "no type t"
    );
}

#[test]
fn encode_errors_describe_themselves() {
    assert_eq!(
        EncodeErr::TooBigTagErr.description(),
        "encoder: tag too big, max value is 255"
    );
    assert_eq!(EncodeErr::ConvertU8Err.description(), "encoder: cannot convert to u8");
    assert_eq!(
        EncodeErr::BufferTooBigErr.description(),
        "encoder: BufferTooBigErr len bigger than 4294967295 bytes"
    );
    assert_eq!(EncodeErr::UnknownTarsTypeErr.description(), "encoder: unknown tars type");
}

#[test]
fn type_error_describes_itself() {
    assert_eq!(
        TarsTypeErr::DisMatchTarsTypeErr.description(),
        "tars_type: disMatch tars_type"
    );
}

#[test]
fn errors_compare_by_variant_and_text() {
    assert_eq!(DecodeErr::TagNotFoundErr, DecodeErr::TagNotFoundErr);
    assert_ne!(DecodeErr::TagNotFoundErr, DecodeErr::NoEnoughDataErr);
    assert_eq!(
        DecodeErr::FieldNotFoundErr(String::from("a")),
        DecodeErr::FieldNotFoundErr(String::from("a"))
    );
    assert_ne!(
        DecodeErr::FieldNotFoundErr(String::from("a")),
        DecodeErr::FieldNotFoundErr(String::from("b"))
    );
    assert_ne!(
        DecodeErr::FieldNotFoundErr(String::from("a")),
        DecodeErr::TypeNotFoundErr(String::from("a"))
    );
    assert_ne!(EncodeErr::BufferTooBigErr, EncodeErr::TooBigTagErr);
}

// ---------------------------------------------------------------------------
// the encoder's buffer
// ---------------------------------------------------------------------------

#[test]
fn new_encoder_has_written_nothing() {
    let encoder = TarsEncoder::new();
    assert_eq!(encoder.len(), 0);
    assert_eq!(encoder.to_bytes(), Bytes::new());
}

#[test]
fn len_counts_the_bytes_written() {
    let mut encoder = TarsEncoder::new();
    encoder.put(0, &1i8).unwrap();
    assert_eq!(encoder.len(), 2);
    encoder.put(20, &String::from("abc")).unwrap();
    assert_eq!(encoder.len(), 2 + 2 + 1 + 3);
    encoder.put(1, &0u64).unwrap();
    assert_eq!(encoder.len(), 9);
}

#[test]
fn writes_append_in_the_order_of_the_calls() {
    let mut encoder = TarsEncoder::new();
    encoder.put(0, &false).unwrap();
    encoder.put(1, &true).unwrap();
    assert_eq!(&encoder.to_bytes()[..], &[0x0c, 0x10, 0x01]);
}

#[test]
fn unsplit_appends_what_the_other_has_written() {
    let mut first = TarsEncoder::new();
    first.put(0, &1i8).unwrap();
    let mut second = TarsEncoder::new();
    second.put(1, &2i8).unwrap();
    second.put(2, &3i8).unwrap();
    first.unsplit(second);
    assert_eq!(first.len(), 6);
    assert_eq!(&first.to_bytes()[..], &[0x00, 0x01, 0x10, 0x02, 0x20, 0x03]);

    let mut empty = TarsEncoder::new();
    let mut other = TarsEncoder::new();
    other.put(1, &2i8).unwrap();
    empty.unsplit(other);
    assert_eq!(&empty.to_bytes()[..], &[0x10, 0x02]);

    let mut some = TarsEncoder::new();
    some.put(1, &2i8).unwrap();
    some.unsplit(TarsEncoder::new());
    assert_eq!(&some.to_bytes()[..], &[0x10, 0x02]);
}

#[test]
fn making_room_changes_no_byte() {
    let mut encoder = TarsEncoder::new();
    encoder.check_maybe_resize(0);
    assert_eq!(encoder.len(), 0);
    encoder.put(0, &1i8).unwrap();
    encoder.check_maybe_resize(4096);
    assert_eq!(encoder.len(), 2);
    encoder.put(1, &2i8).unwrap();
    // more than any buffer holds: nothing is reserved
    encoder.check_maybe_resize(usize::MAX);
    assert_eq!(&encoder.to_bytes()[..], &[0x00, 0x01, 0x10, 0x02]);
}

#[test]
fn to_bytes_mut_hands_out_the_buffer() {
    let mut encoder = TarsEncoder::new();
    encoder.put(3, &-1i16).unwrap();
    let buf: BytesMut = encoder.to_bytes_mut();
    assert_eq!(&buf[..], &[0x30, 0xff]);
}

// ---------------------------------------------------------------------------
// the decoder's region
// ---------------------------------------------------------------------------

#[test]
fn decoder_reads_the_bytes_it_was_made_of() {
    let bytes: [u8; 4] = [0x10, 0x05, 0x26, 0x00];
    let mut from_slice = TarsDecoder::from(&bytes[..]);
    assert_eq!(from_slice.read_int8(1), Ok(5));
    let mut from_vec = TarsDecoder::from(bytes.to_vec());
    assert_eq!(from_vec.read_int8(1), Ok(5));
    let shared = Bytes::from(bytes.to_vec());
    let mut from_shared = TarsDecoder::from(&shared);
    assert_eq!(from_shared.read_int8(1), Ok(5));
    assert_eq!(from_shared.read_string(2), Ok(String::new()));
    // the buffer that the decoder was made of is as it was
    assert_eq!(&shared[..], &bytes[..]);

    assert_eq!(TarsDecoder::from_slice(&bytes[..]).read_int8(1), Ok(5));
    assert_eq!(TarsDecoder::from_vec(bytes.to_vec()).read_int8(1), Ok(5));
    assert_eq!(TarsDecoder::from_bytes(&shared).read_int8(1), Ok(5));
    assert_eq!(TarsDecoder::new().read_int8(1), Err(DecodeErr::TagNotFoundErr));
}

#[test]
fn bytes_read_are_a_part_of_the_region() {
    let mut de = TarsDecoder::from(vec![0x1d, 0x00, 0x00, 0x00, 0x00, 0x03, 9, 8, 7, 0x20, 0x01]);
    let part = de.read_bytes(1).unwrap();
    assert_eq!(&part[..], &[9, 8, 7]);
    assert_eq!(part.len(), 3);
    // the decoder still has its region
    assert_eq!(de.read_int8(2), Ok(1));
    assert_eq!(de.read_bytes(1), Ok(part));
}

// ---------------------------------------------------------------------------
// records that travel on their own
// ---------------------------------------------------------------------------

#[derive(Debug, PartialEq)]
struct Point {
    x: i32,
    y: i32,
}

impl TarsStruct for Point {
    fn from_bytes(&mut self, buf: Bytes) {
        let mut de = TarsDecoder::from(&buf);
        self.x = de.read_int32(0).unwrap();
        self.y = de.read_int32(1).unwrap();
    }

    fn to_bytes(&self) -> Bytes {
        let mut encoder = TarsEncoder::new();
        encoder.put(0, &self.x).unwrap();
        encoder.put(1, &self.y).unwrap();
        encoder.to_bytes()
    }
}

#[test]
fn whole_record_travels_as_a_buffer() {
    let p = Point { x: -1, y: 70000 };
    let bytes = p.to_bytes();
    assert_eq!(&bytes[..], &[0x00, 0xff, 0x12, 0x00, 0x01, 0x11, 0x70]);
    let mut q = Point { x: 0, y: 0 };
    q.from_bytes(bytes);
    assert_eq!(q, p);
}

// ---------------------------------------------------------------------------
// copies
// ---------------------------------------------------------------------------

#[test]
fn copy_of_an_encoder_holds_the_same_bytes() {
    let mut first = TarsEncoder::new();
    first.put(0, &1i8).unwrap();
    let second = first.clone();
    assert_eq!(first, second);
    first.put(1, &2i8).unwrap();
    assert_ne!(first, second);
    assert!(second < first);
    assert_eq!(second.len(), 2);
    assert_eq!(&second.to_bytes()[..], &[0x00, 0x01]);
    assert_eq!(&first.to_bytes()[..], &[0x00, 0x01, 0x10, 0x02]);
}

#[test]
fn copy_of_a_decoder_reads_the_same_region() {
    let first = TarsDecoder::from(vec![0x00, 0x01, 0x16, 0x01, b'x']);
    let mut second = first.clone();
    assert_eq!(first, second);
    assert_eq!(second.read_string(1), Ok(String::from("x")));
    let mut third = first.clone();
    assert_eq!(third.read_int8(0), Ok(1));
    assert_eq!(third.read_string(1), Ok(String::from("x")));
}
