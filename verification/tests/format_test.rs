use bytes::Bytes;
use tars_stream::errors::{DecodeErr, EncodeErr};
use tars_stream::tars_decoder::{
    StructDecodeFromTars, TarsDecodeListTrait, TarsDecodeMapTrait, TarsDecodeSimpleTrait,
    TarsDecodeStructTrait, TarsDecoder,
};
use tars_stream::tars_encoder::{
    StructEncodeIntoTars, TarsEncoder, TarsEncoderTrait, TarsListItem,
};
use tars_stream::tars_map::TarsMap;
use tars_stream::tars_type::{TarsDouble, TarsFloat};

fn written<T>(tag: u8, v: &T) -> Vec<u8>
where
    TarsEncoder: TarsEncoderTrait<T>,
{
    let mut encoder = TarsEncoder::new();
    encoder.put(tag, v).unwrap();
    encoder.to_bytes().to_vec()
}

// ---------------------------------------------------------------------------
// headers
// ---------------------------------------------------------------------------

#[test]
fn header_of_tag_14_takes_one_byte() {
    assert_eq!(written(14, &1i8), vec![0xe0, 0x01]);
    assert_eq!(written(0, &1i8), vec![0x00, 0x01]);
    assert_eq!(written(7, &1i8), vec![0x70, 0x01]);
}

#[test]
fn header_of_tag_15_takes_two_bytes() {
    assert_eq!(written(15, &1i8), vec![0xf0, 0x0f, 0x01]);
    assert_eq!(written(16, &1i8), vec![0xf0, 0x10, 0x01]);
    assert_eq!(written(255, &1i8), vec![0xf0, 0xff, 0x01]);
    assert_eq!(written(200, &0i8), vec![0xfc, 0xc8]);
}

#[test]
fn headers_read_back_at_every_tag() {
    for tag in 0..=255u8 {
        let bytes = written(tag, &-5i8);
        let mut de = TarsDecoder::from(bytes);
        assert_eq!(de.read_int8(tag), Ok(-5));
        if tag != 77 {
            assert_eq!(de.read_int8(77), Err(DecodeErr::TagNotFoundErr));
        }
    }
}

// ---------------------------------------------------------------------------
// numbers
// ---------------------------------------------------------------------------

#[test]
fn i64_is_written_in_the_narrowest_width() {
    assert_eq!(written(14, &-127i64), vec![0xe0, 0x81]);
    assert_eq!(written(0, &127i64), vec![0x00, 0x7f]);
    assert_eq!(written(0, &-128i64), vec![0x00, 0x80]);
    assert_eq!(written(0, &128i64), vec![0x01, 0x00, 0x80]);
    assert_eq!(written(0, &-129i64), vec![0x01, 0xff, 0x7f]);
    assert_eq!(written(0, &32767i64), vec![0x01, 0x7f, 0xff]);
    assert_eq!(written(0, &-32768i64), vec![0x01, 0x80, 0x00]);
    assert_eq!(written(0, &32768i64), vec![0x02, 0x00, 0x00, 0x80, 0x00]);
    assert_eq!(written(0, &-32769i64), vec![0x02, 0xff, 0xff, 0x7f, 0xff]);
    assert_eq!(written(0, &2147483647i64), vec![0x02, 0x7f, 0xff, 0xff, 0xff]);
    assert_eq!(written(0, &-2147483648i64), vec![0x02, 0x80, 0x00, 0x00, 0x00]);
    assert_eq!(
        written(0, &2147483648i64),
        vec![0x03, 0x00, 0x00, 0x00, 0x00, 0x80, 0x00, 0x00, 0x00]
    );
    assert_eq!(
        written(0, &i64::MIN),
        vec![0x03, 0x80, 0x00, 0x00, 0x00, 0x00, 0x00, 0x00, 0x00]
    );
    assert_eq!(
        written(0, &i64::MAX),
        vec![0x03, 0x7f, 0xff, 0xff, 0xff, 0xff, 0xff, 0xff, 0xff]
    );
}

#[test]
fn i32_is_written_in_the_narrowest_width() {
    assert_eq!(written(0, &90909i32), vec![0x02, 0x00, 0x01, 0x63, 0x1d]);
    assert_eq!(written(0, &-127i32), vec![0x00, 0x81]);
    assert_eq!(written(0, &300i32), vec![0x01, 0x01, 0x2c]);
}

#[test]
fn zero_is_one_byte_at_every_width() {
    assert_eq!(written(5, &0i8), vec![0x5c]);
    assert_eq!(written(5, &0i16), vec![0x5c]);
    assert_eq!(written(5, &0i32), vec![0x5c]);
    assert_eq!(written(5, &0i64), vec![0x5c]);
    assert_eq!(written(5, &0u8), vec![0x5c]);
    assert_eq!(written(5, &0u16), vec![0x5c]);
    assert_eq!(written(5, &0u32), vec![0x5c]);
    assert_eq!(written(5, &0u64), vec![0x5c]);
    assert_eq!(written(5, &false), vec![0x5c]);
    assert_eq!(written(20, &0i64), vec![0xfc, 0x14]);
}

#[test]
fn zero_reads_as_zero_of_every_kind() {
    let bytes = vec![0x5c];
    let mut de = TarsDecoder::from(bytes);
    assert_eq!(de.read_int8(5), Ok(0));
    assert_eq!(de.read_int16(5), Ok(0));
    assert_eq!(de.read_int32(5), Ok(0));
    assert_eq!(de.read_int64(5), Ok(0));
    assert_eq!(de.read_uint8(5), Ok(0));
    assert_eq!(de.read_uint16(5), Ok(0));
    assert_eq!(de.read_uint32(5), Ok(0));
    assert_eq!(de.read_uint64(5), Ok(0));
    assert_eq!(de.read_boolean(5), Ok(false));
    assert_eq!(de.read_float(5), Ok(TarsFloat::from_bits(0)));
    assert_eq!(de.read_double(5), Ok(TarsDouble::from_bits(0)));
}

#[test]
fn narrow_field_reads_at_every_width_that_holds_it() {
    let mut de = TarsDecoder::from(written(2, &-5i64));
    assert_eq!(de.read_int8(2), Ok(-5));
    assert_eq!(de.read_int16(2), Ok(-5));
    assert_eq!(de.read_int32(2), Ok(-5));
    assert_eq!(de.read_int64(2), Ok(-5));

    let mut de = TarsDecoder::from(written(2, &-300i64));
    assert_eq!(de.read_int8(2), Err(DecodeErr::MisMatchTarsTypeErr));
    assert_eq!(de.read_int16(2), Ok(-300));
    assert_eq!(de.read_int32(2), Ok(-300));
    assert_eq!(de.read_int64(2), Ok(-300));

    let mut de = TarsDecoder::from(written(2, &-70000i64));
    assert_eq!(de.read_int8(2), Err(DecodeErr::MisMatchTarsTypeErr));
    assert_eq!(de.read_int16(2), Err(DecodeErr::MisMatchTarsTypeErr));
    assert_eq!(de.read_int32(2), Ok(-70000));
    assert_eq!(de.read_int64(2), Ok(-70000));

    let mut de = TarsDecoder::from(written(2, &-5_000_000_000i64));
    assert_eq!(de.read_int32(2), Err(DecodeErr::MisMatchTarsTypeErr));
    assert_eq!(de.read_int64(2), Ok(-5_000_000_000));
}

#[test]
fn unsigned_is_written_in_the_narrowest_width() {
    assert_eq!(written(14, &255u8), vec![0xe0, 0xff]);
    assert_eq!(written(0, &255u16), vec![0x00, 0xff]);
    assert_eq!(written(0, &256u16), vec![0x01, 0x01, 0x00]);
    assert_eq!(written(0, &65535u32), vec![0x01, 0xff, 0xff]);
    assert_eq!(written(0, &65536u32), vec![0x02, 0x00, 0x01, 0x00, 0x00]);
    assert_eq!(written(0, &4294967295u64), vec![0x02, 0xff, 0xff, 0xff, 0xff]);
    assert_eq!(
        written(0, &4294967296u64),
        vec![0x03, 0x00, 0x00, 0x00, 0x01, 0x00, 0x00, 0x00, 0x00]
    );
    assert_eq!(
        written(0, &u64::MAX),
        vec![0x03, 0xff, 0xff, 0xff, 0xff, 0xff, 0xff, 0xff, 0xff]
    );
}

#[test]
fn unsigned_read_extends_with_zeros_and_signed_with_the_sign() {
    let mut de = TarsDecoder::from(vec![0x30, 0xff]);
    assert_eq!(de.read_uint8(3), Ok(255));
    assert_eq!(de.read_uint16(3), Ok(255));
    assert_eq!(de.read_uint32(3), Ok(255));
    assert_eq!(de.read_uint64(3), Ok(255));
    assert_eq!(de.read_int8(3), Ok(-1));
    assert_eq!(de.read_int16(3), Ok(-1));
    assert_eq!(de.read_int32(3), Ok(-1));
    assert_eq!(de.read_int64(3), Ok(-1));

    let mut de = TarsDecoder::from(vec![0x31, 0xff, 0xfe]);
    assert_eq!(de.read_uint8(3), Err(DecodeErr::MisMatchTarsTypeErr));
    assert_eq!(de.read_uint16(3), Ok(65534));
    assert_eq!(de.read_uint32(3), Ok(65534));
    assert_eq!(de.read_uint64(3), Ok(65534));
    assert_eq!(de.read_int16(3), Ok(-2));
    assert_eq!(de.read_int64(3), Ok(-2));

    let mut de = TarsDecoder::from(vec![0x32, 0x80, 0x00, 0x00, 0x01]);
    assert_eq!(de.read_uint16(3), Err(DecodeErr::MisMatchTarsTypeErr));
    assert_eq!(de.read_uint32(3), Ok(2147483649));
    assert_eq!(de.read_uint64(3), Ok(2147483649));
    assert_eq!(de.read_int32(3), Ok(-2147483647));
    assert_eq!(de.read_int64(3), Ok(-2147483647));

    let mut de = TarsDecoder::from(vec![0x33, 0xff, 0xff, 0xff, 0xff, 0xff, 0xff, 0xff, 0xfd]);
    assert_eq!(de.read_uint32(3), Err(DecodeErr::MisMatchTarsTypeErr));
    assert_eq!(de.read_uint64(3), Ok(u64::MAX - 2));
    assert_eq!(de.read_int64(3), Ok(-3));
}

#[test]
fn every_number_reads_back() {
    let i8s = [i8::MIN, -1, 0, 1, i8::MAX];
    for v in i8s.iter() {
        assert_eq!(TarsDecoder::from(written(1, v)).read_int8(1), Ok(*v));
    }
    let i16s = [i16::MIN, -129, -128, -1, 0, 1, 127, 128, i16::MAX];
    for v in i16s.iter() {
        assert_eq!(TarsDecoder::from(written(1, v)).read_int16(1), Ok(*v));
    }
    let i32s = [i32::MIN, -32769, -32768, -1, 0, 1, 32767, 32768, i32::MAX];
    for v in i32s.iter() {
        assert_eq!(TarsDecoder::from(written(1, v)).read_int32(1), Ok(*v));
    }
    let i64s = [i64::MIN, -2147483649, -2147483648, -1, 0, 1, 2147483647, 2147483648, i64::MAX];
    for v in i64s.iter() {
        assert_eq!(TarsDecoder::from(written(1, v)).read_int64(1), Ok(*v));
    }
    let u8s = [0u8, 1, 127, 128, u8::MAX];
    for v in u8s.iter() {
        assert_eq!(TarsDecoder::from(written(1, v)).read_uint8(1), Ok(*v));
    }
    let u16s = [0u16, 255, 256, 32767, 32768, u16::MAX];
    for v in u16s.iter() {
        assert_eq!(TarsDecoder::from(written(1, v)).read_uint16(1), Ok(*v));
    }
    let u32s = [0u32, 65535, 65536, 2147483647, 2147483648, u32::MAX];
    for v in u32s.iter() {
        assert_eq!(TarsDecoder::from(written(1, v)).read_uint32(1), Ok(*v));
    }
    let u64s = [0u64, 4294967295, 4294967296, 1 << 63, u64::MAX];
    for v in u64s.iter() {
        assert_eq!(TarsDecoder::from(written(1, v)).read_uint64(1), Ok(*v));
    }
}

#[test]
fn booleans_are_the_numbers_one_and_zero() {
    assert_eq!(written(1, &true), vec![0x10, 0x01]);
    assert_eq!(written(1, &false), vec![0x1c]);
    assert_eq!(TarsDecoder::from(written(1, &true)).read_boolean(1), Ok(true));
    assert_eq!(TarsDecoder::from(written(1, &false)).read_boolean(1), Ok(false));
    // any number but 0 is true
    assert_eq!(TarsDecoder::from(vec![0x10, 0x02]).read_boolean(1), Ok(true));
    assert_eq!(TarsDecoder::from(vec![0x10, 0xff]).read_boolean(1), Ok(true));
    assert_eq!(TarsDecoder::from(vec![0x10, 0x00]).read_boolean(1), Ok(false));
    // a boolean is read as a number of 8 bits
    assert_eq!(
        TarsDecoder::from(vec![0x11, 0x00, 0x01]).read_boolean(1),
        Err(DecodeErr::MisMatchTarsTypeErr)
    );
}

#[test]
fn floats_travel_as_their_bits() {
    let f = TarsFloat::from_bits(1.5f32.to_bits());
    assert_eq!(written(4, &f), vec![0x44, 0x3f, 0xc0, 0x00, 0x00]);
    assert_eq!(TarsDecoder::from(written(4, &f)).read_float(4), Ok(f));

    let d = TarsDouble::from_bits((-2.0f64).to_bits());
    assert_eq!(
        written(4, &d),
        vec![0x45, 0xc0, 0x00, 0x00, 0x00, 0x00, 0x00, 0x00, 0x00]
    );
    assert_eq!(TarsDecoder::from(written(4, &d)).read_double(4), Ok(d));

    // a float of zero keeps the float mark and its four bytes
    let zero = TarsFloat::from_bits(0);
    assert_eq!(written(4, &zero), vec![0x44, 0x00, 0x00, 0x00, 0x00]);
    assert_eq!(TarsDecoder::from(written(4, &zero)).read_float(4), Ok(zero));

    // not a number reads back bit for bit
    let nan = TarsDouble::from_bits(0x7ff8_0000_0000_0001);
    assert_eq!(TarsDecoder::from(written(4, &nan)).read_double(4), Ok(nan));
    assert_eq!(nan.to_bits(), 0x7ff8_0000_0000_0001);
    assert_eq!(f.to_bits(), 0x3fc0_0000);
}

#[test]
fn float_and_double_do_not_read_each_other() {
    let f = TarsFloat::from_bits(1.5f32.to_bits());
    let d = TarsDouble::from_bits(1.5f64.to_bits());
    assert_eq!(
        TarsDecoder::from(written(4, &f)).read_double(4),
        Err(DecodeErr::MisMatchTarsTypeErr)
    );
    assert_eq!(
        TarsDecoder::from(written(4, &d)).read_float(4),
        Err(DecodeErr::MisMatchTarsTypeErr)
    );
    assert_eq!(
        TarsDecoder::from(written(4, &7i8)).read_float(4),
        Err(DecodeErr::MisMatchTarsTypeErr)
    );
    assert_eq!(
        TarsDecoder::from(written(4, &f)).read_int32(4),
        Err(DecodeErr::MisMatchTarsTypeErr)
    );
}

// ---------------------------------------------------------------------------
// strings and byte sequences
// ---------------------------------------------------------------------------

#[test]
fn string_of_255_bytes_has_the_short_form() {
    let s: String = std::iter::repeat('a').take(255).collect();
    let bytes = written(0, &s);
    assert_eq!(bytes.len(), 257);
    assert_eq!(bytes[0], 0x06);
    assert_eq!(bytes[1], 255);
    assert_eq!(&bytes[2..], s.as_bytes());
    assert_eq!(TarsDecoder::from(bytes).read_string(0), Ok(s));
}

#[test]
fn string_of_256_bytes_has_the_long_form() {
    let s: String = std::iter::repeat('b').take(256).collect();
    let bytes = written(0, &s);
    assert_eq!(bytes.len(), 261);
    assert_eq!(&bytes[..5], &[0x07, 0x00, 0x00, 0x01, 0x00]);
    assert_eq!(&bytes[5..], s.as_bytes());
    assert_eq!(TarsDecoder::from(bytes).read_string(0), Ok(s));
}

#[test]
fn string_length_counts_bytes_not_characters() {
    let s = String::from("h\u{e9}llo \u{4e16}\u{754c}");
    let bytes = written(3, &s);
    assert_eq!(bytes[0], 0x36);
    assert_eq!(bytes[1] as usize, s.len());
    assert_eq!(s.len(), 13);
    assert_eq!(TarsDecoder::from(bytes).read_string(3), Ok(s));

    let empty = String::new();
    assert_eq!(written(3, &empty), vec![0x36, 0x00]);
    assert_eq!(TarsDecoder::from(vec![0x36, 0x00]).read_string(3), Ok(empty));
}

#[test]
fn invalid_utf8_is_replaced_not_refused() {
    let mut de = TarsDecoder::from(vec![0x06, 0x03, 0x41, 0xff, 0x42]);
    assert_eq!(de.read_string(0), Ok(String::from("A\u{fffd}B")));
    let mut de = TarsDecoder::from(vec![0x07, 0x00, 0x00, 0x00, 0x02, 0xc3, 0x28]);
    assert_eq!(de.read_string(0), Ok(String::from("\u{fffd}(")));
}

#[test]
fn byte_sequences_are_simple_lists() {
    let v: Vec<u8> = vec![1, 2, 255];
    assert_eq!(
        written(9, &v),
        vec![0x9d, 0x00, 0x00, 0x00, 0x00, 0x03, 0x01, 0x02, 0xff]
    );
    let back: Vec<u8> = TarsDecoder::from(written(9, &v)).read_list(9).unwrap();
    assert_eq!(back, v);

    let v: Vec<i8> = vec![-1, 0, 127, -128];
    assert_eq!(
        written(9, &v),
        vec![0x9d, 0x00, 0x00, 0x00, 0x00, 0x04, 0xff, 0x00, 0x7f, 0x80]
    );
    let back: Vec<i8> = TarsDecoder::from(written(9, &v)).read_list(9).unwrap();
    assert_eq!(back, v);

    let v: Vec<bool> = vec![true, false, true];
    assert_eq!(
        written(9, &v),
        vec![0x9d, 0x00, 0x00, 0x00, 0x00, 0x03, 0x01, 0x00, 0x01]
    );
    let back: Vec<bool> = TarsDecoder::from(written(9, &v)).read_list(9).unwrap();
    assert_eq!(back, v);

    let b = Bytes::from(&b"hi"[..]);
    assert_eq!(written(16, &b), vec![0xfd, 0x10, 0x00, 0x00, 0x00, 0x00, 0x02, b'h', b'i']);
    assert_eq!(TarsDecoder::from(written(16, &b)).read_bytes(16), Ok(b));
}

#[test]
fn empty_byte_sequence_is_header_inner_header_and_count() {
    let empty = Bytes::new();
    assert_eq!(written(9, &empty), vec![0x9d, 0x00, 0x00, 0x00, 0x00, 0x00]);
    assert_eq!(
        TarsDecoder::from(vec![0x9d, 0x00, 0x00, 0x00, 0x00, 0x00]).read_bytes(9),
        Ok(Bytes::new())
    );
    let none: Vec<u8> = vec![];
    assert_eq!(written(9, &none), vec![0x9d, 0x00, 0x00, 0x00, 0x00, 0x00]);
}

#[test]
fn simple_list_needs_an_inner_header_of_8_bits() {
    let mut de = TarsDecoder::from(vec![0x9d, 0x01, 0x00, 0x00, 0x00, 0x00]);
    assert_eq!(de.read_bytes(9), Err(DecodeErr::WrongSimpleListTarsTypeErr));
    let r: Result<Vec<u8>, DecodeErr> = de.read_list(9);
    assert_eq!(r, Err(DecodeErr::WrongSimpleListTarsTypeErr));
    let mut de = TarsDecoder::from(vec![0x9d, 0x0c, 0x00, 0x00, 0x00, 0x00]);
    assert_eq!(de.read_bytes(9), Err(DecodeErr::WrongSimpleListTarsTypeErr));
}

// ---------------------------------------------------------------------------
// sequences and mappings
// ---------------------------------------------------------------------------

#[test]
fn sequence_is_the_byte_length_and_the_elements_at_tag_0() {
    let v: Vec<i32> = vec![1, 0, 300];
    assert_eq!(
        written(2, &v),
        vec![0x29, 0x00, 0x00, 0x00, 0x06, 0x00, 0x01, 0x0c, 0x01, 0x01, 0x2c]
    );
    let back: Vec<i32> = TarsDecoder::from(written(2, &v)).read_list(2).unwrap();
    assert_eq!(back, v);

    let none: Vec<String> = vec![];
    assert_eq!(written(2, &none), vec![0x29, 0x00, 0x00, 0x00, 0x00]);
    let back: Vec<String> = TarsDecoder::from(written(2, &none)).read_list(2).unwrap();
    assert_eq!(back, none);
}

#[test]
fn sequences_nest() {
    let v: Vec<Vec<String>> = vec![
        vec![String::from("a"), String::from("bc")],
        vec![],
        vec![String::from("")],
    ];
    let bytes = written(1, &v);
    assert_eq!(
        bytes,
        vec![
            0x19, 0x00, 0x00, 0x00, 0x18, // 24 bytes follow
            0x09, 0x00, 0x00, 0x00, 0x07, 0x06, 0x01, b'a', 0x06, 0x02, b'b', b'c', //
            0x09, 0x00, 0x00, 0x00, 0x00, //
            0x09, 0x00, 0x00, 0x00, 0x02, 0x06, 0x00,
        ]
    );
    let back: Vec<Vec<String>> = TarsDecoder::from(bytes).read_list(1).unwrap();
    assert_eq!(back, v);

    let blobs: Vec<Vec<u8>> = vec![vec![7, 8], vec![]];
    let bytes = written(1, &blobs);
    assert_eq!(
        bytes,
        vec![
            0x19, 0x00, 0x00, 0x00, 0x0e, //
            0x0d, 0x00, 0x00, 0x00, 0x00, 0x02, 0x07, 0x08, //
            0x0d, 0x00, 0x00, 0x00, 0x00, 0x00,
        ]
    );
    let back: Vec<Vec<u8>> = TarsDecoder::from(bytes).read_list(1).unwrap();
    assert_eq!(back, blobs);
}

#[test]
fn mapping_is_the_byte_length_and_keys_and_values_at_tag_0() {
    let m: TarsMap<String, i32> =
        TarsMap::from_entries(vec![(String::from("hello"), 32), (String::from("world"), 42)]);
    let bytes = written(0, &m);
    assert_eq!(
        bytes,
        vec![
            0x08, 0x00, 0x00, 0x00, 0x12, 0x06, 0x05, 0x68, 0x65, 0x6c, 0x6c, 0x6f, 0x00, 0x20,
            0x06, 0x05, 0x77, 0x6f, 0x72, 0x6c, 0x64, 0x00, 0x2a,
        ]
    );
    let back: TarsMap<String, i32> = TarsDecoder::from(bytes).read_map(0).unwrap();
    assert_eq!(back, m);
    assert_eq!(back.get(&String::from("hello")), Some(&32));
    assert_eq!(back.get(&String::from("world")), Some(&42));
    assert_eq!(back.get(&String::from("hell")), None);

    let none: TarsMap<i8, i8> = TarsMap::new();
    assert_eq!(written(0, &none), vec![0x08, 0x00, 0x00, 0x00, 0x00]);
    let back: TarsMap<i8, i8> = TarsDecoder::from(written(0, &none)).read_map(0).unwrap();
    assert_eq!(back, none);
    assert_eq!(back.len(), 0);
}

#[test]
fn mapping_read_is_ordered_by_key_and_the_later_value_stays() {
    // the pairs (1, 10) then (1, 11)
    let bytes = vec![0x08, 0, 0, 0, 0x08, 0x00, 0x01, 0x00, 0x0a, 0x00, 0x01, 0x00, 0x0b];
    let m: TarsMap<i8, i8> = TarsDecoder::from(bytes).read_map(0).unwrap();
    assert_eq!(m.len(), 1);
    assert_eq!(m.get(&1), Some(&11));
    assert_eq!(m.into_entries(), vec![(1, 11)]);

    // the keys 2, 1, 2
    let bytes = vec![
        0x18, 0x00, 0x00, 0x00, 0x0c, 0x00, 0x02, 0x00, 0x0a, 0x00, 0x01, 0x00, 0x0b, 0x00, 0x02,
        0x00, 0x0c,
    ];
    let back: TarsMap<u8, u8> = TarsDecoder::from(bytes).read_map(1).unwrap();
    assert_eq!(back.as_entries(), &vec![(1, 11), (2, 12)]);
    assert_eq!(back.get(&2), Some(&12));
    assert_eq!(back.get(&3), None);
}

#[test]
fn mapping_is_written_in_ascending_order_of_the_keys() {
    let mut m: TarsMap<i32, bool> = TarsMap::new();
    m.insert(300, true);
    m.insert(-1, true);
    m.insert(2, false);
    m.insert(-1, false);
    assert_eq!(m.len(), 3);
    assert_eq!(m.as_entries(), &vec![(-1, false), (2, false), (300, true)]);
    assert_eq!(
        written(0, &m),
        vec![
            0x08, 0x00, 0x00, 0x00, 0x0b, // eleven bytes follow
            0x00, 0xff, 0x0c, // -1, false
            0x00, 0x02, 0x0c, // 2, false
            0x01, 0x01, 0x2c, 0x00, 0x01, // 300, true
        ]
    );

    // whatever the order in which the entries were put
    let same = TarsMap::from_entries(vec![(2, true), (-1, false), (300, true), (2, false)]);
    assert_eq!(same, m);
    assert_eq!(written(0, &same), written(0, &m));
}

#[test]
fn strings_as_keys_are_ordered_by_their_bytes() {
    let words = ["b", "", "ab", "a", "B", "abc", "\u{e9}", "z", "aa"];
    let mut m: TarsMap<String, u8> = TarsMap::new();
    let mut sorted: std::collections::BTreeMap<String, u8> = std::collections::BTreeMap::new();
    for (i, w) in words.iter().enumerate() {
        m.insert(w.to_string(), i as u8);
        sorted.insert(w.to_string(), i as u8);
    }
    let expected: Vec<(String, u8)> = sorted.into_iter().collect();
    assert_eq!(m.into_entries(), expected);
}

#[test]
fn keys_of_every_kind_are_ordered() {
    let m = TarsMap::from_entries(vec![(true, 1u8), (false, 2), (true, 3)]);
    assert_eq!(m.as_entries(), &vec![(false, 2), (true, 3)]);
    let m = TarsMap::from_entries(vec![(5i8, 1u8), (-5, 2)]);
    assert_eq!(m.as_entries(), &vec![(-5, 2), (5, 1)]);
    let m = TarsMap::from_entries(vec![(5i16, 1u8), (-5, 2)]);
    assert_eq!(m.as_entries(), &vec![(-5, 2), (5, 1)]);
    let m = TarsMap::from_entries(vec![(5i64, 1u8), (i64::MIN, 2)]);
    assert_eq!(m.as_entries(), &vec![(i64::MIN, 2), (5, 1)]);
    let m = TarsMap::from_entries(vec![(200u8, 1u8), (100, 2)]);
    assert_eq!(m.as_entries(), &vec![(100, 2), (200, 1)]);
    let m = TarsMap::from_entries(vec![(60000u16, 1u8), (100, 2)]);
    assert_eq!(m.as_entries(), &vec![(100, 2), (60000, 1)]);
    let m = TarsMap::from_entries(vec![(u32::MAX, 1u8), (100, 2)]);
    assert_eq!(m.as_entries(), &vec![(100, 2), (u32::MAX, 1)]);
    let m = TarsMap::from_entries(vec![(u64::MAX, 1u8), (100, 2)]);
    assert_eq!(m.as_entries(), &vec![(100, 2), (u64::MAX, 1)]);
}

#[test]
fn mapping_with_a_key_without_its_value_is_cut_short() {
    let bytes = vec![0x18, 0x00, 0x00, 0x00, 0x02, 0x00, 0x02];
    let back: Result<TarsMap<u8, u8>, DecodeErr> = TarsDecoder::from(bytes).read_map(1);
    assert_eq!(back, Err(DecodeErr::NoEnoughDataErr));
}

#[test]
fn element_of_the_wrong_kind_fails_the_sequence() {
    // two elements: a number, then a string
    let bytes = vec![0x19, 0x00, 0x00, 0x00, 0x05, 0x00, 0x01, 0x06, 0x01, b'x'];
    let r: Result<Vec<i32>, DecodeErr> = TarsDecoder::from(bytes).read_list(1);
    assert_eq!(r, Err(DecodeErr::MisMatchTarsTypeErr));
    // an element whose tag is not 0 is not found in its field
    let bytes = vec![0x19, 0x00, 0x00, 0x00, 0x02, 0x10, 0x01];
    let r: Result<Vec<i32>, DecodeErr> = TarsDecoder::from(bytes).read_list(1);
    assert_eq!(r, Err(DecodeErr::TagNotFoundErr));
}

// ---------------------------------------------------------------------------
// optional values
// ---------------------------------------------------------------------------

#[test]
fn absent_optional_writes_nothing() {
    let none: Option<String> = None;
    assert_eq!(written(3, &none), Vec::<u8>::new());
    let some: Option<String> = Some(String::from("x"));
    assert_eq!(written(3, &some), vec![0x36, 0x01, b'x']);
}

#[test]
fn absent_tag_gives_the_default_or_tag_not_found() {
    let mut de = TarsDecoder::from(written(1, &5i32));
    assert_eq!(de.read_optional(2, 77i32), Ok(77));
    assert_eq!(de.read_int32(2), Err(DecodeErr::TagNotFoundErr));
    assert_eq!(de.read_optional(1, 77i32), Ok(5));
    assert_eq!(de.read_int32(1), Ok(5));
    assert_eq!(de.read_optional(2, String::from("dflt")), Ok(String::from("dflt")));
    assert_eq!(de.read_string(2), Err(DecodeErr::TagNotFoundErr));
    assert_eq!(de.read_boolean(2), Err(DecodeErr::TagNotFoundErr));
    assert_eq!(de.read_float(2), Err(DecodeErr::TagNotFoundErr));
    assert_eq!(de.read_double(2), Err(DecodeErr::TagNotFoundErr));
    assert_eq!(de.read_bytes(2), Err(DecodeErr::TagNotFoundErr));
    let l: Result<Vec<i16>, DecodeErr> = de.read_list(2);
    assert_eq!(l, Err(DecodeErr::TagNotFoundErr));
    let m: Result<TarsMap<i16, i16>, DecodeErr> = de.read_map(2);
    assert_eq!(m, Err(DecodeErr::TagNotFoundErr));
}

#[test]
fn optional_read_of_a_field_of_another_kind_fails() {
    let mut de = TarsDecoder::from(written(1, &String::from("five")));
    assert_eq!(de.read_optional(1, 77i32), Err(DecodeErr::MisMatchTarsTypeErr));
}

#[test]
fn optional_value_reads_as_some_or_none() {
    let mut de = TarsDecoder::from(written(1, &5i32));
    let absent: Option<i32> = None;
    assert_eq!(de.read_optional(2, Some(1i32)), Ok(Some(1)));
    assert_eq!(de.read_optional(1, absent), Ok(Some(5)));
    assert_eq!(de.read_optional(2, absent), Ok(None));
}

#[test]
fn empty_region_has_no_tag() {
    let mut de = TarsDecoder::new();
    assert_eq!(de.read_int8(0), Err(DecodeErr::TagNotFoundErr));
    assert_eq!(de.read_optional(0, 9u8), Ok(9));
    let mut de = TarsDecoder::from(Vec::<u8>::new());
    assert_eq!(de.read_string(0), Err(DecodeErr::TagNotFoundErr));
}

// ---------------------------------------------------------------------------
// records
// ---------------------------------------------------------------------------

#[derive(Clone, Debug, PartialEq)]
struct Inner {
    n: i16,
    s: String,
}

impl StructEncodeIntoTars for Inner {
    fn struct_encode_into(&self, encoder: &mut TarsEncoder) -> Result<(), EncodeErr> {
        encoder.put(0, &self.n)?;
        encoder.put(1, &self.s)
    }
}

impl StructDecodeFromTars for Inner {
    fn struct_decode_from(decoder: &mut TarsDecoder) -> Result<Self, DecodeErr> {
        let n = decoder.read_int16(0)?;
        let s = decoder.read_string(1)?;
        Ok(Inner { n, s })
    }
}

#[derive(Clone, Debug, PartialEq)]
struct Outer {
    text: String,
    items: Vec<i32>,
    inner: Inner,
    count: i64,
}

// writes its fields with the tags 3, 1, 5, 0, in that order
impl StructEncodeIntoTars for Outer {
    fn struct_encode_into(&self, encoder: &mut TarsEncoder) -> Result<(), EncodeErr> {
        encoder.put(3, &self.text)?;
        encoder.put(1, &self.items)?;
        encoder.put(5, &self.inner)?;
        encoder.put(0, &self.count)
    }
}

// reads them with the tags 0, 1, 3, 5
impl StructDecodeFromTars for Outer {
    fn struct_decode_from(decoder: &mut TarsDecoder) -> Result<Self, DecodeErr> {
        let count = decoder.read_int64(0)?;
        let items = decoder.read_list(1)?;
        let text = decoder.read_string(3)?;
        let inner = decoder.read_struct(5)?;
        Ok(Outer { text, items, inner, count })
    }
}

impl TarsListItem for Outer {}

fn sample() -> Outer {
    Outer {
        text: String::from("abc"),
        items: vec![1, 2],
        inner: Inner { n: -2, s: String::from("z") },
        count: 70000,
    }
}

#[test]
fn record_is_its_fields_between_begin_and_end() {
    let inner = Inner { n: -2, s: String::from("z") };
    assert_eq!(written(5, &inner), vec![0x5a, 0x00, 0xfe, 0x16, 0x01, b'z', 0x0b]);
    assert_eq!(
        written(2, &sample()),
        vec![
            0x2a, // begin, tag 2
            0x36, 0x03, b'a', b'b', b'c', // tag 3
            0x19, 0x00, 0x00, 0x00, 0x04, 0x00, 0x01, 0x00, 0x02, // tag 1
            0x5a, 0x00, 0xfe, 0x16, 0x01, b'z', 0x0b, // tag 5
            0x02, 0x00, 0x01, 0x11, 0x70, // tag 0
            0x0b, // end
        ]
    );
}

#[test]
fn fields_written_in_any_order_read_in_any_order() {
    let mut encoder = TarsEncoder::new();
    encoder.put(3, &String::from("three")).unwrap();
    encoder.put(1, &-300i32).unwrap();
    encoder.put(0, &true).unwrap();
    let mut de = TarsDecoder::from(&encoder.to_bytes());
    assert_eq!(de.read_boolean(0), Ok(true));
    assert_eq!(de.read_int32(1), Ok(-300));
    assert_eq!(de.read_string(3), Ok(String::from("three")));
    // and again, in another order
    assert_eq!(de.read_string(3), Ok(String::from("three")));
    assert_eq!(de.read_boolean(0), Ok(true));
    assert_eq!(de.read_int32(1), Ok(-300));
}

#[test]
fn record_reads_back_whatever_the_order_of_its_fields() {
    let v = sample();
    let mut de = TarsDecoder::from(written(2, &v));
    let back: Outer = de.read_struct(2).unwrap();
    assert_eq!(back, v);
}

#[test]
fn fields_of_every_kind_are_stepped_over() {
    let mut encoder = TarsEncoder::new();
    encoder.put(1, &7i8).unwrap();
    encoder.put(2, &700i16).unwrap();
    encoder.put(3, &70000i32).unwrap();
    encoder.put(4, &7_000_000_000i64).unwrap();
    encoder.put(5, &TarsFloat::from_bits(7)).unwrap();
    encoder.put(6, &TarsDouble::from_bits(7)).unwrap();
    encoder.put(7, &String::from("seven")).unwrap();
    let long: String = std::iter::repeat('7').take(300).collect();
    encoder.put(8, &long).unwrap();
    encoder.put(9, &TarsMap::from_entries(vec![(String::from("k"), vec![7u8, 7])])).unwrap();
    encoder.put(10, &vec![String::from("s"), String::from("t")]).unwrap();
    encoder.put(11, &sample()).unwrap();
    encoder.put(12, &0u32).unwrap();
    encoder.put(13, &vec![true, false]).unwrap();
    encoder.put(200, &vec![sample(), sample()]).unwrap();
    encoder.put(14, &String::from("last")).unwrap();
    let bytes = encoder.to_bytes();

    let mut de = TarsDecoder::from(&bytes);
    assert_eq!(de.read_string(14), Ok(String::from("last")));
    let records: Vec<Outer> = de.read_list(200).unwrap();
    assert_eq!(records, vec![sample(), sample()]);
    let flags: Vec<bool> = de.read_list(13).unwrap();
    assert_eq!(flags, vec![true, false]);
    assert_eq!(de.read_uint32(12), Ok(0));
    let record: Outer = de.read_struct(11).unwrap();
    assert_eq!(record, sample());
    let strings: Vec<String> = de.read_list(10).unwrap();
    assert_eq!(strings, vec![String::from("s"), String::from("t")]);
    let map: TarsMap<String, Vec<u8>> = de.read_map(9).unwrap();
    assert_eq!(map.into_entries(), vec![(String::from("k"), vec![7u8, 7])]);
    assert_eq!(de.read_string(8), Ok(long));
    assert_eq!(de.read_string(7), Ok(String::from("seven")));
    assert_eq!(de.read_double(6), Ok(TarsDouble::from_bits(7)));
    assert_eq!(de.read_float(5), Ok(TarsFloat::from_bits(7)));
    assert_eq!(de.read_int64(4), Ok(7_000_000_000));
    assert_eq!(de.read_int32(3), Ok(70000));
    assert_eq!(de.read_int16(2), Ok(700));
    assert_eq!(de.read_int8(1), Ok(7));
    assert_eq!(de.read_int8(15), Err(DecodeErr::TagNotFoundErr));
}

#[test]
fn record_in_a_record_closes_at_its_own_depth() {
    // tag 1: a record that holds a record at its tag 0 and a number at its tag 1;
    // tag 2: a number
    let bytes = vec![0x1a, 0x0a, 0x00, 0x05, 0x0b, 0x10, 0x06, 0x0b, 0x20, 0x07];
    let mut de = TarsDecoder::from(bytes);
    assert_eq!(de.read_int8(2), Ok(7));
    // the tag 0 is inside the record, not beside it
    assert_eq!(de.read_int8(0), Err(DecodeErr::TagNotFoundErr));
}

#[test]
fn first_tag_that_matches_is_read() {
    let mut de = TarsDecoder::from(vec![0x10, 0x01, 0x10, 0x02]);
    assert_eq!(de.read_int8(1), Ok(1));
}

#[test]
fn writing_what_was_read_gives_the_same_bytes() {
    let bytes = written(2, &sample());
    let back: Outer = TarsDecoder::from(bytes.clone()).read_struct(2).unwrap();
    assert_eq!(written(2, &back), bytes);

    let m: TarsMap<String, Vec<i64>> = TarsMap::from_entries(vec![
        (String::from("b"), vec![]),
        (String::from("a"), vec![1, -70000, 0]),
    ]);
    let bytes = written(0, &m);
    let back: TarsMap<String, Vec<i64>> = TarsDecoder::from(bytes.clone()).read_map(0).unwrap();
    assert_eq!(back, m);
    assert_eq!(written(0, &back), bytes);

    let s = String::from("text");
    let bytes = written(1, &s);
    let back = TarsDecoder::from(bytes.clone()).read_string(1).unwrap();
    assert_eq!(written(1, &back), bytes);
}

// ---------------------------------------------------------------------------
// malformed input
// ---------------------------------------------------------------------------

#[test]
fn input_cut_short_is_not_enough_data() {
    // a header of two bytes without its second byte
    assert_eq!(
        TarsDecoder::from(vec![0xf0]).read_int8(20),
        Err(DecodeErr::NoEnoughDataErr)
    );
    // a number without its payload
    assert_eq!(TarsDecoder::from(vec![0x00]).read_int8(0), Err(DecodeErr::NoEnoughDataErr));
    assert_eq!(
        TarsDecoder::from(vec![0x01, 0x00]).read_int16(0),
        Err(DecodeErr::NoEnoughDataErr)
    );
    assert_eq!(
        TarsDecoder::from(vec![0x02, 0x00, 0x00, 0x00]).read_int32(0),
        Err(DecodeErr::NoEnoughDataErr)
    );
    assert_eq!(
        TarsDecoder::from(vec![0x03, 0, 0, 0, 0, 0, 0, 0]).read_int64(0),
        Err(DecodeErr::NoEnoughDataErr)
    );
    assert_eq!(
        TarsDecoder::from(vec![0x04, 0, 0, 0]).read_float(0),
        Err(DecodeErr::NoEnoughDataErr)
    );
    assert_eq!(
        TarsDecoder::from(vec![0x05, 0, 0, 0, 0]).read_double(0),
        Err(DecodeErr::NoEnoughDataErr)
    );
    // a string shorter than its length
    assert_eq!(
        TarsDecoder::from(vec![0x06, 0x03, b'a', b'b']).read_string(0),
        Err(DecodeErr::NoEnoughDataErr)
    );
    assert_eq!(TarsDecoder::from(vec![0x06]).read_string(0), Err(DecodeErr::NoEnoughDataErr));
    assert_eq!(
        TarsDecoder::from(vec![0x07, 0x00, 0x00]).read_string(0),
        Err(DecodeErr::NoEnoughDataErr)
    );
    // a simple list shorter than its count
    assert_eq!(
        TarsDecoder::from(vec![0x0d, 0x00, 0x00, 0x00, 0x00, 0x02, 0x01]).read_bytes(0),
        Err(DecodeErr::NoEnoughDataErr)
    );
    assert_eq!(TarsDecoder::from(vec![0x0d]).read_bytes(0), Err(DecodeErr::NoEnoughDataErr));
    // a sequence shorter than its length
    let r: Result<Vec<i8>, DecodeErr> = TarsDecoder::from(vec![0x0d, 0x00, 0xff]).read_list(0);
    assert_eq!(r, Err(DecodeErr::NoEnoughDataErr));
    let r: Result<Vec<i16>, DecodeErr> =
        TarsDecoder::from(vec![0x09, 0x00, 0x00, 0x00, 0x03, 0x00, 0x01]).read_list(0);
    assert_eq!(r, Err(DecodeErr::NoEnoughDataErr));
    // a record that never closes
    let r: Result<Inner, DecodeErr> = TarsDecoder::from(vec![0x0a, 0x00, 0x01]).read_struct(0);
    assert_eq!(r, Err(DecodeErr::NoEnoughDataErr));
}

#[test]
fn field_cut_short_on_the_way_to_the_tag_is_not_enough_data() {
    // the string at tag 0 claims five bytes; the scan for tag 1 cannot step over it
    let mut de = TarsDecoder::from(vec![0x06, 0x05, b'a', 0x10, 0x01]);
    assert_eq!(de.read_int8(1), Err(DecodeErr::NoEnoughDataErr));
    assert_eq!(de.read_optional(1, 3i8), Err(DecodeErr::NoEnoughDataErr));
}

#[test]
fn mark_outside_the_fourteen_is_unknown() {
    assert_eq!(
        TarsDecoder::from(vec![0x0e, 0x00]).read_int8(0),
        Err(DecodeErr::UnknownTarsTypeErr)
    );
    assert_eq!(
        TarsDecoder::from(vec![0x0f, 0x00]).read_int8(0),
        Err(DecodeErr::UnknownTarsTypeErr)
    );
    // also on the way to another tag
    assert_eq!(
        TarsDecoder::from(vec![0x0e, 0x10, 0x01]).read_int8(1),
        Err(DecodeErr::UnknownTarsTypeErr)
    );
    assert_eq!(
        TarsDecoder::from(vec![0xfe, 0x20, 0x10, 0x01]).read_optional(1, 0i8),
        Err(DecodeErr::UnknownTarsTypeErr)
    );
}

#[test]
fn field_of_another_kind_is_a_mismatch() {
    let number = written(0, &5i8);
    let text = written(0, &String::from("t"));
    let list = written(0, &vec![1i32]);
    let map = written(0, &TarsMap::from_entries(vec![(1i32, 1i32)]));
    let blob = written(0, &vec![1u8]);
    let record = written(0, &Inner { n: 1, s: String::new() });

    assert_eq!(
        TarsDecoder::from(number.clone()).read_string(0),
        Err(DecodeErr::MisMatchTarsTypeErr)
    );
    assert_eq!(
        TarsDecoder::from(number.clone()).read_bytes(0),
        Err(DecodeErr::MisMatchTarsTypeErr)
    );
    let r: Result<Vec<i32>, DecodeErr> = TarsDecoder::from(number.clone()).read_list(0);
    assert_eq!(r, Err(DecodeErr::MisMatchTarsTypeErr));
    let r: Result<TarsMap<i32, i32>, DecodeErr> = TarsDecoder::from(number.clone()).read_map(0);
    assert_eq!(r, Err(DecodeErr::MisMatchTarsTypeErr));
    let r: Result<Inner, DecodeErr> = TarsDecoder::from(number).read_struct(0);
    assert_eq!(r, Err(DecodeErr::MisMatchTarsTypeErr));

    assert_eq!(TarsDecoder::from(text.clone()).read_int64(0), Err(DecodeErr::MisMatchTarsTypeErr));
    assert_eq!(TarsDecoder::from(text).read_uint64(0), Err(DecodeErr::MisMatchTarsTypeErr));
    assert_eq!(TarsDecoder::from(list.clone()).read_string(0), Err(DecodeErr::MisMatchTarsTypeErr));
    let r: Result<TarsMap<i32, i32>, DecodeErr> = TarsDecoder::from(list.clone()).read_map(0);
    assert_eq!(r, Err(DecodeErr::MisMatchTarsTypeErr));
    let r: Result<Vec<u8>, DecodeErr> = TarsDecoder::from(list).read_list(0);
    assert_eq!(r, Err(DecodeErr::MisMatchTarsTypeErr));
    let r: Result<Vec<i32>, DecodeErr> = TarsDecoder::from(map).read_list(0);
    assert_eq!(r, Err(DecodeErr::MisMatchTarsTypeErr));
    let r: Result<Vec<i32>, DecodeErr> = TarsDecoder::from(blob).read_list(0);
    assert_eq!(r, Err(DecodeErr::MisMatchTarsTypeErr));
    assert_eq!(TarsDecoder::from(record).read_int8(0), Err(DecodeErr::MisMatchTarsTypeErr));
}

#[test]
fn first_error_of_a_record_is_the_result() {
    // a record whose number is there and whose string is not
    let bytes = vec![0x5a, 0x00, 0x01, 0x0b];
    let r: Result<Inner, DecodeErr> = TarsDecoder::from(bytes).read_struct(5);
    assert_eq!(r, Err(DecodeErr::TagNotFoundErr));
    // a record whose number is a string
    let bytes = vec![0x5a, 0x06, 0x00, 0x16, 0x00, 0x0b];
    let r: Result<Inner, DecodeErr> = TarsDecoder::from(bytes).read_struct(5);
    assert_eq!(r, Err(DecodeErr::MisMatchTarsTypeErr));
}
