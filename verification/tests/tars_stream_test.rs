use bytes::Bytes;
use rand::random;
use std::collections::BTreeMap;
use tars_stream::errors::{DecodeErr, EncodeErr};
use tars_stream::tars_decoder::{
    DecodeFromTars, StructDecodeFromTars, TarsDecodeListTrait, TarsDecodeMapTrait,
    TarsDecodeSimpleTrait, TarsDecodeStructTrait, TarsDecoder,
};
use tars_stream::tars_encoder::{
    EncodeIntoTars, StructEncodeIntoTars, TarsEncoder, TarsEncoderTrait, TarsListItem,
};
use tars_stream::tars_map::TarsMap;
use tars_stream::tars_type::{TarsDouble, TarsFloat};
use uuid::Uuid;

fn entries_of(m: &BTreeMap<String, String>) -> TarsMap<String, String> {
    TarsMap::from_entries(m.iter().map(|(k, v)| (k.clone(), v.clone())).collect())
}

fn map_of(entries: TarsMap<String, String>) -> BTreeMap<String, String> {
    entries.into_entries().into_iter().collect()
}

#[derive(Clone, Debug, PartialEq, PartialOrd)]
struct TestStruct {
    a: i8,       // tag 0
    b: u16,      // tag 1
    v1: Vec<u8>, // tag 2
    c: String,   // tag 3 option
    v2: Vec<i8>,
    v3: Vec<bool>,
}

impl TestStruct {
    pub fn new() -> Self {
        TestStruct {
            a: 0,
            b: 0,
            v1: vec![],
            c: String::from("hello world"),
            v2: vec![],
            v3: vec![],
        }
    }

    pub fn random_for_test() -> Self {
        let vec_len: u8 = random();
        let mut v1 = vec![];
        for _ in 0..vec_len {
            v1.push(random());
        }

        let vec_len: u8 = random();
        let mut v2 = vec![];
        for _ in 0..vec_len {
            v2.push(random());
        }

        let vec_len: u8 = random();
        let mut v3 = vec![];
        for _ in 0..vec_len {
            v3.push(random());
        }

        TestStruct {
            a: random(),
            b: random(),
            v1: v1,
            c: Uuid::new_v4().to_string(),
            v2: v2,
            v3: v3,
        }
    }
}

impl StructEncodeIntoTars for TestStruct {
    fn struct_encode_into(&self, encoder: &mut TarsEncoder) -> Result<(), EncodeErr> {
        encoder.put(0, &self.a)?;
        encoder.put(1, &self.b)?;
        encoder.put(2, &self.v1)?;
        encoder.put(3, &self.c)?;
        encoder.put(4, &self.v2)?;
        encoder.put(5, &self.v3)?;
        Ok(())
    }
}

impl StructDecodeFromTars for TestStruct {
    fn struct_decode_from(decoder: &mut TarsDecoder) -> Result<Self, DecodeErr> {
        let a = decoder.read_int8(0)?;
        let b = decoder.read_uint16(1)?;
        let v1 = decoder.read_list(2)?;
        let c = decoder.read_optional(3, "hello world".to_string())?;
        let v2 = decoder.read_list(4)?;
        let v3 = decoder.read_list(5)?;
        Ok(TestStruct {
            a,
            b,
            v1,
            c,
            v2,
            v3,
        })
    }
}

impl TarsListItem for TestStruct {}

#[test]
fn test_encode_decode_struct() {
    let mut encoder = TarsEncoder::new();
    let ts = TestStruct::new();

    ts.encode_into(&mut encoder, 0).unwrap();

    let mut decoder = TarsDecoder::from(&encoder.to_bytes());

    let de_ts = TestStruct::decode_from_tars(&mut decoder, 0).unwrap();

    assert_eq!(de_ts, ts);

    let mut encoder = TarsEncoder::new();
    let ts = TestStruct::random_for_test();

    ts.encode_into(&mut encoder, 0).unwrap();

    let mut decoder = TarsDecoder::from(&encoder.to_bytes());

    let de_ts = TestStruct::decode_from_tars(&mut decoder, 0).unwrap();

    assert_eq!(de_ts, ts);
}

#[derive(Clone, Debug, PartialEq, Eq, PartialOrd, Ord)]
enum TestEnum {
    A,
    B,
}

impl TestEnum {
    fn number(&self) -> i32 {
        match self {
            TestEnum::A => -32,
            TestEnum::B => 1337,
        }
    }
}

impl DecodeFromTars for TestEnum {
    fn decode_from_tars(decoder: &mut TarsDecoder, tag: u8) -> Result<Self, DecodeErr> {
        match decoder.read_int32(tag)? {
            -32 => Ok(TestEnum::A),
            1337 => Ok(TestEnum::B),
            _ => Err(DecodeErr::InvalidEnumValue),
        }
    }
}

impl EncodeIntoTars for TestEnum {
    fn encode_into(&self, encoder: &mut TarsEncoder, tag: u8) -> Result<(), EncodeErr> {
        encoder.put(tag, &self.number())
    }
}

impl TarsListItem for TestEnum {}

#[derive(Clone, Debug, PartialEq, PartialOrd)]
struct TestStruct2 {
    f1: f32, // 0
    f2: f64, // 1

    i1: i8,  // 2
    i2: i16, // 3
    i3: i32, // 4
    i4: i64, // 5

    u1: u8,  // 6
    u2: u16, // 7
    u3: u32, // 8

    b: bool, // 10

    s: TestStruct,               // 11
    v: Vec<TestStruct>,          // 12
    m: BTreeMap<String, String>, // 13
    y: u8,                       // 14
    z: TestStruct,               // 15
    x: Bytes,
    e: Vec<TestEnum>,
}

impl TestStruct2 {
    pub fn new() -> Self {
        TestStruct2 {
            f1: 0.0,
            f2: 0.0,

            i1: 0, // 2
            i2: 0, // 3
            i3: 0, // 4
            i4: 0, // 5

            u1: 0, // 6
            u2: 0, // 7
            u3: 0, // 8

            b: false,

            s: TestStruct::new(),
            v: vec![],
            m: BTreeMap::new(),
            y: 0,
            z: TestStruct::new(),
            x: Bytes::new(),
            e: vec![],
        }
    }

    pub fn random_for_test() -> Self {
        let mut ts = TestStruct2::new();

        ts.f1 = random();
        ts.f2 = random();

        ts.i1 = random();
        ts.i2 = random();
        ts.i3 = random();
        ts.i4 = random();

        ts.u1 = random();
        ts.u2 = random();
        ts.u3 = random();

        ts.b = random();

        ts.s = TestStruct::random_for_test();

        let v_len: u8 = random();
        for _ in 0..v_len {
            ts.v.push(TestStruct::random_for_test());
        }

        let m_len: u8 = random();
        for _ in 0..m_len {
            ts.m
                .insert(Uuid::new_v4().to_string(), Uuid::new_v4().to_string());
        }

        ts.y = random();
        ts.z = TestStruct::random_for_test();
        ts.x = Bytes::copy_from_slice(ts.s.v1.as_slice());

        let e_len: u8 = random();
        for _ in 0..e_len {
            let b: bool = random();
            if b {
                ts.e.push(TestEnum::A);
            } else {
                ts.e.push(TestEnum::B);
            }
        }

        ts
    }
}

impl StructDecodeFromTars for TestStruct2 {
    fn struct_decode_from(decoder: &mut TarsDecoder) -> Result<Self, DecodeErr> {
        let f1 = f32::from_bits(decoder.read_float(0)?.to_bits());
        let f2 = f64::from_bits(decoder.read_double(1)?.to_bits());

        let i1 = decoder.read_int8(2)?;
        let i2 = decoder.read_int16(3)?;
        let i3 = decoder.read_int32(4)?;
        let i4 = decoder.read_int64(5)?;

        let u1 = decoder.read_uint8(6)?;
        let u2 = decoder.read_uint16(7)?;
        let u3 = decoder.read_uint32(8)?;

        let b = decoder.read_boolean(9)?;

        let s = decoder.read_struct(10)?;
        let v = decoder.read_list(11)?;
        let m = map_of(decoder.read_map(12)?);
        let y = decoder.read_optional(13, 0u8)?;
        let z = decoder.read_optional(14, TestStruct::new())?;
        let x = decoder.read_bytes(15)?;
        let e = decoder.read_list(16)?;

        Ok(TestStruct2 {
            f1,
            f2,
            i1,
            i2,
            i3,
            i4,
            u1,
            u2,
            u3,
            b,
            s,
            v,
            m,
            y,
            z,
            x,
            e,
        })
    }
}

impl StructEncodeIntoTars for TestStruct2 {
    fn struct_encode_into(&self, encoder: &mut TarsEncoder) -> Result<(), EncodeErr> {
        encoder.put(0, &TarsFloat::from_bits(self.f1.to_bits()))?;
        encoder.put(1, &TarsDouble::from_bits(self.f2.to_bits()))?;

        encoder.put(2, &self.i1)?;
        encoder.put(3, &self.i2)?;
        encoder.put(4, &self.i3)?;
        encoder.put(5, &self.i4)?;

        encoder.put(6, &self.u1)?;
        encoder.put(7, &self.u2)?;
        encoder.put(8, &self.u3)?;

        encoder.put(9, &self.b)?;
        encoder.put(10, &self.s)?;
        encoder.put(11, &self.v)?;
        encoder.put(12, &entries_of(&self.m))?;
        encoder.put(13, &self.y)?;
        encoder.put(14, &self.z)?;
        encoder.put(15, &self.x)?;
        encoder.put(16, &self.e)?;

        Ok(())
    }
}

#[test]
fn test_encode_decode_struct2() {
    let mut encoder = TarsEncoder::new();

    let mut ts = TestStruct2::new();

    ts.encode_into(&mut encoder, 0).unwrap();

    let mut decoder = TarsDecoder::from(&encoder.to_bytes());

    let de_ts = TestStruct2::decode_from_tars(&mut decoder, 0).unwrap();

    assert_eq!(de_ts, ts);

    // a second record

    ts.f1 = random();
    ts.f2 = random();

    ts.i1 = random();
    ts.i2 = random();
    ts.i3 = random();
    ts.i4 = random();

    ts.u1 = random();
    ts.u2 = random();
    ts.u3 = random();

    ts.b = random();

    ts.s = TestStruct::random_for_test();

    let v_len: u8 = random();
    for _ in 0..v_len {
        ts.v.push(TestStruct::random_for_test());
    }

    let m_len: u8 = random();
    for _ in 0..m_len {
        ts.m
            .insert(Uuid::new_v4().to_string(), Uuid::new_v4().to_string());
    }

    ts.y = random();
    ts.z = TestStruct::random_for_test();
    ts.x = Bytes::copy_from_slice(ts.s.v1.as_slice());

    let e_len: u8 = random();
    for _ in 0..e_len {
        let b: bool = random();
        if b {
            ts.e.push(TestEnum::A);
        } else {
            ts.e.push(TestEnum::B);
        }
    }
    let mut encoder = TarsEncoder::new();

    ts.encode_into(&mut encoder, 0).unwrap();

    let mut decoder = TarsDecoder::from(&encoder.to_bytes());

    let de_ts = TestStruct2::decode_from_tars(&mut decoder, 0).unwrap();

    assert_eq!(de_ts, ts);

    // a third record

    ts.y = 0;

    let mut encoder = TarsEncoder::new();

    ts.encode_into(&mut encoder, 0).unwrap();

    let mut decoder = TarsDecoder::from(&encoder.to_bytes());

    let de_ts = TestStruct2::decode_from_tars(&mut decoder, 0).unwrap();

    assert_eq!(de_ts, ts);
}

#[derive(Clone, Debug, PartialEq, PartialOrd)]
struct TestOptionalStruct {
    a: TestStruct2,
    b: Bytes,
    c: f64,
    d: BTreeMap<String, String>,
}

impl TestOptionalStruct {
    fn new() -> Self {
        TestOptionalStruct {
            a: TestStruct2::new(),
            b: Bytes::new(),
            c: 0.0,
            d: BTreeMap::new(),
        }
    }
}

impl StructDecodeFromTars for TestOptionalStruct {
    fn struct_decode_from(decoder: &mut TarsDecoder) -> Result<TestOptionalStruct, DecodeErr> {
        println!("reading 0");
        let a = decoder.read_optional(0, TestStruct2::new())?;
        println!("reading 1");
        let b = decoder.read_bytes(1)?;
        println!("reading 2");
        let c = f64::from_bits(
            decoder
                .read_optional(2, TarsDouble::from_bits(0.0f64.to_bits()))?
                .to_bits(),
        );
        println!("reading 3");
        let d = map_of(decoder.read_map(3)?);
        Ok(TestOptionalStruct { a, b, c, d })
    }
}

impl StructEncodeIntoTars for TestOptionalStruct {
    fn struct_encode_into(&self, encoder: &mut TarsEncoder) -> Result<(), EncodeErr> {
        // write fields that no reader asks for, to test that they are stepped over

        encoder.put(128, &i8::MIN)?;
        encoder.put(129, &i16::MIN)?;
        encoder.put(130, &i32::MIN)?;
        encoder.put(131, &i64::MIN)?;

        encoder.put(132, &u8::MAX)?;
        encoder.put(133, &u16::MAX)?;
        encoder.put(134, &u32::MAX)?;

        encoder.put(135, &true)?;
        encoder.put(136, &TarsFloat::from_bits(7.123f32.to_bits()))?;
        encoder.put(137, &TarsDouble::from_bits(0.42222f64.to_bits()))?;

        encoder.put(138, &Bytes::new())?;
        encoder.put(139, &TestStruct2::random_for_test())?;

        // Not write a
        encoder.put(1, &self.b)?;
        // Not write c
        encoder.put(3, &entries_of(&self.d))
    }
}

#[test]
fn test_encode_decode_optioal() {
    let s = TestOptionalStruct::new();
    let mut encoder = TarsEncoder::new();
    s.struct_encode_into(&mut encoder).unwrap();
    let buf = encoder.to_bytes();
    println!("{:?}", buf);
    let mut decoder = TarsDecoder::from(&buf);
    let de_s = TestOptionalStruct::struct_decode_from(&mut decoder).unwrap();

    assert_eq!(s, de_s);
}
