use bytes::Bytes;
use tars_stream::errors::EncodeErr;
use tars_stream::tars_encoder::{StructEncodeIntoTars, TarsEncoder, TarsEncoderTrait};
use tars_stream::tars_map::TarsMap;
use tars_stream::tars_type::{TarsDouble, TarsFloat};

#[test]
fn test_encode_option() {
    let mut encoder = TarsEncoder::new();
    let a: Option<i64> = Some(-1337);
    let b: Option<i64> = None;
    encoder.put(0, &a).unwrap();
    encoder.put(0, &b).unwrap();

    assert_eq!(&encoder.to_bytes(), &b"\x01\xfa\xc7"[..]);
}

#[test]
fn test_encode_i8() {
    let mut encoder = TarsEncoder::new();
    let i0: i8 = -127;
    encoder.put(0, &i0).unwrap();
    assert_eq!(&encoder.to_bytes(), &b"\x00\x81"[..]);

    let mut encoder = TarsEncoder::new();
    let i1: i8 = 127;
    encoder.put(14, &i1).unwrap();
    assert_eq!(&encoder.to_bytes(), &b"\xe0\x7f"[..]);

    let mut encoder = TarsEncoder::new();
    let i2: i8 = -1;
    encoder.put(255, &i2).unwrap();
    assert_eq!(&encoder.to_bytes(), &b"\xf0\xff\xff"[..]);

    let mut encoder = TarsEncoder::new();
    let i3: i8 = 0;
    encoder.put(3, &i3).unwrap();
    assert_eq!(&encoder.to_bytes(), &b"\x3c"[..]);
}

#[test]
fn test_encode_u8() {
    let mut encoder = TarsEncoder::new();
    let u0: u8 = 127;
    encoder.put(0, &u0).unwrap();
    assert_eq!(&encoder.to_bytes(), &b"\x00\x7f"[..]);

    let mut encoder = TarsEncoder::new();
    let u1: u8 = 255;
    encoder.put(14, &u1).unwrap();
    assert_eq!(&encoder.to_bytes(), &b"\xe0\xff"[..]);

    let mut encoder = TarsEncoder::new();
    let u2: u8 = 0;
    encoder.put(255, &u2).unwrap();
    assert_eq!(&encoder.to_bytes(), &b"\xfc\xff"[..]);
}

#[test]
fn test_encode_i16() {
    let mut encoder = TarsEncoder::new();
    let i0: i16 = -32768;
    encoder.put(0, &i0).unwrap();
    assert_eq!(&encoder.to_bytes(), &b"\x01\x80\x00"[..]);

    let mut encoder = TarsEncoder::new();
    let i1: i16 = -127;
    encoder.put(15, &i1).unwrap();
    assert_eq!(&encoder.to_bytes(), &b"\xf0\x0f\x81"[..]);

    let mut encoder = TarsEncoder::new();
    let i2: i16 = 32767;
    encoder.put(19, &i2).unwrap();
    assert_eq!(&encoder.to_bytes(), &b"\xf1\x13\x7f\xff"[..]);
}

#[test]
fn test_encode_u16() {
    let mut encoder = TarsEncoder::new();
    let i0: u16 = 32768;
    encoder.put(0, &i0).unwrap();
    assert_eq!(&encoder.to_bytes(), &b"\x01\x80\x00"[..]);

    let mut encoder = TarsEncoder::new();
    let i1: u16 = 255;
    encoder.put(15, &i1).unwrap();
    assert_eq!(&encoder.to_bytes(), &b"\xf0\x0f\xff"[..]);

    let mut encoder = TarsEncoder::new();
    let i2: u16 = 65535;
    encoder.put(19, &i2).unwrap();
    assert_eq!(&encoder.to_bytes(), &b"\xf1\x13\xff\xff"[..]);
}

#[test]
fn test_encode_i32() {
    let mut encoder = TarsEncoder::new();
    let i0: i32 = 90909;
    encoder.put(0, &i0).unwrap();
    assert_eq!(&encoder.to_bytes(), &b"\x02\x00\x01\x63\x1d"[..]);

    let mut encoder = TarsEncoder::new();
    let i1: i32 = 255;
    encoder.put(15, &i1).unwrap();
    assert_eq!(&encoder.to_bytes(), &b"\xf1\x0f\x00\xff"[..]);

    let mut encoder = TarsEncoder::new();
    let i2: i32 = -127;
    encoder.put(14, &i2).unwrap();
    assert_eq!(&encoder.to_bytes(), &b"\xe0\x81"[..]);

    let mut encoder = TarsEncoder::new();
    let i3: i32 = -95234;
    encoder.put(14, &i3).unwrap();
    assert_eq!(&encoder.to_bytes(), &b"\xe2\xff\xfe\x8b\xfe"[..]);
}

#[test]
fn test_encode_u32() {
    let mut encoder = TarsEncoder::new();
    let u0: u32 = 88888;
    encoder.put(0, &u0).unwrap();
    assert_eq!(&encoder.to_bytes(), &b"\x02\x00\x01\x5b\x38"[..]);

    let mut encoder = TarsEncoder::new();
    let u1: u32 = 254;
    encoder.put(14, &u1).unwrap();
    assert_eq!(&encoder.to_bytes(), &b"\xe0\xfe"[..]);

    let mut encoder = TarsEncoder::new();
    let u2: u32 = 256;
    encoder.put(14, &u2).unwrap();
    assert_eq!(&encoder.to_bytes(), &b"\xe1\x01\x00"[..]);
}

#[test]
fn test_encode_i64() {
    let mut encoder = TarsEncoder::new();
    let i0: i64 = -1;
    encoder.put(0, &i0).unwrap();
    assert_eq!(&encoder.to_bytes(), &b"\x00\xff"[..]);

    let mut encoder = TarsEncoder::new();
    let i1: i64 = -129;
    encoder.put(0, &i1).unwrap();
    assert_eq!(&encoder.to_bytes(), &b"\x01\xff\x7f"[..]);

    let mut encoder = TarsEncoder::new();
    let i2: i64 = -32769;
    encoder.put(0, &i2).unwrap();
    assert_eq!(&encoder.to_bytes(), &b"\x02\xff\xff\x7f\xff"[..]);

    let mut encoder = TarsEncoder::new();
    let i3: i64 = -2147483649;
    encoder.put(0, &i3).unwrap();
    assert_eq!(
        &encoder.to_bytes(),
        &b"\x03\xff\xff\xff\xff\x7f\xff\xff\xff"[..]
    );
}

#[test]
fn test_encode_u64() {
    let mut encoder = TarsEncoder::new();
    let u0: u64 = 255;
    encoder.put(0, &u0).unwrap();
    assert_eq!(&encoder.to_bytes(), &b"\x00\xff"[..]);

    let mut encoder = TarsEncoder::new();
    let u1: u64 = 65535;
    encoder.put(0, &u1).unwrap();
    assert_eq!(&encoder.to_bytes(), &b"\x01\xff\xff"[..]);

    let mut encoder = TarsEncoder::new();
    let u2: u64 = 4294967295;
    encoder.put(0, &u2).unwrap();
    assert_eq!(&encoder.to_bytes(), &b"\x02\xff\xff\xff\xff"[..]);

    let mut encoder = TarsEncoder::new();
    let u3: u64 = 18446744073709551615;
    encoder.put(255, &u3).unwrap();
    assert_eq!(
        &encoder.to_bytes(),
        &b"\xf3\xff\xff\xff\xff\xff\xff\xff\xff\xff"[..]
    );
}

#[test]
fn test_encode_f32() {
    let mut encoder = TarsEncoder::new();
    let f1: f32 = 0.1472;
    encoder.put(0, &TarsFloat::from_bits(f1.to_bits())).unwrap();
    assert_eq!(&encoder.to_bytes(), &b"\x04\x3e\x16\xbb\x99"[..]);
}

#[test]
fn test_encode_f64() {
    let mut encoder = TarsEncoder::new();
    let f1: f64 = 0.14723333;
    encoder.put(0, &TarsDouble::from_bits(f1.to_bits())).unwrap();
    assert_eq!(
        &encoder.to_bytes(),
        &b"\x05\x3f\xc2\xd8\x8a\xb0\x9d\x97\x2a"[..]
    );
}

#[test]
fn test_encode_bool() {
    let mut encoder = TarsEncoder::new();
    encoder.put(0, &false).unwrap();
    encoder.put(1, &true).unwrap();
    assert_eq!(&encoder.to_bytes(), &b"\x0c\x10\x01"[..]);
}

#[test]
fn test_encode_string() {
    let mut encoder = TarsEncoder::new();
    let s: String = "hello wrold!".to_string();
    let expect_buf = "\x06\x0c".to_string() + &s;
    encoder.put(0, &s).unwrap();
    assert_eq!(&encoder.to_bytes(), &expect_buf);

    let mut encoder = TarsEncoder::new();
    let mut s1: String = String::new();
    for _ in 0..0xf7f7f {
        s1.push('z');
    }
    let expect_buf = "\x07\x00\x0f\x7f\x7f".to_string() + &s1;
    encoder.put(0, &s1).unwrap();
    assert_eq!(&encoder.to_bytes(), &expect_buf);
}

#[test]
fn test_encode_map() {
    let mut map: TarsMap<String, i32> = TarsMap::new();
    map.insert("hello".to_string(), 32);
    map.insert("world".to_string(), 42);

    let mut encoder = TarsEncoder::new();
    encoder.put(0, &map).unwrap();
    assert_eq!(
        &encoder.to_bytes(),
        &b"\x08\0\0\0\x12\x06\x05hello\x00\x20\x06\x05world\x00\x2a"[..]
    );
}

#[test]
fn test_encode_vec() {
    let mut v1: Vec<u8> = Vec::with_capacity(0xf7f7f);
    for _ in 0..0xf7f7f {
        v1.push(255);
    }
    let mut encoder = TarsEncoder::new();
    encoder.put(0, &v1).unwrap();
    let mut header_v = Vec::from(&b"\x0d\x00\x00\x0f\x7f\x7f"[..]);
    header_v.extend_from_slice(&v1);
    assert_eq!(&encoder.to_bytes(), &header_v);

    let mut v2: Vec<i8> = Vec::with_capacity(0xf7f7f);
    for _ in 0..0xf7f7f {
        v2.push(-127);
    }
    let mut encoder = TarsEncoder::new();
    encoder.put(0, &v2).unwrap();
    let mut header_v: Vec<u8> = Vec::from(&b"\x0d\x00\x00\x0f\x7f\x7f"[..]);
    let v2_bytes: Vec<u8> = v2.iter().map(|x| x.to_be_bytes()[0]).collect();
    header_v.extend_from_slice(&v2_bytes);
    assert_eq!(&encoder.to_bytes(), &header_v);

    let mut v3: Vec<bool> = Vec::with_capacity(0xf6f7f);
    let mut b = false;
    for _ in 0..0xf6f7f {
        v3.push(b);
        b = !b;
    }
    let mut encoder = TarsEncoder::new();
    encoder.put(0, &v3).unwrap();
    let mut header_v: Vec<u8> = Vec::from(&b"\x0d\x00\x00\x0f\x6f\x7f"[..]);
    let v3_bytes: Vec<u8> = v3.iter().map(|x| u8::from(*x)).collect();
    header_v.extend_from_slice(&v3_bytes);
    assert_eq!(&encoder.to_bytes(), &header_v);

    let mut v4: Vec<String> = Vec::with_capacity(0xf6f7e);
    let str4 = "hello".repeat(128);
    let str1 = "hello".to_string();
    let times = 0xf6f7e / 2;
    for _ in 0..times {
        v4.push(str4.clone());
    }
    for _ in 0..times {
        v4.push(str1.clone());
    }

    let mut encoder = TarsEncoder::new();
    encoder.put(10, &v4).unwrap();
    let buf = encoder.to_bytes();
    assert_eq!(&buf[0..1], &b"\xa9"[..]);
    let len_in_u8: [u8; 4] = [buf[1], buf[2], buf[3], buf[4]];
    let len: u32 = u32::from_be_bytes(len_in_u8);
    // (header len + string size + string in bytes)
    let expect_len = (1 + 4 + str4.len()) * times + (1 + 1 + str1.len()) * times;
    assert_eq!(len, expect_len as u32);
}

#[test]
fn test_encode_bytes() {
    let b = Bytes::from(&b"hello world!"[..]);
    let mut encoder = TarsEncoder::new();
    encoder.put(9, &b).unwrap();
    assert_eq!(&encoder.to_bytes(), &b"\x9d\x00\x00\x00\x00\x0chello world!"[..]);
}

#[derive(Clone, Debug, PartialEq)]
struct TestStruct {
    a: i8,             // tag 0
    b: u16,            // tag 1
    v1: Vec<u8>,       // tag 2
    c: Option<String>, // tag 3 option
}

impl TestStruct {
    pub fn new() -> Self {
        TestStruct {
            a: 0,
            b: 0,
            v1: vec![],
            c: None,
        }
    }
}

impl StructEncodeIntoTars for TestStruct {
    fn struct_encode_into(&self, encoder: &mut TarsEncoder) -> Result<(), EncodeErr> {
        encoder.put(0, &self.a)?;
        encoder.put(1, &self.b)?;
        encoder.put(2, &self.v1)?;
        encoder.put(3, &self.c)?;
        Ok(())
    }
}

#[derive(Clone, Debug, PartialEq)]
struct TestStruct2 {
    f: f32,                   // 0
    s: TestStruct,            // 1
    m: TarsMap<String, String>, // 2
    s2: TestStruct,           // 3
    y: Option<u8>,            // 4 option
}

impl TestStruct2 {
    pub fn new() -> Self {
        TestStruct2 {
            f: 0.0,
            s: TestStruct::new(),
            m: TarsMap::new(),
            s2: TestStruct::new(),
            y: None,
        }
    }
}

impl StructEncodeIntoTars for TestStruct2 {
    fn struct_encode_into(&self, encoder: &mut TarsEncoder) -> Result<(), EncodeErr> {
        encoder.put(0, &TarsFloat::from_bits(self.f.to_bits()))?;
        encoder.put(1, &self.s)?;
        encoder.put(2, &self.m)?;
        encoder.put(3, &self.s2)?;
        encoder.put(4, &self.y)?;
        Ok(())
    }
}

#[test]
fn test_encode_struct() {
    let mut s = TestStruct::new();

    let mut encoder = TarsEncoder::new();
    s.struct_encode_into(&mut encoder).unwrap();
    assert_eq!(
        &encoder.to_bytes(),
        &b"\x0c\x1c\x2d\x00\x00\x00\x00\x00"[..]
    );

    let mut encoder = TarsEncoder::new();
    s.a = -1;
    s.b = 65535;
    s.v1.push(255);
    s.v1.push(0);
    s.c = Some("hello".to_string());
    s.struct_encode_into(&mut encoder).unwrap();
    assert_eq!(
        &encoder.to_bytes(),
        &b"\x00\xff\x11\xff\xff\x2d\x00\x00\x00\x00\x02\xff\x00\x36\x05hello"[..]
    );

    let t2 = TestStruct2::new();
    let mut encoder = TarsEncoder::new();
    t2.struct_encode_into(&mut encoder).unwrap();
    assert_eq!(
        &encoder.to_bytes(),
        &b"\x04\x00\x00\x00\x00\x1a\x0c\x1c\x2d\x00\x00\x00\x00\x00\x0b\x28\x00\x00\x00\x00\x3a\x0c\x1c\x2d\x00\x00\x00\x00\x00\x0b"[..]
    );
}
