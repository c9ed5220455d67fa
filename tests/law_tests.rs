use std::marker::PhantomData;

use bytes::Bytes;
use either::Either;
use type2network::composed::TLV;
use type2network::cursor::Cursor;
use type2network::error::Error;
use type2network::generics::deserialize_presized;
use type2network::union::{deserialize_fallback, deserialize_strict};
use type2network::{FromNetworkOrder, ToNetworkOrder};

fn encode<T: ToNetworkOrder + ?Sized>(v: &T) -> Vec<u8> {
    let mut buffer: Vec<u8> = Vec::new();
    let n = v.serialize_to(&mut buffer).unwrap();
    assert_eq!(n, buffer.len());
    buffer
}

fn round_trip<T: ToNetworkOrder + FromNetworkOrder + Default + PartialEq + std::fmt::Debug>(v: T) {
    let mut bytes = encode(&v);
    let width = bytes.len();
    bytes.extend_from_slice(&[0xAA, 0xBB]);
    let mut cursor = Cursor::new(bytes.as_slice());
    let mut back = T::default();
    assert!(back.deserialize_from(&mut cursor).is_ok());
    assert_eq!(back, v);
    assert_eq!(cursor.position(), width);
    assert_eq!(cursor.remaining(), 2);
}

#[test]
fn round_trip_integer_bounds() {
    round_trip(u8::MIN);
    round_trip(u8::MAX);
    round_trip(u16::MAX);
    round_trip(u32::MAX);
    round_trip(u64::MAX);
    round_trip(u128::MAX);
    round_trip(0_u128);
    round_trip(i8::MIN);
    round_trip(i8::MAX);
    round_trip(-1_i8);
    round_trip(i16::MIN);
    round_trip(i16::MAX);
    round_trip(i32::MIN);
    round_trip(i32::MAX);
    round_trip(i64::MIN);
    round_trip(i64::MAX);
    round_trip(i128::MIN);
    round_trip(i128::MAX);
    round_trip(-1_i128);
    round_trip(0_i64);
}

#[test]
fn round_trip_code_points() {
    round_trip('\0');
    round_trip('a');
    round_trip('\u{D7FF}');
    round_trip('\u{E000}');
    round_trip('\u{10FFFF}');
    round_trip('💯');
}

#[test]
fn scalar_widths_do_not_depend_on_value() {
    assert_eq!(encode(&0_u8).len(), 1);
    assert_eq!(encode(&0_u16).len(), 2);
    assert_eq!(encode(&1_u32).len(), 4);
    assert_eq!(encode(&1_u64).len(), 8);
    assert_eq!(encode(&1_u128).len(), 16);
    assert_eq!(encode(&-1_i8).len(), 1);
    assert_eq!(encode(&0_i16).len(), 2);
    assert_eq!(encode(&i32::MIN).len(), 4);
    assert_eq!(encode(&0_i64).len(), 8);
    assert_eq!(encode(&0_i128).len(), 16);
    assert_eq!(encode(&'a').len(), 4);
}

#[test]
fn signed_values_use_twos_complement() {
    assert_eq!(encode(&-1_i16), vec![0xFF, 0xFF]);
    assert_eq!(encode(&i8::MIN), vec![0x80]);
    assert_eq!(encode(&-2_i32), vec![0xFF, 0xFF, 0xFF, 0xFE]);
    assert_eq!(encode(&0x1234_i16), vec![0x12, 0x34]);
}

#[test]
fn u16_is_written_big_endian() {
    assert_eq!(encode(&0x1234_u16), vec![0x12, 0x34]);
}

#[test]
fn optional_asymmetry() {
    let absent: Option<u16> = None;
    assert!(encode(&absent).is_empty());
    assert_eq!(encode(&Some(0x1234_u16)), encode(&0x1234_u16));

    let b = vec![0x12, 0x34, 0x56, 0x78];
    let mut cursor = Cursor::new(b.as_slice());
    let mut v: Option<u32> = None;
    assert!(v.deserialize_from(&mut cursor).is_ok());
    assert!(v.is_none());
    assert_eq!(cursor.position(), 0);

    let mut v: Option<u32> = Some(0);
    assert!(v.deserialize_from(&mut cursor).is_ok());
    assert_eq!(v, Some(0x12345678));
}

#[test]
fn presized_sequence_reads_exactly_count() {
    let b = vec![0x12, 0x34, 0x56, 0x78, 0x9A, 0xBC];
    let mut cursor = Cursor::new(b.as_slice());
    let mut v: Vec<u16> = vec![7, 7, 7];
    assert!(deserialize_presized(&mut v, 2, &mut cursor).is_ok());
    assert_eq!(v, vec![0x1234, 0x5678]);
    assert_eq!(cursor.position(), 4);

    let mut cursor = Cursor::new(b.as_slice());
    let mut v: Vec<u16> = Vec::new();
    assert!(deserialize_presized(&mut v, 0, &mut cursor).is_ok());
    assert!(v.is_empty());
    assert_eq!(cursor.position(), 0);

    let mut cursor = Cursor::new(b.as_slice());
    let mut v: Vec<u16> = Vec::new();
    assert_eq!(deserialize_presized(&mut v, 4, &mut cursor), Err(Error::UnexpectedEof));
}

#[test]
fn sequence_capacity_gives_the_count() {
    let b = vec![0x12, 0x34, 0x56, 0x78, 0x9A, 0xBC, 0xDE, 0xF0];
    let mut cursor = Cursor::new(b.as_slice());
    let mut v: Vec<u16> = Vec::with_capacity(2);
    let k = v.capacity();
    assert!(v.deserialize_from(&mut cursor).is_ok());
    assert_eq!(v.len(), k);
    assert_eq!(cursor.position(), 2 * k);
    assert_eq!(&v[..2], &[0x1234, 0x5678]);
}

#[derive(Debug, Clone, Copy, PartialEq)]
enum OpCodeReserved {
    Query,
    IQuery,
    Status,
    Unassigned,
    Notify,
    Update,
    Dos,
    Reserved(u16),
}

impl OpCodeReserved {
    fn discriminant(&self) -> u16 {
        match self {
            OpCodeReserved::Query => 0,
            OpCodeReserved::IQuery => 1,
            OpCodeReserved::Status => 2,
            OpCodeReserved::Unassigned => 3,
            OpCodeReserved::Notify => 4,
            OpCodeReserved::Update => 5,
            OpCodeReserved::Dos => 6,
            OpCodeReserved::Reserved(v) => *v,
        }
    }
}

impl From<u16> for OpCodeReserved {
    fn from(value: u16) -> Self {
        match value {
            0 => OpCodeReserved::Query,
            1 => OpCodeReserved::IQuery,
            2 => OpCodeReserved::Status,
            3 => OpCodeReserved::Unassigned,
            4 => OpCodeReserved::Notify,
            5 => OpCodeReserved::Update,
            6 => OpCodeReserved::Dos,
            _ => OpCodeReserved::Reserved(value),
        }
    }
}

impl ToNetworkOrder for OpCodeReserved {
    fn serialize_to(&self, buffer: &mut Vec<u8>) -> Result<usize, Error> {
        self.discriminant().serialize_to(buffer)
    }
}

impl FromNetworkOrder for OpCodeReserved {
    fn deserialize_from(&mut self, buffer: &mut Cursor) -> Result<(), Error> {
        deserialize_fallback::<OpCodeReserved, u16>(self, buffer)
    }
}

#[test]
fn fallback_union_maps_every_discriminant() {
    for d in [0_u16, 1, 2, 3, 4, 5, 6, 7, 55, 0x1234, 0xFFFF] {
        let b = d.to_be_bytes();
        let mut cursor = Cursor::new(&b);
        let mut v = OpCodeReserved::Query;
        assert!(v.deserialize_from(&mut cursor).is_ok());
        assert_eq!(v.discriminant(), d);
        assert_eq!(cursor.position(), 2);
    }

    let b = [0_u8, 5];
    let mut cursor = Cursor::new(&b);
    let mut v = OpCodeReserved::Query;
    assert!(v.deserialize_from(&mut cursor).is_ok());
    assert_eq!(v, OpCodeReserved::Update);

    let b = [0x12_u8];
    let mut cursor = Cursor::new(&b);
    let mut v = OpCodeReserved::Query;
    assert_eq!(v.deserialize_from(&mut cursor), Err(Error::UnexpectedEof));
    assert_eq!(v, OpCodeReserved::Query);

    assert_eq!(encode(&OpCodeReserved::Reserved(0x1234)), vec![0x12, 0x34]);
    assert_eq!(encode(&OpCodeReserved::Notify), vec![0x00, 0x04]);
}

#[test]
fn invalid_code_points_are_rejected() {
    let b = [0_u8, 0, 0xD8, 0];
    let mut cursor = Cursor::new(&b);
    let mut c = 'a';
    assert_eq!(c.deserialize_from(&mut cursor), Err(Error::InvalidCodePoint(0xD800)));

    let b = [0_u8, 0x11, 0, 0];
    let mut cursor = Cursor::new(&b);
    assert_eq!(c.deserialize_from(&mut cursor), Err(Error::InvalidCodePoint(0x110000)));
}

#[test]
fn short_input_is_exhausted() {
    let b = [0x12_u8, 0x34, 0x56];
    let mut cursor = Cursor::new(&b);
    let mut v = 0_u32;
    assert_eq!(v.deserialize_from(&mut cursor), Err(Error::UnexpectedEof));
    assert_eq!(cursor.position(), 0);

    let mut cursor = Cursor::new(&b);
    let mut a = [0_u16; 2];
    assert_eq!(a.deserialize_from(&mut cursor), Err(Error::UnexpectedEof));

    let mut cursor = Cursor::new(&b);
    let mut t = TLV::new(0_u16, 0_u16, vec![0_u8; 4]);
    assert_eq!(t.deserialize_from(&mut cursor), Err(Error::UnexpectedEof));
    assert_eq!(t.tag, 0x1234);
}

#[test]
fn error_messages() {
    assert_eq!(Error::UnexpectedEof.message(), "unexpected end of input");
    assert_eq!(Error::Custom("bad length".to_string()).message(), "bad length");
    assert_eq!(Error::InvalidCodePoint(0xD800).message(), "invalid Unicode code point");
}

#[test]
fn cursor_reads_exactly() {
    let b = [1_u8, 2, 3];
    let mut cursor = Cursor::new(&b);
    assert_eq!(cursor.read_exact(2), Ok(&[1_u8, 2][..]));
    assert_eq!(cursor.position(), 2);
    assert_eq!(cursor.read_exact(2), Err(Error::UnexpectedEof));
    assert_eq!(cursor.remaining(), 1);
}

#[test]
fn text_and_byte_runs() {
    assert_eq!(
        encode(&String::from("I ❤ 東京")),
        vec![73, 32, 226, 157, 164, 32, 230, 157, 177, 228, 186, 172]
    );
    assert_eq!(encode(&"abc"), vec![0x61, 0x62, 0x63]);
    let run: &[u8] = &[0x12, 0x34, 0x56, 0x78];
    assert_eq!(encode(run), vec![0x12, 0x34, 0x56, 0x78]);
    assert!(encode(&()).is_empty());
}

#[test]
fn boxes_and_markers() {
    let v = Box::new(vec![[0xFFFF_u16; 3], [0xFFFF; 3], [0xFFFF; 3]]);
    assert_eq!(encode(&v), vec![0xFF; 18]);

    let b = vec![0x12, 0x34, 0x56, 0x78];
    let mut cursor = Cursor::new(b.as_slice());
    let mut v = Box::new([0_u16; 2]);
    assert!(v.deserialize_from(&mut cursor).is_ok());
    assert_eq!(*v, [0x1234_u16, 0x5678]);

    let erased: Box<dyn ToNetworkOrder> = Box::new([0xFFFF_u16; 3]);
    assert_eq!(encode(&erased), vec![0xFF; 6]);

    let m: PhantomData<u32> = PhantomData;
    assert!(encode(&m).is_empty());
    let mut m: PhantomData<u32> = PhantomData;
    let mut cursor = Cursor::new(b.as_slice());
    assert!(m.deserialize_from(&mut cursor).is_ok());
    assert_eq!(cursor.position(), 0);
}

#[test]
fn either_and_bytes() {
    let v: Either<Vec<u8>, ()> = Either::Left(vec![0_u8, 1, 2, 3]);
    assert_eq!(encode(&v), vec![0, 1, 2, 3]);
    let v: Either<(), Vec<u8>> = Either::Right(vec![0_u8, 1, 2, 3]);
    assert_eq!(encode(&v), vec![0, 1, 2, 3]);

    let v = Bytes::from(vec![0_u8, 1, 2, 3]);
    let mut buffer: Vec<u8> = Vec::new();
    assert_eq!(v.serialize_to(&mut buffer).unwrap(), 4);
    assert_eq!(buffer, vec![0, 1, 2, 3]);
    assert_eq!(v.serialize_to(&mut buffer).unwrap(), 4);
    assert_eq!(buffer, vec![0, 1, 2, 3, 0, 1, 2, 3]);
}

#[test]
fn tlv_value_sized_from_decoded_length() {
    let buf = vec![0x00, 0x01, 0x00, 0x03, 0xAA, 0xBB, 0xCC, 0xDD];
    let mut cursor = Cursor::new(buf.as_slice());
    let mut tag = 0_u16;
    let mut length = 0_u16;
    assert!(tag.deserialize_from(&mut cursor).is_ok());
    assert!(length.deserialize_from(&mut cursor).is_ok());
    let mut value: Vec<u8> = Vec::new();
    assert!(deserialize_presized(&mut value, length as usize, &mut cursor).is_ok());
    assert_eq!(value, vec![0xAA, 0xBB, 0xCC]);
    assert_eq!(cursor.remaining(), 1);
}

#[test]
fn composite_round_trips() {
    let v = [0x1234_u16, 0x5678, 0x9ABC];
    let mut bytes = encode(&v);
    assert_eq!(bytes, vec![0x12, 0x34, 0x56, 0x78, 0x9A, 0xBC]);
    bytes.push(0xEE);
    let mut cursor = Cursor::new(bytes.as_slice());
    let mut back = [0_u16; 3];
    assert!(back.deserialize_from(&mut cursor).is_ok());
    assert_eq!(back, v);
    assert_eq!(cursor.remaining(), 1);

    let v = [Some(-2_i32), None, Some(7)];
    let bytes = encode(&v);
    assert_eq!(bytes.len(), 8);
    let mut cursor = Cursor::new(bytes.as_slice());
    let mut back = [Some(0_i32), None, Some(0)];
    assert!(back.deserialize_from(&mut cursor).is_ok());
    assert_eq!(back, v);

    let v = TLV::new('x', 0x0102_u16, [0xAA_u8, 0xBB]);
    let bytes = encode(&v);
    assert_eq!(bytes, vec![0, 0, 0, 0x78, 0x01, 0x02, 0xAA, 0xBB]);
    let mut cursor = Cursor::new(bytes.as_slice());
    let mut back = TLV::new('a', 0_u16, [0_u8; 2]);
    assert!(back.deserialize_from(&mut cursor).is_ok());
    assert_eq!((back.tag, back.length, back.value), ('x', 0x0102, [0xAA, 0xBB]));
}

#[test]
fn optional_array_skips_absent_values() {
    let v = [None, Some(0x1234_u16), None, Some(0x5678_u16)];
    assert_eq!(encode(&v), vec![0x12, 0x34, 0x56, 0x78]);

    let b = vec![0x12, 0x34, 0x56, 0x78];
    let mut cursor = Cursor::new(b.as_slice());
    let mut d = [Some(0_u16), Some(0_u16)];
    assert!(d.deserialize_from(&mut cursor).is_ok());
    assert_eq!(d, [Some(0x1234), Some(0x5678)]);
}

#[test]
fn failures_keep_what_was_decoded() {
    // a short scalar leaves its destination and the cursor alone
    let b = [0x12_u8];
    let mut cursor = Cursor::new(&b);
    let mut x = 0xABCD_u16;
    assert_eq!(x.deserialize_from(&mut cursor), Err(Error::UnexpectedEof));
    assert_eq!(x, 0xABCD);
    assert_eq!(cursor.position(), 0);

    // an array keeps the slots decoded before the failing one
    let b = [0x12_u8, 0x34, 0x56, 0x78];
    let mut cursor = Cursor::new(&b);
    let mut a = [0_u16; 3];
    assert_eq!(a.deserialize_from(&mut cursor), Err(Error::UnexpectedEof));
    assert_eq!(a, [0x1234, 0x5678, 0]);
    assert_eq!(cursor.position(), 4);

    // a sequence keeps the elements decoded before the failing one
    let mut cursor = Cursor::new(&b);
    let mut v: Vec<u16> = Vec::new();
    assert_eq!(deserialize_presized(&mut v, 3, &mut cursor), Err(Error::UnexpectedEof));
    assert_eq!(v, vec![0x1234, 0x5678]);

    // a present option stays present
    let b = [0x12_u8, 0x34];
    let mut cursor = Cursor::new(&b);
    let mut o: Option<u32> = Some(7);
    assert_eq!(o.deserialize_from(&mut cursor), Err(Error::UnexpectedEof));
    assert_eq!(o, Some(7));

    // a record stops at its first failing part
    let b = [0x12_u8, 0x34, 0x56];
    let mut cursor = Cursor::new(&b);
    let mut t = TLV::new(0_u16, 0_u16, [9_u8; 1]);
    assert_eq!(t.deserialize_from(&mut cursor), Err(Error::UnexpectedEof));
    assert_eq!((t.tag, t.length, t.value), (0x1234, 0, [9]));
    assert_eq!(cursor.position(), 2);
}

#[derive(Debug, Clone, Copy, PartialEq)]
enum Level {
    Low,
    High,
}

impl TryFrom<i8> for Level {
    type Error = i8;
    fn try_from(value: i8) -> Result<Self, Self::Error> {
        match value {
            -1 => Ok(Level::Low),
            1 => Ok(Level::High),
            _ => Err(value),
        }
    }
}

#[test]
fn strict_union_with_signed_discriminant() {
    let b = [0xFF_u8, 0x02];
    let mut cursor = Cursor::new(&b);
    let mut l = Level::High;
    assert!(deserialize_strict::<Level, i8>(&mut l, &mut cursor, "Level").is_ok());
    assert_eq!(l, Level::Low);
    assert_eq!(
        deserialize_strict::<Level, i8>(&mut l, &mut cursor, "Level"),
        Err(Error::UnknownDiscriminant { discriminant: vec![0x02], union_name: "Level".to_string() })
    );
    assert_eq!(l, Level::Low);
    assert_eq!(cursor.position(), 2);
}

#[test]
fn two_field_record_pair() {
    let rec = (0x1234_u16, 0x5678_u16);
    assert_eq!(encode(&rec), vec![0x12, 0x34, 0x56, 0x78]);

    let b = vec![0x12, 0x34, 0x56, 0x78];
    let mut cursor = Cursor::new(b.as_slice());
    let mut back = (0_u16, 0_u16);
    assert!(back.deserialize_from(&mut cursor).is_ok());
    assert_eq!(back, rec);

    let mut cursor = Cursor::new(&b[..3]);
    let mut back = (0_u16, 0_u16);
    assert_eq!(back.deserialize_from(&mut cursor), Err(Error::UnexpectedEof));
    assert_eq!(back, (0x1234, 0));
}
