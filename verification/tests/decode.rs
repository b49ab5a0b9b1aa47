use byte_router::scalar::{ScalarKind, ScalarValue};
use byte_router::service::{ArgList, DecodeError, FromPayload, Payload};

#[test]
fn test_case_1() {
    let mut buf: Vec<u8> = Vec::new();
    buf.extend_from_slice(&10u8.to_le_bytes());
    buf.extend_from_slice(&10u16.to_le_bytes());
    buf.extend_from_slice(&10u32.to_le_bytes());
    buf.extend_from_slice(&10u64.to_le_bytes());
    buf.extend_from_slice(&10usize.to_le_bytes());
    buf.extend_from_slice(&10i8.to_le_bytes());
    buf.extend_from_slice(&10i16.to_le_bytes());
    buf.extend_from_slice(&10i32.to_le_bytes());
    buf.extend_from_slice(&10i64.to_le_bytes());
    buf.extend_from_slice(&10isize.to_le_bytes());

    let mut payload = Payload::from_bytes(&buf);
    let sig = vec![
        ScalarKind::U8,
        ScalarKind::U16,
        ScalarKind::U32,
        ScalarKind::U64,
        ScalarKind::Usize,
        ScalarKind::I8,
        ScalarKind::I16,
        ScalarKind::I32,
        ScalarKind::I64,
        ScalarKind::Isize,
    ];
    let args = <ArgList as FromPayload>::from(&sig, &mut payload).unwrap();
    assert_eq!(
        args.values,
        vec![
            ScalarValue::U8(10),
            ScalarValue::U16(10),
            ScalarValue::U32(10),
            ScalarValue::U64(10),
            ScalarValue::Usize(10),
            ScalarValue::I8(10),
            ScalarValue::I16(10),
            ScalarValue::I32(10),
            ScalarValue::I64(10),
            ScalarValue::Isize(10),
        ]
    );
}

#[test]
fn test_case_2() {
    let mut buf: Vec<u8> = Vec::new();
    buf.extend_from_slice(&1.5f32.to_le_bytes());
    buf.extend_from_slice(&1.6f64.to_le_bytes());

    let mut payload = Payload::from_bytes(&buf);
    let sig = vec![ScalarKind::F32, ScalarKind::F64];
    let args = <ArgList as FromPayload>::from(&sig, &mut payload).unwrap();
    assert_eq!(
        args.values,
        vec![
            ScalarValue::F32Bits(1.5f32.to_bits()),
            ScalarValue::F64Bits(1.6f64.to_bits()),
        ]
    );
}

fn read_one(bytes: &[u8], kind: ScalarKind) -> ScalarValue {
    let mut payload = Payload::from_bytes(bytes);
    payload.read(kind).unwrap()
}

#[test]
fn round_trip_unsigned() {
    assert_eq!(read_one(&0u8.to_le_bytes(), ScalarKind::U8), ScalarValue::U8(0));
    assert_eq!(read_one(&255u8.to_le_bytes(), ScalarKind::U8), ScalarValue::U8(255));
    assert_eq!(read_one(&513u16.to_le_bytes(), ScalarKind::U16), ScalarValue::U16(513));
    assert_eq!(
        read_one(&0xdead_beefu32.to_le_bytes(), ScalarKind::U32),
        ScalarValue::U32(0xdead_beef)
    );
    assert_eq!(
        read_one(&u64::MAX.to_le_bytes(), ScalarKind::U64),
        ScalarValue::U64(u64::MAX)
    );
    assert_eq!(
        read_one(&usize::MAX.to_le_bytes(), ScalarKind::Usize),
        ScalarValue::Usize(usize::MAX)
    );
}

#[test]
fn round_trip_signed() {
    assert_eq!(read_one(&(-1i8).to_le_bytes(), ScalarKind::I8), ScalarValue::I8(-1));
    assert_eq!(read_one(&i8::MIN.to_le_bytes(), ScalarKind::I8), ScalarValue::I8(i8::MIN));
    assert_eq!(
        read_one(&(-513i16).to_le_bytes(), ScalarKind::I16),
        ScalarValue::I16(-513)
    );
    assert_eq!(
        read_one(&i32::MIN.to_le_bytes(), ScalarKind::I32),
        ScalarValue::I32(i32::MIN)
    );
    assert_eq!(
        read_one(&i64::MIN.to_le_bytes(), ScalarKind::I64),
        ScalarValue::I64(i64::MIN)
    );
    assert_eq!(
        read_one(&i64::MAX.to_le_bytes(), ScalarKind::I64),
        ScalarValue::I64(i64::MAX)
    );
    assert_eq!(
        read_one(&isize::MIN.to_le_bytes(), ScalarKind::Isize),
        ScalarValue::Isize(isize::MIN)
    );
}

#[test]
fn round_trip_float_bits() {
    assert_eq!(
        read_one(&(-2.25f32).to_le_bytes(), ScalarKind::F32),
        ScalarValue::F32Bits((-2.25f32).to_bits())
    );
    assert_eq!(
        read_one(&6.5f64.to_le_bytes(), ScalarKind::F64),
        ScalarValue::F64Bits(6.5f64.to_bits())
    );
}

#[test]
fn read_advances_cursor() {
    let mut buf: Vec<u8> = Vec::new();
    buf.extend_from_slice(&7u16.to_le_bytes());
    buf.extend_from_slice(&9u32.to_le_bytes());
    let mut payload = Payload::from_bytes(&buf);
    assert_eq!(payload.len(), 6);
    assert_eq!(payload.read(ScalarKind::U16).unwrap(), ScalarValue::U16(7));
    assert_eq!(payload.len(), 4);
    assert_eq!(payload.read(ScalarKind::U32).unwrap(), ScalarValue::U32(9));
    assert_eq!(payload.len(), 0);
}

#[test]
fn read_truncated_fails() {
    let mut payload = Payload::from_bytes(&[1u8, 2u8, 3u8]);
    assert_eq!(payload.read(ScalarKind::U32), Err(DecodeError::Truncated));
    let mut empty = Payload::from_bytes(&[]);
    assert_eq!(empty.read(ScalarKind::U8), Err(DecodeError::Truncated));
}

#[test]
fn decode_short_circuits() {
    // Enough for the first element, not for the second.
    let mut buf: Vec<u8> = Vec::new();
    buf.extend_from_slice(&5u32.to_le_bytes());
    buf.push(1);
    let mut payload = Payload::from_bytes(&buf);
    let sig = vec![ScalarKind::U32, ScalarKind::U64];
    let r = <ArgList as FromPayload>::from(&sig, &mut payload);
    assert!(matches!(r, Err(DecodeError::Truncated)));
}

#[test]
fn nullary_decode_ignores_payload() {
    let sig: Vec<ScalarKind> = vec![];
    let mut empty = Payload::from_bytes(&[]);
    let args = <ArgList as FromPayload>::from(&sig, &mut empty).unwrap();
    assert!(args.values.is_empty());
    let mut long = Payload::from_bytes(&[9u8; 40]);
    let args = <ArgList as FromPayload>::from(&sig, &mut long).unwrap();
    assert!(args.values.is_empty());
    assert_eq!(long.len(), 40);
}

#[test]
fn trailing_bytes_never_fail() {
    let mut buf: Vec<u8> = Vec::new();
    buf.extend_from_slice(&77u16.to_le_bytes());
    buf.extend_from_slice(&[0xab; 13]);
    let mut payload = Payload::from_bytes(&buf);
    let sig = vec![ScalarKind::U16];
    let args = <ArgList as FromPayload>::from(&sig, &mut payload).unwrap();
    assert_eq!(args.values, vec![ScalarValue::U16(77)]);
}
