use xrb::codec::{decode, encode, encode_request, stamp, Slot, Value};
use xrb::schema::Primitive;

#[test]
fn frame_of_two_fields_is_six_bytes() {
    let slots = vec![Slot::Field(Primitive::U16), Slot::Field(Primitive::U8)];
    let values = vec![Value::U16(0x1234), Value::U8(0x56)];
    let body = encode_request(7, &slots, &values).unwrap();
    let frame = stamp(&body, 0xabcd);
    assert_eq!(frame, vec![7, 0x12, 0x34, 0x56, 0xab, 0xcd]);
}

#[test]
fn empty_request_is_opcode_and_sequence() {
    let body = encode_request(9, &[], &[]).unwrap();
    assert_eq!(stamp(&body, 0x0102), vec![9, 1, 2]);
}

#[test]
fn round_trip_with_padding() {
    let slots = vec![
        Slot::Field(Primitive::I16),
        Slot::Pad(3),
        Slot::Field(Primitive::U32),
        Slot::Field(Primitive::Bool),
        Slot::Field(Primitive::I8),
        Slot::Field(Primitive::I32),
    ];
    let values = vec![
        Value::I16(-2),
        Value::U32(0xdeadbeef),
        Value::Bool(true),
        Value::I8(-128),
        Value::I32(-1),
    ];
    let bytes = encode(&slots, &values).unwrap();
    assert_eq!(
        bytes,
        vec![0xff, 0xfe, 0, 0, 0, 0xde, 0xad, 0xbe, 0xef, 1, 0x80, 0xff, 0xff, 0xff, 0xff]
    );
    assert_eq!(decode(&slots, &bytes), Some(values));
}

#[test]
fn each_representation_is_big_endian() {
    let cases: Vec<(Primitive, Value, Vec<u8>)> = vec![
        (Primitive::U8, Value::U8(0xab), vec![0xab]),
        (Primitive::I8, Value::I8(-1), vec![0xff]),
        (Primitive::I8, Value::I8(127), vec![0x7f]),
        (Primitive::Bool, Value::Bool(false), vec![0]),
        (Primitive::Bool, Value::Bool(true), vec![1]),
        (Primitive::U16, Value::U16(0x0102), vec![1, 2]),
        (Primitive::U16, Value::U16(65535), vec![0xff, 0xff]),
        (Primitive::I16, Value::I16(-32768), vec![0x80, 0]),
        (Primitive::I16, Value::I16(0x1234), vec![0x12, 0x34]),
        (Primitive::U32, Value::U32(0x01020304), vec![1, 2, 3, 4]),
        (Primitive::U32, Value::U32(u32::MAX), vec![0xff, 0xff, 0xff, 0xff]),
        (Primitive::I32, Value::I32(i32::MIN), vec![0x80, 0, 0, 0]),
        (Primitive::I32, Value::I32(-2), vec![0xff, 0xff, 0xff, 0xfe]),
        (Primitive::I32, Value::I32(0x7fffffff), vec![0x7f, 0xff, 0xff, 0xff]),
    ];
    for (kind, value, bytes) in cases {
        assert_eq!(value.kind(), kind);
        assert_eq!(encode(&[Slot::Field(kind)], &[value]), Some(bytes.clone()));
        assert_eq!(decode(&[Slot::Field(kind)], &bytes), Some(vec![value]));
    }
}

#[test]
fn encode_refuses_values_that_do_not_populate_the_layout() {
    let slots = vec![Slot::Field(Primitive::U16), Slot::Pad(1), Slot::Field(Primitive::U8)];
    assert_eq!(encode(&slots, &[Value::U16(1)]), None);
    assert_eq!(encode(&slots, &[Value::U16(1), Value::U8(2), Value::U8(3)]), None);
    assert_eq!(encode(&slots, &[Value::U8(1), Value::U8(2)]), None);
    assert_eq!(encode(&slots, &[Value::U16(1), Value::I8(2)]), None);
    assert_eq!(encode(&slots, &[Value::U16(1), Value::U8(2)]), Some(vec![0, 1, 0, 2]));
    assert_eq!(encode_request(5, &slots, &[Value::U16(1)]), None);
    assert_eq!(encode(&[Slot::Pad(2)], &[Value::U8(1)]), None);
}

#[test]
fn empty_layout_is_a_zero_length_payload() {
    assert_eq!(encode(&[], &[]), Some(vec![]));
    assert_eq!(decode(&[], &[]), Some(vec![]));
    assert_eq!(decode(&[], &[0]), None);
    assert_eq!(encode(&[Slot::Pad(0)], &[]), Some(vec![]));
}

#[test]
fn decode_needs_exactly_the_layout_length() {
    let slots = vec![Slot::Field(Primitive::U16), Slot::Pad(2), Slot::Field(Primitive::U8)];
    assert_eq!(decode(&slots, &[0, 1, 0, 0]), None);
    assert_eq!(decode(&slots, &[0, 1, 0, 0, 9, 9]), None);
    assert_eq!(decode(&slots, &[0, 1]), None);
    assert_eq!(decode(&slots, &[0]), None);
    assert_eq!(decode(&slots, &[0, 1, 0, 0, 9]), Some(vec![Value::U16(1), Value::U8(9)]));
    assert_eq!(decode(&[Slot::Pad(usize::MAX)], &[0, 0]), None);
}

#[test]
fn padding_is_zero_filled_and_not_read_back() {
    let slots = vec![Slot::Pad(2), Slot::Field(Primitive::U8), Slot::Pad(1)];
    assert_eq!(encode(&slots, &[Value::U8(7)]), Some(vec![0, 0, 7, 0]));
    assert_eq!(decode(&slots, &[0xaa, 0xbb, 7, 0xcc]), Some(vec![Value::U8(7)]));
}

#[test]
fn any_nonzero_byte_reads_as_true() {
    assert_eq!(decode(&[Slot::Field(Primitive::Bool)], &[2]), Some(vec![Value::Bool(true)]));
    assert_eq!(decode(&[Slot::Field(Primitive::Bool)], &[0]), Some(vec![Value::Bool(false)]));
}

#[test]
fn stamp_appends_the_sequence_number() {
    assert_eq!(stamp(&[], 0), vec![0, 0]);
    assert_eq!(stamp(&[1, 2, 3], 0xfffe), vec![1, 2, 3, 0xff, 0xfe]);
}
