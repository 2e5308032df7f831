//! Decoding payloads against runtime schemas.

use ros2_message::dynamic::DynamicMsg;
use ros2_message::{message_field, DecodeCause, Error, Time, Value};

/// Pads `buf` with zero bytes up to a multiple of `n`.
fn pad_to(buf: &mut Vec<u8>, n: usize) {
    while buf.len() % n != 0 {
        buf.push(0);
    }
}

#[test]
fn decoding_nested_message() {
    let msg_definition = r#"
builtin_interfaces/Time stamp
float32 value

================================================================================
MSG: builtin_interfaces/Time

int32 sec
uint32 nanosec
            "#;

    let dynamic_message = DynamicMsg::new("package/msg/SmallMsg", msg_definition)
        .expect("The message definition was invalid");
    let data: Vec<u8> = vec![
        0x00u8, 0x01, 0, 0, 157, 47, 136, 102, 42, 0, 0, 0, 219, 15, 73, 64,
    ];
    let message = dynamic_message
        .decode(&data)
        .expect("The supplied bytes do not match the message definition");

    // Reading the value field of the message
    let value = message_field(&message, "value").unwrap();
    assert_eq!(value.as_f32(), Some(core::f32::consts::PI.to_bits()));
    let stamp = message_field(&message, "stamp").unwrap().as_map().unwrap();
    assert_eq!(
        message_field(stamp, "sec").unwrap().as_i32(),
        Some(1720201117)
    );
    assert_eq!(message_field(stamp, "nanosec").unwrap().as_u32(), Some(42));
}

#[test]
fn scalar_alignment_round_trip() {
    let definition = "bool flag
int8 tiny
int16 short_one
int32 medium
int64 large
uint8 utiny
uint16 ushort
uint32 umedium
uint64 ularge
float32 ratio
float64 precise
string label
time when";
    let reg = DynamicMsg::new("demo/msg/Everything", definition).unwrap();

    let mut buf: Vec<u8> = vec![0, 1, 0, 0];
    buf.push(1); // flag
    buf.extend_from_slice(&(-5i8).to_le_bytes());
    pad_to(&mut buf, 2);
    buf.extend_from_slice(&(-1000i16).to_le_bytes());
    pad_to(&mut buf, 4);
    buf.extend_from_slice(&123456i32.to_le_bytes());
    pad_to(&mut buf, 8);
    buf.extend_from_slice(&(-9_000_000_000i64).to_le_bytes());
    buf.push(200);
    pad_to(&mut buf, 2);
    buf.extend_from_slice(&50_000u16.to_le_bytes());
    pad_to(&mut buf, 4);
    buf.extend_from_slice(&4_000_000_000u32.to_le_bytes());
    pad_to(&mut buf, 8);
    buf.extend_from_slice(&1_000_000_000_000_000_000u64.to_le_bytes());
    pad_to(&mut buf, 4);
    buf.extend_from_slice(&1.5f32.to_le_bytes());
    pad_to(&mut buf, 8);
    buf.extend_from_slice(&(-2.25f64).to_le_bytes());
    pad_to(&mut buf, 4);
    buf.extend_from_slice(&6u32.to_le_bytes()); // "hello" plus terminator
    buf.extend_from_slice(b"hello");
    buf.push(0);
    pad_to(&mut buf, 4);
    buf.extend_from_slice(&1u32.to_le_bytes());
    buf.extend_from_slice(&2u32.to_le_bytes());
    pad_to(&mut buf, 4);

    let values = reg.decode_unmapped(&buf).unwrap();
    assert_eq!(values.len(), 13);
    assert_eq!(values[0].as_bool(), Some(true));
    assert_eq!(values[1].as_i8(), Some(-5));
    assert_eq!(values[2].as_i16(), Some(-1000));
    assert_eq!(values[3].as_i32(), Some(123456));
    assert_eq!(values[4].as_i64(), Some(-9_000_000_000));
    assert_eq!(values[5].as_u8(), Some(200));
    assert_eq!(values[6].as_u16(), Some(50_000));
    assert_eq!(values[7].as_u32(), Some(4_000_000_000));
    assert_eq!(values[8].as_u64(), Some(1_000_000_000_000_000_000));
    assert_eq!(values[9].as_f32(), Some(1.5f32.to_bits()));
    assert_eq!(values[10].as_f64(), Some((-2.25f64).to_bits()));
    assert_eq!(values[11].as_str(), Some("hello"));
    assert_eq!(values[12].as_time(), Some(Time { sec: 1, nsec: 2 }));
}

#[test]
fn empty_string_consumes_no_payload() {
    let reg = DynamicMsg::new("demo/msg/Text", "string s\nuint8 after").unwrap();
    // Header, a zero length prefix, and then immediately the next field.
    let buf: Vec<u8> = vec![0, 1, 0, 0, 0, 0, 0, 0, 7];
    let values = reg.decode_unmapped(&buf).unwrap();
    assert_eq!(values[0].as_str(), Some(""));
    assert_eq!(values[1].as_u8(), Some(7));
}

#[test]
fn string_length_counts_terminator() {
    let reg = DynamicMsg::new("demo/msg/Text", "string s").unwrap();
    // Length 3 means two payload bytes and the zero terminator.
    let buf: Vec<u8> = vec![0, 1, 0, 0, 3, 0, 0, 0, b'a', b'b', 0, 0];
    let values = reg.decode_unmapped(&buf).unwrap();
    assert_eq!(values[0].as_str(), Some("ab"));
}

#[test]
fn string_nonzero_terminator_is_rejected() {
    let reg = DynamicMsg::new("demo/msg/Text", "string s").unwrap();
    let buf: Vec<u8> = vec![0, 1, 0, 0, 3, 0, 0, 0, b'a', b'b', 9, 0];
    let err = reg.decode_unmapped(&buf).unwrap_err();
    match err {
        Error::DecodingError { cause, .. } => {
            assert!(matches!(cause, DecodeCause::BadStringTerminator));
        }
        other => panic!("unexpected error: {:?}", other),
    }
}

#[test]
fn vector_reads_prefix_array_does_not() {
    let with_vector = DynamicMsg::new("demo/msg/V", "uint16[] xs").unwrap();
    let with_array = DynamicMsg::new("demo/msg/A", "uint16[2] xs").unwrap();

    // Same element encodings; the vector form carries a count prefix.
    let vector_buf: Vec<u8> = vec![0, 1, 0, 0, 2, 0, 0, 0, 10, 0, 20, 0];
    let array_buf: Vec<u8> = vec![0, 1, 0, 0, 10, 0, 20, 0];

    for values in [
        with_vector.decode_unmapped(&vector_buf).unwrap(),
        with_array.decode_unmapped(&array_buf).unwrap(),
    ] {
        let items = values[0].as_slice().unwrap();
        assert_eq!(items[0].as_u16(), Some(10));
        assert_eq!(items[1].as_u16(), Some(20));
    }
}

#[test]
fn missing_dependency_is_named() {
    let reg = DynamicMsg::new("demo/msg/Root", "other_pkg/Thing part").unwrap();
    let buf: Vec<u8> = vec![0, 1, 0, 0];
    let err = reg.decode(&buf).unwrap_err();
    match err {
        Error::MessageDependencyMissing { package, name } => {
            assert_eq!(package, "other_pkg");
            assert_eq!(name, "Thing");
        }
        other => panic!("unexpected error: {:?}", other),
    }
}

#[test]
fn local_reference_resolves_in_own_package() {
    // The root references demo/Inner locally; Inner is declared globally.
    let definition = "Inner nested
====
MSG: demo/Inner
uint8 x";
    let reg = DynamicMsg::new("demo/msg/Root", definition).unwrap();
    let buf: Vec<u8> = vec![0, 1, 0, 0, 42, 0, 0, 0];
    let message = reg.decode(&buf).unwrap();
    let nested = message_field(&message, "nested").unwrap().as_map().unwrap();
    assert_eq!(message_field(nested, "x").unwrap().as_u8(), Some(42));
}

#[test]
fn leftover_bytes_are_rejected() {
    let reg = DynamicMsg::new("demo/msg/One", "uint32 x").unwrap();
    // One whole extra word after the message.
    let buf: Vec<u8> = vec![0, 1, 0, 0, 1, 0, 0, 0, 9, 9, 9, 9];
    let err = reg.decode_unmapped(&buf).unwrap_err();
    match err {
        Error::DecodingError { offset, cause, .. } => {
            assert_eq!(offset, 8);
            match cause {
                DecodeCause::Leftover(values) => {
                    assert_eq!(values[0].as_u32(), Some(1));
                }
                other => panic!("unexpected cause: {:?}", other),
            }
        }
        other => panic!("unexpected error: {:?}", other),
    }
}

#[test]
fn header_is_validated_first() {
    let reg = DynamicMsg::new("demo/msg/One", "uint32 x").unwrap();
    let buf: Vec<u8> = vec![0, 2, 0, 0, 1, 0, 0, 0];
    let err = reg.decode_unmapped(&buf).unwrap_err();
    match err {
        Error::DecodingError { offset, cause, .. } => {
            assert_eq!(offset, 4);
            assert!(matches!(cause, DecodeCause::BadHeader(2)));
        }
        other => panic!("unexpected error: {:?}", other),
    }
}

#[test]
fn duration_fields_fail_rather_than_misparse() {
    let reg = DynamicMsg::new("demo/msg/D", "duration d").unwrap();
    let buf: Vec<u8> = vec![0, 1, 0, 0, 1, 0, 0, 0, 2, 0, 0, 0];
    let err = reg.decode_unmapped(&buf).unwrap_err();
    match err {
        Error::DecodingError { cause, .. } => {
            assert!(matches!(cause, DecodeCause::DurationUnsupported));
        }
        other => panic!("unexpected error: {:?}", other),
    }
}

#[test]
fn constants_take_no_wire_bytes() {
    let reg = DynamicMsg::new("demo/msg/C", "uint32 FOO=5\nuint8 x").unwrap();
    let buf: Vec<u8> = vec![0, 1, 0, 0, 9, 0, 0, 0];
    let values = reg.decode_unmapped(&buf).unwrap();
    assert_eq!(values[0].as_u32(), Some(5));
    assert_eq!(values[1].as_u8(), Some(9));
}

#[test]
fn truncated_payload_names_field_and_offset() {
    let reg = DynamicMsg::new("demo/msg/Two", "uint32 first\nuint32 second").unwrap();
    let buf: Vec<u8> = vec![0, 1, 0, 0, 1, 0, 0, 0, 2, 0];
    let err = reg.decode_unmapped(&buf).unwrap_err();
    match err {
        Error::DecodingError {
            field,
            offset,
            cause,
            ..
        } => {
            assert_eq!(field.unwrap().name(), "second");
            assert_eq!(offset, 8);
            assert!(matches!(cause, DecodeCause::UnexpectedEof));
        }
        other => panic!("unexpected error: {:?}", other),
    }
}

#[test]
fn unmapped_then_map_matches_decode() {
    let definition = "uint8 a\nuint8 b";
    let reg = DynamicMsg::new("demo/msg/Pair", definition).unwrap();
    let buf: Vec<u8> = vec![0, 1, 0, 0, 3, 4];
    let unmapped = reg.decode_unmapped(&buf).unwrap();
    let mapped = reg.map_values(unmapped).unwrap();
    assert_eq!(message_field(&mapped, "a").unwrap().as_u8(), Some(3));
    assert_eq!(message_field(&mapped, "b").unwrap().as_u8(), Some(4));

    let direct = reg.decode(&buf).unwrap();
    assert_eq!(
        message_field(&direct, "a").unwrap().as_u8(),
        message_field(&mapped, "a").unwrap().as_u8()
    );
}

#[test]
fn bundle_without_separator_has_no_dependencies() {
    let reg = DynamicMsg::new("demo/msg/Flat", "uint8 x\nuint8 y").unwrap();
    assert_eq!(reg.msg().fields().len(), 2);
    let probe = ros2_message::MessagePath::new("demo", "Flat").unwrap();
    assert!(reg.dependency(&probe).is_none());
}

#[test]
fn dependency_without_declaration_is_rejected() {
    let definition = "uint8 x
====
uint8 y";
    let err = DynamicMsg::new("demo/msg/Flat", definition).unwrap_err();
    assert!(matches!(err, Error::BadMessageContent(_)));
}

#[test]
fn later_dependency_declaration_wins() {
    let definition = "demo/Inner nested
====
MSG: demo/Inner
uint8 x
====
MSG: demo/Inner
uint16 x";
    let reg = DynamicMsg::new("demo/msg/Root", definition).unwrap();
    // The second declaration's uint16 field takes two aligned bytes.
    let buf: Vec<u8> = vec![0, 1, 0, 0, 7, 0];
    let message = reg.decode(&buf).unwrap();
    let nested = message_field(&message, "nested").unwrap().as_map().unwrap();
    assert_eq!(message_field(nested, "x").unwrap().as_u16(), Some(7));
}

#[test]
fn invalid_text_is_rejected() {
    let reg = DynamicMsg::new("demo/msg/Text", "string s").unwrap();
    // Length 2: one payload byte, 0xFF, which is no UTF-8 at all.
    let buf: Vec<u8> = vec![0, 1, 0, 0, 2, 0, 0, 0, 0xFF, 0, 0, 0];
    let err = reg.decode_unmapped(&buf).unwrap_err();
    match err {
        Error::DecodingError { cause, .. } => {
            assert!(matches!(cause, DecodeCause::InvalidText));
        }
        other => panic!("unexpected error: {:?}", other),
    }
}

#[test]
fn cyclic_references_fail_rather_than_diverge() {
    let definition = "demo/Loop inner
====
MSG: demo/Loop
demo/Loop inner";
    let reg = DynamicMsg::new("demo/msg/Loop", definition).unwrap();
    let buf: Vec<u8> = vec![0, 1, 0, 0];
    let err = reg.decode_unmapped(&buf).unwrap_err();
    match err {
        Error::DecodingError { cause, .. } => {
            assert!(matches!(cause, DecodeCause::RecursionLimit));
        }
        other => panic!("unexpected error: {:?}", other),
    }
}

#[test]
fn mapping_rejects_values_of_the_wrong_shape() {
    let definition = "demo/Inner nested
====
MSG: demo/Inner
uint8 x";
    let reg = DynamicMsg::new("demo/msg/Root", definition).unwrap();
    // A message-typed field must be backed by an unnamed run of values.
    let err = reg.map_values(vec![Value::U8(1)]).unwrap_err();
    match err {
        Error::DecodingError { cause, .. } => {
            assert!(matches!(cause, DecodeCause::StructureMismatch));
        }
        other => panic!("unexpected error: {:?}", other),
    }
}

#[test]
fn vector_of_messages_decodes_each_element() {
    let definition = "demo/Inner[] items
====
MSG: demo/Inner
uint8 x";
    let reg = DynamicMsg::new("demo/msg/Root", definition).unwrap();
    let buf: Vec<u8> = vec![0, 1, 0, 0, 2, 0, 0, 0, 5, 6, 0, 0];
    let values = reg.decode_unmapped(&buf).unwrap();
    let items = values[0].as_slice().unwrap();
    assert_eq!(items.len(), 2);
    assert_eq!(items[0].as_slice().unwrap()[0].as_u8(), Some(5));
    assert_eq!(items[1].as_slice().unwrap()[0].as_u8(), Some(6));
}
