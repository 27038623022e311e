use tracelogging::internal::{FieldMetaData, FieldType};
use tracelogging::trace_logging;

#[test]
fn integer_values_convert_into_their_variants() {
    assert!(matches!(FieldType::from(-3i8), FieldType::I8(-3)));
    assert!(matches!(FieldType::from(200u8), FieldType::U8(200)));
    assert!(matches!(FieldType::from(-300i16), FieldType::I16(-300)));
    assert!(matches!(FieldType::from(60000u16), FieldType::U16(60000)));
    assert!(matches!(FieldType::from(-70000i32), FieldType::I32(-70000)));
    assert!(matches!(FieldType::from(42u32), FieldType::U32(42)));
    assert!(matches!(FieldType::from(-1i64), FieldType::I64(-1)));
    assert!(matches!(FieldType::from(u64::MAX), FieldType::U64(u64::MAX)));
}

#[test]
fn size_of_is_the_payload_width() {
    assert_eq!(FieldType::I8(1).size_of(), 1);
    assert_eq!(FieldType::U8(1).size_of(), 1);
    assert_eq!(FieldType::I16(1).size_of(), 2);
    assert_eq!(FieldType::U16(1).size_of(), 2);
    assert_eq!(FieldType::I32(1).size_of(), 4);
    assert_eq!(FieldType::U32(1).size_of(), 4);
    assert_eq!(FieldType::I64(1).size_of(), 8);
    assert_eq!(FieldType::U64(1).size_of(), 8);
    assert_eq!(FieldType::ANSISTRING(b"first\0".to_vec()).size_of(), 6);
}

#[test]
fn as_ptr_gives_the_little_endian_payload() {
    assert_eq!(FieldType::U32(0x0102_0304).as_ptr(), vec![4, 3, 2, 1]);
    assert_eq!(FieldType::I16(-2).as_ptr(), vec![0xfe, 0xff]);
    assert_eq!(FieldType::I8(-1).as_ptr(), vec![0xff]);
    assert_eq!(FieldType::U8(7).as_ptr(), vec![7]);
    assert_eq!(FieldType::U16(0xabcd).as_ptr(), vec![0xcd, 0xab]);
    assert_eq!(FieldType::I32(42).as_ptr(), vec![42, 0, 0, 0]);
    assert_eq!(FieldType::I64(-2).as_ptr(), vec![0xfe, 0xff, 0xff, 0xff, 0xff, 0xff, 0xff, 0xff]);
    assert_eq!(FieldType::U64(0x0102_0304_0506_0708).as_ptr(), vec![8, 7, 6, 5, 4, 3, 2, 1]);
    assert_eq!(FieldType::ANSISTRING(b"ab\0".to_vec()).as_ptr(), b"ab\0".to_vec());
}

#[test]
fn payload_length_matches_size_of() {
    let values = vec![
        FieldType::I8(1),
        FieldType::U16(2),
        FieldType::I32(3),
        FieldType::U64(4),
        FieldType::ANSISTRING(b"xyz\0".to_vec()),
    ];
    for v in &values {
        assert_eq!(v.as_ptr().len() as u32, v.size_of());
    }
}

#[test]
fn as_event_type_codes() {
    assert_eq!(FieldType::ANSISTRING(vec![0]).as_event_type(), 2);
    assert_eq!(FieldType::I8(0).as_event_type(), 3);
    assert_eq!(FieldType::U8(0).as_event_type(), 4);
    assert_eq!(FieldType::I16(0).as_event_type(), 5);
    assert_eq!(FieldType::U16(0).as_event_type(), 6);
    assert_eq!(FieldType::I32(0).as_event_type(), 7);
    assert_eq!(FieldType::U32(0).as_event_type(), 8);
    assert_eq!(FieldType::I64(0).as_event_type(), 9);
    assert_eq!(FieldType::U64(0).as_event_type(), 10);
}

#[test]
fn kind_codes_match_value_codes() {
    assert_eq!(trace_logging::FieldType::ANSISTRING.code(), FieldType::ANSISTRING(vec![0]).as_event_type());
    assert_eq!(trace_logging::FieldType::I8.code(), FieldType::I8(0).as_event_type());
    assert_eq!(trace_logging::FieldType::U8.code(), FieldType::U8(0).as_event_type());
    assert_eq!(trace_logging::FieldType::I6.code(), FieldType::I16(0).as_event_type());
    assert_eq!(trace_logging::FieldType::U16.code(), FieldType::U16(0).as_event_type());
    assert_eq!(trace_logging::FieldType::I32.code(), FieldType::I32(0).as_event_type());
    assert_eq!(trace_logging::FieldType::U32.code(), FieldType::U32(0).as_event_type());
    assert_eq!(trace_logging::FieldType::I64.code(), FieldType::I64(0).as_event_type());
    assert_eq!(trace_logging::FieldType::U64.code(), FieldType::U64(0).as_event_type());
}

#[test]
fn ansi_string_appends_a_nul() {
    match FieldType::ansi_string(b"first") {
        FieldType::ANSISTRING(bytes) => assert_eq!(bytes, b"first\0".to_vec()),
        _ => panic!("expected an ANSI string"),
    }
    match FieldType::ansi_string(b"") {
        FieldType::ANSISTRING(bytes) => assert_eq!(bytes, vec![0]),
        _ => panic!("expected an ANSI string"),
    }
}

#[test]
fn ansi_string_payload_is_one_c_string() {
    let bytes = FieldType::ansi_string(b"a string").as_ptr();
    assert_eq!(bytes.last(), Some(&0));
    assert!(!bytes[..bytes.len() - 1].contains(&0));
    assert_eq!(FieldType::ansi_string(b"a string").as_ptr(), b"a string\0".to_vec());
}

#[test]
fn field_metadata_entry_bytes() {
    let m = FieldMetaData::for_field(b"var1", &FieldType::I32(42));
    assert_eq!(m.name, b"var1\0".to_vec());
    assert_eq!(m.field_type, 7);
    assert_eq!(m.to_bytes(), b"var1\0\x07".to_vec());
    let n = FieldMetaData::named(b"var1", trace_logging::FieldType::I32.code());
    assert_eq!(n.to_bytes(), m.to_bytes());
}

#[test]
fn generic_size_of() {
    assert_eq!(trace_logging::size_of(1u8), 1);
    assert_eq!(trace_logging::size_of(1u16), 2);
    assert_eq!(trace_logging::size_of(1i32), 4);
    assert_eq!(trace_logging::size_of(1u64), 8);
    assert_eq!(trace_logging::size_of(&1u8), std::mem::size_of::<usize>() as u32);
    assert_eq!(trace_logging::size_of([0u8; 5]), 5);
}

#[test]
fn integer_payloads_read_back_as_their_values() {
    let b = FieldType::I64(-123456789).as_ptr();
    assert_eq!(i64::from_le_bytes([b[0], b[1], b[2], b[3], b[4], b[5], b[6], b[7]]), -123456789);
    let b = FieldType::U32(3_000_000_000).as_ptr();
    assert_eq!(u32::from_le_bytes([b[0], b[1], b[2], b[3]]), 3_000_000_000);
    let b = FieldType::I16(i16::MIN).as_ptr();
    assert_eq!(i16::from_le_bytes([b[0], b[1]]), i16::MIN);
}
