use tracelogging::internal::{FieldMetaData, FieldType};
use tracelogging::metadata::{event_metadata, provider_traits};

#[test]
fn provider_traits_blob() {
    assert_eq!(
        provider_traits(b"SimpleTraceLoggingProvider"),
        [&[29u8, 0][..], b"SimpleTraceLoggingProvider", &[0]].concat()
    );
    assert_eq!(provider_traits(b""), vec![3, 0, 0]);
}

#[test]
fn event_metadata_without_fields() {
    assert_eq!(event_metadata(b"myEvent2", &[]), [&[12u8, 0, 0][..], b"myEvent2", &[0]].concat());
}

#[test]
fn event_metadata_with_fields() {
    let fields = vec![
        FieldMetaData::for_field(b"var1", &FieldType::I32(42)),
        FieldMetaData::for_field(b"var2", &FieldType::ansi_string(b"first")),
    ];
    let blob = event_metadata(b"myEvent1", &fields);
    let expected = [&[24u8, 0, 0][..], b"myEvent1\0", b"var1\0", &[7], b"var2\0", &[2]].concat();
    assert_eq!(blob, expected);
    assert_eq!(u16::from_le_bytes([blob[0], blob[1]]) as usize, blob.len());
}

#[test]
fn size_field_is_cut_to_sixteen_bits() {
    let name = vec![b'a'; 70000];
    let blob = event_metadata(&name, &[]);
    assert_eq!(blob.len(), 70004);
    assert_eq!(u16::from_le_bytes([blob[0], blob[1]]), (70004u32 % 65536) as u16);
    let traits = provider_traits(&name);
    assert_eq!(traits.len(), 70003);
    assert_eq!(u16::from_le_bytes([traits[0], traits[1]]), (70003u32 % 65536) as u16);
}
