use tracelogging::event::{
    descriptor_shapes, Event, EventDescriptor, Opcode, DATA_TYPE_EVENT_METADATA, DATA_TYPE_PAYLOAD,
};
use tracelogging::internal::FieldType;
use tracelogging::metadata::event_metadata;

#[test]
fn opcodes() {
    assert_eq!(Opcode::Info.value(), 0);
    assert_eq!(Opcode::Start.value(), 1);
    assert_eq!(Opcode::Stop.value(), 2);
}

#[test]
fn descriptor_carries_only_the_opcode() {
    let d = EventDescriptor::new(Opcode::Stop);
    assert_eq!((d.id, d.version, d.channel, d.level, d.opcode, d.task, d.keyword), (0, 0, 0, 0, 2, 0, 0));
}

#[test]
fn event_with_two_fields() {
    let names = vec![b"var1".to_vec(), b"var2".to_vec()];
    let values = vec![FieldType::I32(42), FieldType::ansi_string(b"first")];
    let e = Event::new(Opcode::Start, b"myEvent3", &names, &values);
    assert_eq!(e.descriptor.opcode, 1);
    assert_eq!(e.data.len(), 3);
    let metadata = [&[24u8, 0, 0][..], b"myEvent3\0", b"var1\0", &[7], b"var2\0", &[2]].concat();
    assert_eq!(e.data[0].data, metadata);
    assert_eq!(e.data[0].size, 24);
    assert_eq!(e.data[0].data_type, DATA_TYPE_EVENT_METADATA);
    assert_eq!(e.data[1].data, vec![42, 0, 0, 0]);
    assert_eq!(e.data[1].size, 4);
    assert_eq!(e.data[1].data_type, DATA_TYPE_PAYLOAD);
    assert_eq!(e.data[2].data, b"first\0".to_vec());
    assert_eq!(e.data[2].size, 6);
    assert_eq!(e.data[2].data_type, DATA_TYPE_PAYLOAD);
}

#[test]
fn event_without_fields() {
    let e = Event::new(Opcode::Info, b"myEvent2", &[], &[]);
    assert_eq!(e.descriptor.opcode, 0);
    assert_eq!(e.data.len(), 1);
    assert_eq!(e.data[0].data, event_metadata(b"myEvent2", &[]));
    assert_eq!(e.data[0].size as usize, e.data[0].data.len());
}

#[test]
fn descriptor_shapes_put_the_metadata_first() {
    let shapes = descriptor_shapes(24, &[4, 6]);
    assert_eq!(shapes.len(), 3);
    assert_eq!((shapes[0].size, shapes[0].data_type), (24, DATA_TYPE_EVENT_METADATA));
    assert_eq!((shapes[1].size, shapes[1].data_type), (4, DATA_TYPE_PAYLOAD));
    assert_eq!((shapes[2].size, shapes[2].data_type), (6, DATA_TYPE_PAYLOAD));
    assert_eq!(descriptor_shapes(9, &[]).len(), 1);
}
