use vstd::prelude::*;
use crate::guid::Guid;
use crate::internal::{FieldMetaData, FieldType};
use crate::metadata::{event_metadata, spec_event_metadata};

verus! {

/// The opcode of an event: a plain event, the start of an activity, or its
/// stop.
#[derive(Clone, Copy, Debug, PartialEq, Eq)]
pub enum Opcode {
    Info,
    Start,
    Stop,
}

impl Opcode {
    pub open spec fn spec_value(self) -> u8 {
        match self {
            Opcode::Info => 0,
            Opcode::Start => 1,
            Opcode::Stop => 2,
        }
    }

    /// The opcode byte: 0 for a plain event, 1 for a start, 2 for a stop.
    pub fn value(&self) -> (v: u8)
        ensures
            v == self.spec_value(),
    {
        match self {
            Opcode::Info => 0,
            Opcode::Start => 1,
            Opcode::Stop => 2,
        }
    }
}

/// The event descriptor that goes with each event written.
#[derive(Clone, Copy, Debug)]
pub struct EventDescriptor {
    pub id: u16,
    pub version: u8,
    pub channel: u8,
    pub level: u8,
    pub opcode: u8,
    pub task: u16,
    pub keyword: u64,
}

impl EventDescriptor {
    /// The descriptor of a TraceLogging event with the given opcode: every
    /// other field is 0.
    pub fn new(opcode: Opcode) -> (d: EventDescriptor)
        ensures
            d.id == 0,
            d.version == 0,
            d.channel == 0,
            d.level == 0,
            d.opcode == opcode.spec_value(),
            d.task == 0,
            d.keyword == 0,
    {
        EventDescriptor {
            id: 0,
            version: 0,
            channel: 0,
            level: 0,
            opcode: opcode.value(),
            task: 0,
            keyword: 0,
        }
    }
}

/// The type of an event data descriptor that carries the event metadata.
pub const DATA_TYPE_EVENT_METADATA: u8 = 1;

/// The type of an event data descriptor that carries a field value.
pub const DATA_TYPE_PAYLOAD: u8 = 0;

/// One event data descriptor: the bytes it points at, the size it states
/// and its type.
#[derive(Debug)]
pub struct DataDescriptor {
    pub data: Vec<u8>,
    pub size: u32,
    pub data_type: u8,
}

/// An event as handed to the operating system: its descriptor, then its data
/// descriptors, the metadata first and one per field after it.
#[derive(Debug)]
pub struct Event {
    pub descriptor: EventDescriptor,
    pub data: Vec<DataDescriptor>,
}

/// The packed metadata entry of the field named `name` holding `value`.
pub open spec fn field_entry(name: Seq<u8>, value: FieldType) -> Seq<u8> {
    name.push(0u8).push(value.event_type())
}

/// Whether `e` is the event with the given opcode, name and fields.
pub open spec fn is_event(
    e: Event,
    opcode: Opcode,
    event_name: Seq<u8>,
    names: Seq<Vec<u8>>,
    values: Seq<FieldType>,
) -> bool {
    let metadata = spec_event_metadata(
        event_name,
        Seq::new(names.len(), |i: int| field_entry(names[i]@, values[i])),
    );
    &&& e.descriptor == EventDescriptor::new_spec(opcode)
    &&& e.data@.len() == values.len() + 1
    &&& e.data@[0].data@ == metadata
    &&& e.data@[0].size == (metadata.len() as u32)
    &&& e.data@[0].data_type == DATA_TYPE_EVENT_METADATA
    &&& forall|i: int|
        0 <= i < values.len() ==> {
            &&& (#[trigger] e.data@[i + 1]).data@ == values[i].payload()
            &&& e.data@[i + 1].size == (values[i].payload_len() as u32)
            &&& e.data@[i + 1].data_type == DATA_TYPE_PAYLOAD
        }
}

impl EventDescriptor {
    pub open spec fn new_spec(opcode: Opcode) -> EventDescriptor {
        EventDescriptor {
            id: 0,
            version: 0,
            channel: 0,
            level: 0,
            opcode: opcode.spec_value(),
            task: 0,
            keyword: 0,
        }
    }
}

impl Event {
    /// The event named `event_name` whose fields are named by `names` and
    /// hold `values`, in that order.
    pub fn new(opcode: Opcode, event_name: &[u8], names: &[Vec<u8>], values: &[FieldType]) -> (e:
        Event)
        requires
            names@.len() == values@.len(),
        ensures
            is_event(e, opcode, event_name@, names@, values@),
    {
        let mut fields: Vec<FieldMetaData<Vec<u8>>> = Vec::new();
        let mut k: usize = 0;
        while k < names.len()
            invariant
                k <= names@.len(),
                names@.len() == values@.len(),
                fields@.len() == k,
                forall|j: int|
                    0 <= j < k ==> (#[trigger] fields@[j]).spec_bytes() == field_entry(
                        names@[j]@,
                        values@[j],
                    ),
            decreases names@.len() - k,
        {
            let f = FieldMetaData::for_field(names[k].as_slice(), &values[k]);
            fields.push(f);
            k = k + 1;
        }
        let metadata = event_metadata(event_name, fields.as_slice());
        let ghost entries = Seq::new(names@.len(), |i: int| field_entry(names@[i]@, values@[i]));
        assert(crate::metadata::entry_bytes(fields@) =~= entries);
        let size = metadata.len() as u32;
        let mut data: Vec<DataDescriptor> = Vec::new();
        data.push(DataDescriptor { data: metadata, size, data_type: DATA_TYPE_EVENT_METADATA });
        let mut k: usize = 0;
        while k < values.len()
            invariant
                k <= values@.len(),
                data@.len() == k + 1,
                data@[0].data@ == spec_event_metadata(event_name@, entries),
                data@[0].size == (spec_event_metadata(event_name@, entries).len() as u32),
                data@[0].data_type == DATA_TYPE_EVENT_METADATA,
                forall|i: int|
                    0 <= i < k ==> {
                        &&& (#[trigger] data@[i + 1]).data@ == values@[i].payload()
                        &&& data@[i + 1].size == (values@[i].payload_len() as u32)
                        &&& data@[i + 1].data_type == DATA_TYPE_PAYLOAD
                    },
            decreases values@.len() - k,
        {
            let d = DataDescriptor {
                data: values[k].as_ptr(),
                size: values[k].size_of(),
                data_type: DATA_TYPE_PAYLOAD,
            };
            data.push(d);
            k = k + 1;
        }
        Event { descriptor: EventDescriptor::new(opcode), data }
    }
}

/// The size and type of one event data descriptor, without the place of its
/// bytes.
#[derive(Clone, Copy, Debug)]
pub struct DescriptorShape {
    pub size: u32,
    pub data_type: u8,
}

/// The sizes and types of the data descriptors of an event whose metadata
/// is `metadata_len` bytes long and whose fields state the sizes
/// `field_sizes`: the metadata first, with its length cut to 32 bits and the
/// metadata type, then each field in order with its size and the payload
/// type.
pub fn descriptor_shapes(metadata_len: usize, field_sizes: &[u32]) -> (shapes: Vec<DescriptorShape>)
    ensures
        shapes@.len() == field_sizes@.len() + 1,
        shapes@[0].size == (metadata_len as u32),
        shapes@[0].data_type == DATA_TYPE_EVENT_METADATA,
        forall|i: int|
            0 <= i < field_sizes@.len() ==> {
                &&& (#[trigger] shapes@[i + 1]).size == field_sizes@[i]
                &&& shapes@[i + 1].data_type == DATA_TYPE_PAYLOAD
            },
{
    let mut shapes: Vec<DescriptorShape> = Vec::new();
    shapes.push(DescriptorShape { size: metadata_len as u32, data_type: DATA_TYPE_EVENT_METADATA });
    let mut k: usize = 0;
    while k < field_sizes.len()
        invariant
            k <= field_sizes@.len(),
            shapes@.len() == k + 1,
            shapes@[0].size == (metadata_len as u32),
            shapes@[0].data_type == DATA_TYPE_EVENT_METADATA,
            forall|i: int|
                0 <= i < k ==> {
                    &&& (#[trigger] shapes@[i + 1]).size == field_sizes@[i]
                    &&& shapes@[i + 1].data_type == DATA_TYPE_PAYLOAD
                },
        decreases field_sizes@.len() - k,
    {
        shapes.push(DescriptorShape { size: field_sizes[k], data_type: DATA_TYPE_PAYLOAD });
        k = k + 1;
    }
    shapes
}

/// The metadata of every event names each field with the in-type code of
/// the kind of its value, numbered as the provider API numbers the kinds
/// (`ANSISTRING` 2 up to `U64` 10): the entry of field `i` is its name, a
/// NUL, then that code, and it is the entry that `FieldMetaData::for_field`
/// makes for that name and value.
pub proof fn lemma_event_entries_carry_kind_codes(
    e: Event,
    opcode: Opcode,
    event_name: Seq<u8>,
    names: Seq<Vec<u8>>,
    values: Seq<FieldType>,
)
    requires
        is_event(e, opcode, event_name, names, values),
    ensures
        e.data@[0].data@ == spec_event_metadata(
            event_name,
            Seq::new(
                names.len(),
                |i: int| names[i]@.push(0u8).push(values[i].kind().spec_code()),
            ),
        ),
        forall|i: int, m: FieldMetaData<Vec<u8>>|
            0 <= i < names.len() && m.name@ == names[i]@.push(0u8) && m.field_type
                == values[i].event_type() ==> #[trigger] m.spec_bytes() == field_entry(
                names[i]@,
                #[trigger] values[i],
            ),
{
    let a = Seq::new(names.len(), |i: int| field_entry(names[i]@, values[i]));
    let b = Seq::new(
        names.len(),
        |i: int| names[i]@.push(0u8).push(values[i].kind().spec_code()),
    );
    assert forall|i: int| 0 <= i < names.len() implies a[i] == b[i] by {
        crate::internal::lemma_event_type_is_kind_code(values[i]);
    }
    assert(a =~= b);
}

} // verus!
