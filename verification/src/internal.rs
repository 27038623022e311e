use vstd::prelude::*;

verus! {

/// The little-endian bytes of the low `n` bytes of `x`.
pub open spec fn le_bytes(x: nat, n: nat) -> Seq<u8>
    decreases n,
{
    if n == 0 {
        seq![]
    } else {
        seq![(x % 256) as u8] + le_bytes(x / 256, (n - 1) as nat)
    }
}

/// The little-endian encoding in `n` bytes is `n` bytes long.
pub proof fn lemma_le_bytes_len(x: nat, n: nat)
    ensures
        le_bytes(x, n).len() == n,
    decreases n,
{
    if n > 0 {
        lemma_le_bytes_len(x / 256, (n - 1) as nat);
    }
}

/// Appends the bytes of `src` to `out`.
pub fn push_all(out: &mut Vec<u8>, src: &[u8])
    ensures
        final(out)@ == old(out)@ + src@,
{
    let mut i: usize = 0;
    while i < src.len()
        invariant
            i <= src@.len(),
            out@ == old(out)@ + src@.take(i as int),
        decreases src@.len() - i,
    {
        out.push(src[i]);
        i = i + 1;
        assert(out@ =~= old(out)@ + src@.take(i as int));
    }
    assert(src@.take(i as int) =~= src@);
}

/// The `n` least significant bytes of `x`, least significant first.
pub fn le_bytes_of(x: u64, n: usize) -> (out: Vec<u8>)
    requires
        n <= 8,
    ensures
        out@ == le_bytes(x as nat, n as nat),
{
    let mut out: Vec<u8> = Vec::new();
    let mut v: u64 = x;
    let mut i: usize = 0;
    while i < n
        invariant
            i <= n,
            out@ + le_bytes(v as nat, (n - i) as nat) == le_bytes(x as nat, n as nat),
        decreases n - i,
    {
        let b: u8 = (v % 256) as u8;
        proof {
            let rest = le_bytes((v / 256) as nat, (n - i - 1) as nat);
            assert(le_bytes(v as nat, (n - i) as nat) == seq![b] + rest);
            assert(out@.push(b) + rest =~= out@ + (seq![b] + rest));
        }
        out.push(b);
        v = v / 256;
        i = i + 1;
    }
    assert(out@ + le_bytes(v as nat, 0) =~= out@);
    out
}

/// A field name stored next to the one-byte TraceLogging type of the field,
/// as laid out, packed, in the event metadata.
pub struct FieldMetaData<T> {
    pub name: T,
    pub field_type: u8,
}

/// Whether `s` is exactly one NUL-terminated string: it ends in a NUL and
/// holds no NUL before it.
pub open spec fn is_c_string(s: Seq<u8>) -> bool {
    &&& s.len() >= 1
    &&& s.last() == 0u8
    &&& forall|i: int| 0 <= i < s.len() - 1 ==> s[i] != 0u8
}

/// The value of an event field, as carried in an event's payload.
#[derive(Debug)]
pub enum FieldType {
    /// A NUL-terminated byte string; the vector holds the terminating NUL.
    ANSISTRING(Vec<u8>),
    I8(i8),
    U8(u8),
    I16(i16),
    U16(u16),
    I32(i32),
    U32(u32),
    I64(i64),
    U64(u64),
}

impl FieldType {
    /// The bytes of the payload of this value, in the order in which they
    /// lie in memory on a little-endian machine.
    pub open spec fn payload(&self) -> Seq<u8> {
        match self {
            FieldType::ANSISTRING(v) => v@,
            FieldType::I8(x) => le_bytes((*x as u8) as nat, 1),
            FieldType::U8(x) => le_bytes(*x as nat, 1),
            FieldType::I16(x) => le_bytes((*x as u16) as nat, 2),
            FieldType::U16(x) => le_bytes(*x as nat, 2),
            FieldType::I32(x) => le_bytes((*x as u32) as nat, 4),
            FieldType::U32(x) => le_bytes(*x as nat, 4),
            FieldType::I64(x) => le_bytes((*x as u64) as nat, 8),
            FieldType::U64(x) => le_bytes(*x as nat, 8),
        }
    }

    /// The size of the payload: the length of the string with its NUL, or the
    /// width of the integer type.
    pub open spec fn payload_len(&self) -> nat {
        match self {
            FieldType::ANSISTRING(v) => v@.len(),
            FieldType::I8(_) => 1,
            FieldType::U8(_) => 1,
            FieldType::I16(_) => 2,
            FieldType::U16(_) => 2,
            FieldType::I32(_) => 4,
            FieldType::U32(_) => 4,
            FieldType::I64(_) => 8,
            FieldType::U64(_) => 8,
        }
    }

    /// The TraceLogging in-type code of this value.
    pub open spec fn event_type(&self) -> u8 {
        match self {
            FieldType::ANSISTRING(_) => 2,
            FieldType::I8(_) => 3,
            FieldType::U8(_) => 4,
            FieldType::I16(_) => 5,
            FieldType::U16(_) => 6,
            FieldType::I32(_) => 7,
            FieldType::U32(_) => 8,
            FieldType::I64(_) => 9,
            FieldType::U64(_) => 10,
        }
    }

    /// The value of an integer field as the unsigned number of the same
    /// width with the same bits; 0 for a string.
    pub open spec fn bits(&self) -> nat {
        match self {
            FieldType::ANSISTRING(_) => 0,
            FieldType::I8(x) => (*x as u8) as nat,
            FieldType::U8(x) => *x as nat,
            FieldType::I16(x) => (*x as u16) as nat,
            FieldType::U16(x) => *x as nat,
            FieldType::I32(x) => (*x as u32) as nat,
            FieldType::U32(x) => *x as nat,
            FieldType::I64(x) => (*x as u64) as nat,
            FieldType::U64(x) => *x as nat,
        }
    }

    /// The kind of this value among the field kinds of the provider API.
    pub open spec fn kind(&self) -> crate::trace_logging::FieldType {
        match self {
            FieldType::ANSISTRING(_) => crate::trace_logging::FieldType::ANSISTRING,
            FieldType::I8(_) => crate::trace_logging::FieldType::I8,
            FieldType::U8(_) => crate::trace_logging::FieldType::U8,
            FieldType::I16(_) => crate::trace_logging::FieldType::I6,
            FieldType::U16(_) => crate::trace_logging::FieldType::U16,
            FieldType::I32(_) => crate::trace_logging::FieldType::I32,
            FieldType::U32(_) => crate::trace_logging::FieldType::U32,
            FieldType::I64(_) => crate::trace_logging::FieldType::I64,
            FieldType::U64(_) => crate::trace_logging::FieldType::U64,
        }
    }

    /// The size that an event data descriptor records for this value: the
    /// payload length, cut to 32 bits.
    pub fn size_of(&self) -> (n: u32)
        ensures
            n == (self.payload_len() as u32),
    {
        broadcast use vstd::layout::layout_of_primitives;

        let size: usize = match self {
            FieldType::ANSISTRING(cstr) => cstr.len(),
            FieldType::I8(_) => std::mem::size_of::<i8>(),
            FieldType::U8(_) => std::mem::size_of::<u8>(),
            FieldType::I16(_) => std::mem::size_of::<i16>(),
            FieldType::U16(_) => std::mem::size_of::<u16>(),
            FieldType::I32(_) => std::mem::size_of::<i32>(),
            FieldType::U32(_) => std::mem::size_of::<u32>(),
            FieldType::I64(_) => std::mem::size_of::<i64>(),
            FieldType::U64(_) => std::mem::size_of::<u64>(),
        };
        size as u32
    }

    /// The bytes that an event data descriptor for this value points at.
    pub fn as_ptr(&self) -> (bytes: Vec<u8>)
        ensures
            bytes@ == self.payload(),
    {
        match self {
            FieldType::ANSISTRING(cstr) => cstr.clone(),
            FieldType::I8(u) => le_bytes_of((*u as u8) as u64, 1),
            FieldType::U8(u) => le_bytes_of(*u as u64, 1),
            FieldType::I16(u) => le_bytes_of((*u as u16) as u64, 2),
            FieldType::U16(u) => le_bytes_of(*u as u64, 2),
            FieldType::I32(u) => le_bytes_of((*u as u32) as u64, 4),
            FieldType::U32(u) => le_bytes_of(*u as u64, 4),
            FieldType::I64(u) => le_bytes_of(*u as u64, 8),
            FieldType::U64(u) => le_bytes_of(*u, 8),
        }
    }

    /// The TraceLogging in-type code of this value, 2 for a string and 3 to
    /// 10 for the integer kinds in declaration order.
    pub fn as_event_type(&self) -> (t: u8)
        ensures
            t == self.event_type(),
    {
        match self {
            FieldType::ANSISTRING(_) => 2,
            FieldType::I8(_) => 3,
            FieldType::U8(_) => 4,
            FieldType::I16(_) => 5,
            FieldType::U16(_) => 6,
            FieldType::I32(_) => 7,
            FieldType::U32(_) => 8,
            FieldType::I64(_) => 9,
            FieldType::U64(_) => 10,
        }
    }

    /// An ANSI string value: the bytes of `value` followed by a NUL. The
    /// bytes hold no NUL of their own, so the payload is exactly one
    /// NUL-terminated string.
    pub fn ansi_string(value: &[u8]) -> (f: FieldType)
        requires
            !value@.contains(0u8),
        ensures
            f is ANSISTRING,
            f.payload() == value@.push(0u8),
            is_c_string(f.payload()),
    {
        let mut bytes: Vec<u8> = Vec::new();
        push_all(&mut bytes, value);
        bytes.push(0u8);
        let f = FieldType::ANSISTRING(bytes);
        assert forall|i: int| 0 <= i < f.payload().len() - 1 implies f.payload()[i] != 0u8 by {
            assert(f.payload()[i] == value@[i]);
            if value@[i] == 0u8 {
                assert(value@.contains(0u8));
            }
        }
        f
    }
}

impl From<i8> for FieldType {
    fn from(value: i8) -> (f: Self)
        ensures
            f matches FieldType::I8(x) && x == value,
            f.payload_len() == 1,
            le_value(f.payload()) == (value as u8) as nat,
    {
        proof {
            lemma_integer_payload_reads_back(FieldType::I8(value));
        }
        FieldType::I8(value)
    }
}

impl vstd::std_specs::convert::FromSpecImpl<i8> for FieldType {
    open spec fn obeys_from_spec() -> bool {
        true
    }

    open spec fn from_spec(value: i8) -> Self {
        FieldType::I8(value)
    }
}

impl From<u8> for FieldType {
    fn from(value: u8) -> (f: Self)
        ensures
            f matches FieldType::U8(x) && x == value,
            f.payload_len() == 1,
            le_value(f.payload()) == (value as u8) as nat,
    {
        proof {
            lemma_integer_payload_reads_back(FieldType::U8(value));
        }
        FieldType::U8(value)
    }
}

impl vstd::std_specs::convert::FromSpecImpl<u8> for FieldType {
    open spec fn obeys_from_spec() -> bool {
        true
    }

    open spec fn from_spec(value: u8) -> Self {
        FieldType::U8(value)
    }
}

impl From<i16> for FieldType {
    fn from(value: i16) -> (f: Self)
        ensures
            f matches FieldType::I16(x) && x == value,
            f.payload_len() == 2,
            le_value(f.payload()) == (value as u16) as nat,
    {
        proof {
            lemma_integer_payload_reads_back(FieldType::I16(value));
        }
        FieldType::I16(value)
    }
}

impl vstd::std_specs::convert::FromSpecImpl<i16> for FieldType {
    open spec fn obeys_from_spec() -> bool {
        true
    }

    open spec fn from_spec(value: i16) -> Self {
        FieldType::I16(value)
    }
}

impl From<u16> for FieldType {
    fn from(value: u16) -> (f: Self)
        ensures
            f matches FieldType::U16(x) && x == value,
            f.payload_len() == 2,
            le_value(f.payload()) == (value as u16) as nat,
    {
        proof {
            lemma_integer_payload_reads_back(FieldType::U16(value));
        }
        FieldType::U16(value)
    }
}

impl vstd::std_specs::convert::FromSpecImpl<u16> for FieldType {
    open spec fn obeys_from_spec() -> bool {
        true
    }

    open spec fn from_spec(value: u16) -> Self {
        FieldType::U16(value)
    }
}

impl From<i32> for FieldType {
    fn from(value: i32) -> (f: Self)
        ensures
            f matches FieldType::I32(x) && x == value,
            f.payload_len() == 4,
            le_value(f.payload()) == (value as u32) as nat,
    {
        proof {
            lemma_integer_payload_reads_back(FieldType::I32(value));
        }
        FieldType::I32(value)
    }
}

impl vstd::std_specs::convert::FromSpecImpl<i32> for FieldType {
    open spec fn obeys_from_spec() -> bool {
        true
    }

    open spec fn from_spec(value: i32) -> Self {
        FieldType::I32(value)
    }
}

impl From<u32> for FieldType {
    fn from(value: u32) -> (f: Self)
        ensures
            f matches FieldType::U32(x) && x == value,
            f.payload_len() == 4,
            le_value(f.payload()) == (value as u32) as nat,
    {
        proof {
            lemma_integer_payload_reads_back(FieldType::U32(value));
        }
        FieldType::U32(value)
    }
}

impl vstd::std_specs::convert::FromSpecImpl<u32> for FieldType {
    open spec fn obeys_from_spec() -> bool {
        true
    }

    open spec fn from_spec(value: u32) -> Self {
        FieldType::U32(value)
    }
}

impl From<i64> for FieldType {
    fn from(value: i64) -> (f: Self)
        ensures
            f matches FieldType::I64(x) && x == value,
            f.payload_len() == 8,
            le_value(f.payload()) == (value as u64) as nat,
    {
        proof {
            lemma_integer_payload_reads_back(FieldType::I64(value));
        }
        FieldType::I64(value)
    }
}

impl vstd::std_specs::convert::FromSpecImpl<i64> for FieldType {
    open spec fn obeys_from_spec() -> bool {
        true
    }

    open spec fn from_spec(value: i64) -> Self {
        FieldType::I64(value)
    }
}

impl From<u64> for FieldType {
    fn from(value: u64) -> (f: Self)
        ensures
            f matches FieldType::U64(x) && x == value,
            f.payload_len() == 8,
            le_value(f.payload()) == (value as u64) as nat,
    {
        proof {
            lemma_integer_payload_reads_back(FieldType::U64(value));
        }
        FieldType::U64(value)
    }
}

impl vstd::std_specs::convert::FromSpecImpl<u64> for FieldType {
    open spec fn obeys_from_spec() -> bool {
        true
    }

    open spec fn from_spec(value: u64) -> Self {
        FieldType::U64(value)
    }
}

impl FieldMetaData<Vec<u8>> {
    /// The metadata of a field named `name` that holds `value`: the name with
    /// a terminating NUL, and the in-type code of the value.
    pub fn for_field(name: &[u8], value: &FieldType) -> (m: Self)
        ensures
            m.name@ == name@.push(0u8),
            m.field_type == value.event_type(),
    {
        Self::named(name, value.as_event_type())
    }

    /// The metadata of a field named `name` whose in-type code is
    /// `field_type`: the name with a terminating NUL, and that code.
    pub fn named(name: &[u8], field_type: u8) -> (m: Self)
        ensures
            m.name@ == name@.push(0u8),
            m.field_type == field_type,
    {
        let mut bytes: Vec<u8> = Vec::new();
        push_all(&mut bytes, name);
        bytes.push(0u8);
        FieldMetaData { name: bytes, field_type }
    }

    /// The packed bytes of this entry: the name, then the type byte.
    pub open spec fn spec_bytes(&self) -> Seq<u8> {
        self.name@.push(self.field_type)
    }

    /// The packed bytes of this entry, as they stand in the event metadata.
    pub fn to_bytes(&self) -> (bytes: Vec<u8>)
        ensures
            bytes@ == self.spec_bytes(),
    {
        let mut bytes: Vec<u8> = Vec::new();
        push_all(&mut bytes, self.name.as_slice());
        bytes.push(self.field_type);
        bytes
    }
}

/// The payload of every value is as long as the size recorded for it: an
/// event data descriptor never points at fewer or more bytes than it states
/// (up to the 32-bit cut of that size).
pub proof fn lemma_payload_matches_size(f: FieldType)
    ensures
        f.payload().len() == f.payload_len(),
        f.payload_len() < 0x1_0000_0000 ==> f.payload_len() == (f.payload_len() as u32),
{
    match f {
        FieldType::ANSISTRING(_) => {},
        FieldType::I8(x) => lemma_le_bytes_len((x as u8) as nat, 1),
        FieldType::U8(x) => lemma_le_bytes_len(x as nat, 1),
        FieldType::I16(x) => lemma_le_bytes_len((x as u16) as nat, 2),
        FieldType::U16(x) => lemma_le_bytes_len(x as nat, 2),
        FieldType::I32(x) => lemma_le_bytes_len((x as u32) as nat, 4),
        FieldType::U32(x) => lemma_le_bytes_len(x as nat, 4),
        FieldType::I64(x) => lemma_le_bytes_len((x as u64) as nat, 8),
        FieldType::U64(x) => lemma_le_bytes_len(x as nat, 8),
    }
}

/// The in-type code that a value reports is the code of its kind: the
/// metadata written from a value and the metadata written from the kind
/// named for it hold the same type byte.
pub proof fn lemma_event_type_is_kind_code(f: FieldType)
    ensures
        f.event_type() == f.kind().spec_code(),
{
}

/// Reading back the `n` little-endian bytes of a number below `256^n` gives
/// the number.
pub proof fn lemma_le_bytes_roundtrip(x: nat, n: nat)
    requires
        x < pow256(n),
    ensures
        le_value(le_bytes(x, n)) == x,
    decreases n,
{
    if n > 0 {
        lemma_le_bytes_roundtrip(x / 256, (n - 1) as nat);
        assert(le_bytes(x, n).drop_first() =~= le_bytes(x / 256, (n - 1) as nat));
    }
}

/// The payload of an integer field is the value in two's complement,
/// least significant byte first: read back little-endian it gives the bits
/// of the value.
pub proof fn lemma_integer_payload_reads_back(f: FieldType)
    requires
        !(f is ANSISTRING),
    ensures
        le_value(f.payload()) == f.bits(),
{
    assert(pow256(1) == 0x100 && pow256(2) == 0x1_0000 && pow256(4) == 0x1_0000_0000 && pow256(8)
        == 0x1_0000_0000_0000_0000) by {
        reveal_with_fuel(pow256, 9);
    }
    match f {
        FieldType::ANSISTRING(_) => {},
        FieldType::I8(x) => lemma_le_bytes_roundtrip((x as u8) as nat, 1),
        FieldType::U8(x) => lemma_le_bytes_roundtrip(x as nat, 1),
        FieldType::I16(x) => lemma_le_bytes_roundtrip((x as u16) as nat, 2),
        FieldType::U16(x) => lemma_le_bytes_roundtrip(x as nat, 2),
        FieldType::I32(x) => lemma_le_bytes_roundtrip((x as u32) as nat, 4),
        FieldType::U32(x) => lemma_le_bytes_roundtrip(x as nat, 4),
        FieldType::I64(x) => lemma_le_bytes_roundtrip((x as u64) as nat, 8),
        FieldType::U64(x) => lemma_le_bytes_roundtrip(x as nat, 8),
    }
}

/// Converting an integer into a field keeps its value: the field is the
/// variant of the integer's own type holding that very integer, its payload
/// is as wide as the type, and the payload read back little-endian gives
/// the integer's bits.
pub proof fn lemma_conversion_keeps_value(a: i8, b: u8, c: i16, d: u16, e: i32, f: u32, g: i64, h: u64)
    ensures
        <FieldType as vstd::std_specs::convert::FromSpec<i8>>::from_spec(a) matches FieldType::I8(x) && x == a,
        le_value(<FieldType as vstd::std_specs::convert::FromSpec<i8>>::from_spec(a).payload()) == (a as u8) as nat,
        <FieldType as vstd::std_specs::convert::FromSpec<u8>>::from_spec(b) matches FieldType::U8(x) && x == b,
        le_value(<FieldType as vstd::std_specs::convert::FromSpec<u8>>::from_spec(b).payload()) == (b as u8) as nat,
        <FieldType as vstd::std_specs::convert::FromSpec<i16>>::from_spec(c) matches FieldType::I16(x) && x == c,
        le_value(<FieldType as vstd::std_specs::convert::FromSpec<i16>>::from_spec(c).payload()) == (c as u16) as nat,
        <FieldType as vstd::std_specs::convert::FromSpec<u16>>::from_spec(d) matches FieldType::U16(x) && x == d,
        le_value(<FieldType as vstd::std_specs::convert::FromSpec<u16>>::from_spec(d).payload()) == (d as u16) as nat,
        <FieldType as vstd::std_specs::convert::FromSpec<i32>>::from_spec(e) matches FieldType::I32(x) && x == e,
        le_value(<FieldType as vstd::std_specs::convert::FromSpec<i32>>::from_spec(e).payload()) == (e as u32) as nat,
        <FieldType as vstd::std_specs::convert::FromSpec<u32>>::from_spec(f) matches FieldType::U32(x) && x == f,
        le_value(<FieldType as vstd::std_specs::convert::FromSpec<u32>>::from_spec(f).payload()) == (f as u32) as nat,
        <FieldType as vstd::std_specs::convert::FromSpec<i64>>::from_spec(g) matches FieldType::I64(x) && x == g,
        le_value(<FieldType as vstd::std_specs::convert::FromSpec<i64>>::from_spec(g).payload()) == (g as u64) as nat,
        <FieldType as vstd::std_specs::convert::FromSpec<u64>>::from_spec(h) matches FieldType::U64(x) && x == h,
        le_value(<FieldType as vstd::std_specs::convert::FromSpec<u64>>::from_spec(h).payload()) == (h as u64) as nat,
{
    lemma_integer_payload_reads_back(FieldType::I8(a));
    lemma_integer_payload_reads_back(FieldType::U8(b));
    lemma_integer_payload_reads_back(FieldType::I16(c));
    lemma_integer_payload_reads_back(FieldType::U16(d));
    lemma_integer_payload_reads_back(FieldType::I32(e));
    lemma_integer_payload_reads_back(FieldType::U32(f));
    lemma_integer_payload_reads_back(FieldType::I64(g));
    lemma_integer_payload_reads_back(FieldType::U64(h));
}

/// 256 to the power `n`.
pub open spec fn pow256(n: nat) -> nat
    decreases n,
{
    if n == 0 {
        1
    } else {
        256 * pow256((n - 1) as nat)
    }
}

/// The number that a sequence of bytes denotes, least significant first.
pub open spec fn le_value(s: Seq<u8>) -> nat
    decreases s.len(),
{
    if s.len() == 0 {
        0
    } else {
        s[0] as nat + 256 * le_value(s.drop_first())
    }
}

} // verus!
