use vstd::prelude::*;

verus! {

/// The kind of an event field, as stored in the one-byte `in_type` slot of
/// the event metadata.
///
/// The variant names follow the provider's public API (`I6` stands for the
/// signed 16-bit kind).
#[derive(Clone, Copy, Debug, PartialEq, Eq)]
pub enum FieldType {
    ANSISTRING,
    I8,
    U8,
    I6,
    U16,
    I32,
    U32,
    I64,
    U64,
}

impl FieldType {
    /// The TraceLogging in-type code of this kind: `ANSISTRING` is 2 and each
    /// following variant is one more, up to `U64` at 10.
    pub open spec fn spec_code(self) -> u8 {
        match self {
            FieldType::ANSISTRING => 2,
            FieldType::I8 => 3,
            FieldType::U8 => 4,
            FieldType::I6 => 5,
            FieldType::U16 => 6,
            FieldType::I32 => 7,
            FieldType::U32 => 8,
            FieldType::I64 => 9,
            FieldType::U64 => 10,
        }
    }

    /// The byte that a value of this kind occupies in the event metadata.
    pub fn code(&self) -> (c: u8)
        ensures
            c == self.spec_code(),
    {
        match self {
            FieldType::ANSISTRING => 2,
            FieldType::I8 => 3,
            FieldType::U8 => 4,
            FieldType::I6 => 5,
            FieldType::U16 => 6,
            FieldType::I32 => 7,
            FieldType::U32 => 8,
            FieldType::I64 => 9,
            FieldType::U64 => 10,
        }
    }
}

/// The size in bytes of the type of the argument, cut to 32 bits as an event
/// data descriptor stores it.
pub fn size_of<T>(_s: T) -> (n: u32)
    ensures
        n == (vstd::layout::size_of::<T>() as u32),
{
    std::mem::size_of::<T>() as u32
}

} // verus!
