use vstd::prelude::*;

verus! {

/// The type tag of a node of a parsed JSON document.
#[derive(Clone, Copy, Debug, PartialEq, Eq, Structural)]
pub enum NodeKind {
    Null,
    Bool,
    Int64,
    UInt64,
    Double,
    String,
    Array,
    Object,
}

/// The kind of node that a request reads.
#[derive(Clone, Copy, Debug, PartialEq, Eq, Structural)]
pub enum Expected {
    Null,
    Bool,
    Integer,
    Double,
    String,
    Array,
    Object,
    /// A string, or an object with one key: the two encodings of an enum.
    Enum,
}

/// The width of an integer target.
#[derive(Clone, Copy, Debug, PartialEq, Eq, Structural)]
pub enum IntWidth {
    I8,
    I16,
    I32,
    I64,
    U8,
    U16,
    U32,
    U64,
}

/// Why a node cannot stand for an enum value.
#[derive(Clone, Copy, Debug, PartialEq, Eq, Structural)]
pub enum EnumShapeError {
    /// An object whose number of keys is not one.
    NotSingleKey,
    /// A node that is neither a string nor an object.
    NotStringOrObject,
    /// A unit variant written as the key of an object.
    UnitVariantAsObjectKey,
    /// A variant that carries data, written as a bare string.
    MissingPayload,
}

/// Everything that can go wrong in a conversion.
#[derive(Clone, Copy, Debug, PartialEq, Eq, Structural)]
pub enum Error {
    /// The node is not of the kind that the request reads.
    TypeMismatch { expected: Expected, actual: NodeKind },
    /// An integer that does not fit the target width.
    NumericOverflow { value: i128, target: IntWidth },
    /// A string that is not exactly one character, read as a character.
    InvalidCharacter,
    /// A node that cannot stand for an enum value.
    InvalidEnumShape(EnumShapeError),
    /// A map value requested before its key.
    ValueBeforeKey,
    /// A NaN or an infinity (given by its IEEE-754 bits).
    NonFiniteNumber { bits: u64 },
    /// Nesting deeper than the converter allows.
    DepthExceeded,
    /// An array whose length is not that of the tuple read from it.
    InvalidLength { wanted: usize, found: usize },
    /// A variant name that the enum does not declare.
    UnknownVariant,
    /// A struct field (by its position among the declared fields) absent from the object.
    MissingField { index: usize },
    /// A document tape that does not follow the tape format.
    InvalidTape,
}

impl IntWidth {
    /// The least value of the width.
    pub open spec fn min_value(self) -> int {
        match self {
            IntWidth::I8 => i8::MIN as int,
            IntWidth::I16 => i16::MIN as int,
            IntWidth::I32 => i32::MIN as int,
            IntWidth::I64 => i64::MIN as int,
            _ => 0,
        }
    }

    /// The greatest value of the width.
    pub open spec fn max_value(self) -> int {
        match self {
            IntWidth::I8 => i8::MAX as int,
            IntWidth::I16 => i16::MAX as int,
            IntWidth::I32 => i32::MAX as int,
            IntWidth::I64 => i64::MAX as int,
            IntWidth::U8 => u8::MAX as int,
            IntWidth::U16 => u16::MAX as int,
            IntWidth::U32 => u32::MAX as int,
            IntWidth::U64 => u64::MAX as int,
        }
    }

    pub open spec fn holds(self, v: int) -> bool {
        self.min_value() <= v <= self.max_value()
    }

    pub open spec fn is_signed(self) -> bool {
        match self {
            IntWidth::I8 | IntWidth::I16 | IntWidth::I32 | IntWidth::I64 => true,
            _ => false,
        }
    }

    /// Whether `v` fits the width: a checked narrowing, never wrapping or saturating.
    pub fn fits(self, v: i128) -> (r: bool)
        ensures
            r == self.holds(v as int),
    {
        match self {
            IntWidth::I8 => -128 <= v && v <= 127,
            IntWidth::I16 => -32768 <= v && v <= 32767,
            IntWidth::I32 => -2147483648 <= v && v <= 2147483647,
            IntWidth::I64 => -9223372036854775808 <= v && v <= 9223372036854775807,
            IntWidth::U8 => 0 <= v && v <= 255,
            IntWidth::U16 => 0 <= v && v <= 65535,
            IntWidth::U32 => 0 <= v && v <= 4294967295,
            IntWidth::U64 => 0 <= v && v <= 18446744073709551615,
        }
    }

    pub fn is_signed_width(self) -> (r: bool)
        ensures
            r == self.is_signed(),
    {
        match self {
            IntWidth::I8 | IntWidth::I16 | IntWidth::I32 | IntWidth::I64 => true,
            _ => false,
        }
    }
}

} // verus!
