//! Decoded records: the typed fields that a record line carries.

use crate::decimal::{parse_decimal, Decimal, DecimalError, DecimalModel};
use crate::number::{append_decimal, decimal_text, parse_integer, read_integer, NumberError};
use crate::text::{
    after_last, after_last_in, append_str, before, chars_of, find_either, find_either_in, find_in,
    find_pair, find_pair_in, slice_of, split, split_text, string_of, text_is, views,
};
use vstd::prelude::*;

verus! {

/// The scalar types of the record language. The `X` kinds are unsigned
/// integers written in hexadecimal, the `F` kinds are decimal fractions.
#[derive(Clone, Copy, Debug, PartialEq, Eq, Structural)]
pub enum ScalarKind {
    X8,
    X16,
    X32,
    X64,
    U8,
    U16,
    U32,
    U64,
    I8,
    I16,
    I32,
    I64,
    F32,
    F64,
}

impl ScalarKind {
    /// Whether values of the kind are decimal fractions.
    pub open spec fn is_fraction(self) -> bool {
        self == ScalarKind::F32 || self == ScalarKind::F64
    }

    /// Whether values of the kind are read and written in hexadecimal.
    pub open spec fn is_hex(self) -> bool {
        self == ScalarKind::X8 || self == ScalarKind::X16 || self == ScalarKind::X32 || self
            == ScalarKind::X64
    }

    /// The least integer of the kind; zero for the fractions.
    pub open spec fn lower(self) -> int {
        match self {
            ScalarKind::I8 => -0x80,
            ScalarKind::I16 => -0x8000,
            ScalarKind::I32 => -0x8000_0000,
            ScalarKind::I64 => -0x8000_0000_0000_0000,
            _ => 0,
        }
    }

    /// The greatest integer of the kind; zero for the fractions.
    pub open spec fn upper(self) -> int {
        match self {
            ScalarKind::X8 | ScalarKind::U8 => 0xff,
            ScalarKind::X16 | ScalarKind::U16 => 0xffff,
            ScalarKind::X32 | ScalarKind::U32 => 0xffff_ffff,
            ScalarKind::X64 | ScalarKind::U64 => 0xffff_ffff_ffff_ffff,
            ScalarKind::I8 => 0x7f,
            ScalarKind::I16 => 0x7fff,
            ScalarKind::I32 => 0x7fff_ffff,
            ScalarKind::I64 => 0x7fff_ffff_ffff_ffff,
            _ => 0,
        }
    }

    /// The kind that a type tag names.
    pub open spec fn of_tag(tag: Seq<char>) -> Option<ScalarKind> {
        if tag == "x8"@ {
            Some(ScalarKind::X8)
        } else if tag == "x16"@ {
            Some(ScalarKind::X16)
        } else if tag == "x32"@ {
            Some(ScalarKind::X32)
        } else if tag == "x64"@ {
            Some(ScalarKind::X64)
        } else if tag == "u8"@ {
            Some(ScalarKind::U8)
        } else if tag == "u16"@ {
            Some(ScalarKind::U16)
        } else if tag == "u32"@ {
            Some(ScalarKind::U32)
        } else if tag == "u64"@ {
            Some(ScalarKind::U64)
        } else if tag == "i8"@ {
            Some(ScalarKind::I8)
        } else if tag == "i16"@ {
            Some(ScalarKind::I16)
        } else if tag == "i32"@ {
            Some(ScalarKind::I32)
        } else if tag == "i64"@ {
            Some(ScalarKind::I64)
        } else if tag == "f32"@ {
            Some(ScalarKind::F32)
        } else if tag == "f64"@ {
            Some(ScalarKind::F64)
        } else {
            None
        }
    }

    /// Whether values of the kind are decimal fractions.
    pub fn fraction(self) -> (r: bool)
        ensures
            r == self.is_fraction(),
    {
        match self {
            ScalarKind::F32 | ScalarKind::F64 => true,
            _ => false,
        }
    }

    /// Whether values of the kind are read and written in hexadecimal.
    pub fn hex(self) -> (r: bool)
        ensures
            r == self.is_hex(),
    {
        match self {
            ScalarKind::X8 | ScalarKind::X16 | ScalarKind::X32 | ScalarKind::X64 => true,
            _ => false,
        }
    }

    /// The least and the greatest integer of the kind.
    pub fn bounds(self) -> (r: (i128, i128))
        ensures
            r.0 == self.lower(),
            r.1 == self.upper(),
    {
        match self {
            ScalarKind::X8 => (0, 0xff),
            ScalarKind::X16 => (0, 0xffff),
            ScalarKind::X32 => (0, 0xffff_ffff),
            ScalarKind::X64 => (0, 0xffff_ffff_ffff_ffff),
            ScalarKind::U8 => (0, 0xff),
            ScalarKind::U16 => (0, 0xffff),
            ScalarKind::U32 => (0, 0xffff_ffff),
            ScalarKind::U64 => (0, 0xffff_ffff_ffff_ffff),
            ScalarKind::I8 => (-0x80, 0x7f),
            ScalarKind::I16 => (-0x8000, 0x7fff),
            ScalarKind::I32 => (-0x8000_0000, 0x7fff_ffff),
            ScalarKind::I64 => (-0x8000_0000_0000_0000, 0x7fff_ffff_ffff_ffff),
            _ => (0, 0),
        }
    }

    /// Reads a type tag.
    pub fn from_tag(tag: &Vec<char>) -> (r: Option<ScalarKind>)
        ensures
            r == ScalarKind::of_tag(tag@),
    {
        if text_is(tag, "x8") {
            Some(ScalarKind::X8)
        } else if text_is(tag, "x16") {
            Some(ScalarKind::X16)
        } else if text_is(tag, "x32") {
            Some(ScalarKind::X32)
        } else if text_is(tag, "x64") {
            Some(ScalarKind::X64)
        } else if text_is(tag, "u8") {
            Some(ScalarKind::U8)
        } else if text_is(tag, "u16") {
            Some(ScalarKind::U16)
        } else if text_is(tag, "u32") {
            Some(ScalarKind::U32)
        } else if text_is(tag, "u64") {
            Some(ScalarKind::U64)
        } else if text_is(tag, "i8") {
            Some(ScalarKind::I8)
        } else if text_is(tag, "i16") {
            Some(ScalarKind::I16)
        } else if text_is(tag, "i32") {
            Some(ScalarKind::I32)
        } else if text_is(tag, "i64") {
            Some(ScalarKind::I64)
        } else if text_is(tag, "f32") {
            Some(ScalarKind::F32)
        } else if text_is(tag, "f64") {
            Some(ScalarKind::F64)
        } else {
            None
        }
    }
}

/// The type of a field.
#[derive(Debug, PartialEq)]
pub enum MemberType {
    X8,
    X16,
    X32,
    X64,
    U8,
    U16,
    U32,
    U64,
    I8,
    I16,
    I32,
    I64,
    F32,
    F64,
    ArrayOfX8,
    ArrayOfX16,
    ArrayOfX32,
    ArrayOfX64,
    ArrayOfU8,
    ArrayOfU16,
    ArrayOfU32,
    ArrayOfU64,
    ArrayOfI8,
    ArrayOfI16,
    ArrayOfI32,
    ArrayOfI64,
    ArrayOfF32,
    ArrayOfF64,
    Bool,
    Identifier(String),
}

/// What a `MemberType` stands for.
pub ghost enum TypeModel {
    Scalar(ScalarKind),
    Array(ScalarKind),
    Truth,
    Identifier(Seq<char>),
}

impl View for MemberType {
    type V = TypeModel;

    open spec fn view(&self) -> TypeModel {
        match self {
            MemberType::X8 => TypeModel::Scalar(ScalarKind::X8),
            MemberType::X16 => TypeModel::Scalar(ScalarKind::X16),
            MemberType::X32 => TypeModel::Scalar(ScalarKind::X32),
            MemberType::X64 => TypeModel::Scalar(ScalarKind::X64),
            MemberType::U8 => TypeModel::Scalar(ScalarKind::U8),
            MemberType::U16 => TypeModel::Scalar(ScalarKind::U16),
            MemberType::U32 => TypeModel::Scalar(ScalarKind::U32),
            MemberType::U64 => TypeModel::Scalar(ScalarKind::U64),
            MemberType::I8 => TypeModel::Scalar(ScalarKind::I8),
            MemberType::I16 => TypeModel::Scalar(ScalarKind::I16),
            MemberType::I32 => TypeModel::Scalar(ScalarKind::I32),
            MemberType::I64 => TypeModel::Scalar(ScalarKind::I64),
            MemberType::F32 => TypeModel::Scalar(ScalarKind::F32),
            MemberType::F64 => TypeModel::Scalar(ScalarKind::F64),
            MemberType::ArrayOfX8 => TypeModel::Array(ScalarKind::X8),
            MemberType::ArrayOfX16 => TypeModel::Array(ScalarKind::X16),
            MemberType::ArrayOfX32 => TypeModel::Array(ScalarKind::X32),
            MemberType::ArrayOfX64 => TypeModel::Array(ScalarKind::X64),
            MemberType::ArrayOfU8 => TypeModel::Array(ScalarKind::U8),
            MemberType::ArrayOfU16 => TypeModel::Array(ScalarKind::U16),
            MemberType::ArrayOfU32 => TypeModel::Array(ScalarKind::U32),
            MemberType::ArrayOfU64 => TypeModel::Array(ScalarKind::U64),
            MemberType::ArrayOfI8 => TypeModel::Array(ScalarKind::I8),
            MemberType::ArrayOfI16 => TypeModel::Array(ScalarKind::I16),
            MemberType::ArrayOfI32 => TypeModel::Array(ScalarKind::I32),
            MemberType::ArrayOfI64 => TypeModel::Array(ScalarKind::I64),
            MemberType::ArrayOfF32 => TypeModel::Array(ScalarKind::F32),
            MemberType::ArrayOfF64 => TypeModel::Array(ScalarKind::F64),
            MemberType::Bool => TypeModel::Truth,
            MemberType::Identifier(enum_type) => TypeModel::Identifier(enum_type@),
        }
    }
}

/// The value of a field, as mathematics sees it.
pub ghost enum ValueModel {
    /// An integer of an integer kind.
    Whole(ScalarKind, int),
    /// A decimal of a fraction kind.
    Fraction(ScalarKind, DecimalModel),
    /// An array of an integer kind.
    Wholes(ScalarKind, Seq<int>),
    /// An array of a fraction kind.
    Fractions(ScalarKind, Seq<DecimalModel>),
    Truth(bool),
    /// A member of an enumeration: the enumeration's name, then the member's.
    Identifier(Seq<char>, Seq<char>),
}

impl ValueModel {
    /// The type of the value.
    pub open spec fn type_of(self) -> TypeModel {
        match self {
            ValueModel::Whole(kind, _) => TypeModel::Scalar(kind),
            ValueModel::Fraction(kind, _) => TypeModel::Scalar(kind),
            ValueModel::Wholes(kind, _) => TypeModel::Array(kind),
            ValueModel::Fractions(kind, _) => TypeModel::Array(kind),
            ValueModel::Truth(_) => TypeModel::Truth,
            ValueModel::Identifier(enum_type, _) => TypeModel::Identifier(enum_type),
        }
    }
}

/// A named, typed field of a record, as mathematics sees it.
pub ghost struct FieldModel {
    pub name: Seq<char>,
    pub value: ValueModel,
}

/// A record, as mathematics sees it.
pub ghost struct RecordModel {
    pub name: Seq<char>,
    pub fields: Seq<FieldModel>,
}

/// A field whose value is a member of an enumeration.
#[derive(Debug, PartialEq)]
pub struct IdentifierRecordArg {
    pub name: String,
    pub enum_type: String,
    pub value: String,
}

impl IdentifierRecordArg {
    /// Takes the field apart: its name, the enumeration, the member.
    pub fn dissassemble(self) -> (r: (String, String, String))
        ensures
            r.0 == self.name,
            r.1 == self.enum_type,
            r.2 == self.value,
    {
        (self.name, self.enum_type, self.value)
    }
}

/// A field with a value of type `T`.
#[derive(Debug, PartialEq)]
pub struct UniRecordArg<T> {
    pub name: String,
    pub value: T,
}

impl<T> UniRecordArg<T> {
    /// Takes the field apart: its name, its value.
    pub fn dissassemble(self) -> (r: (String, T))
        ensures
            r.0 == self.name,
            r.1 == self.value,
    {
        (self.name, self.value)
    }
}

/// Integers as mathematics sees them.
pub open spec fn wholes_u8(s: Seq<u8>) -> Seq<int> {
    s.map_values(|x: u8| x as int)
}

/// Integers as mathematics sees them.
pub open spec fn wholes_u16(s: Seq<u16>) -> Seq<int> {
    s.map_values(|x: u16| x as int)
}

/// Integers as mathematics sees them.
pub open spec fn wholes_u32(s: Seq<u32>) -> Seq<int> {
    s.map_values(|x: u32| x as int)
}

/// Integers as mathematics sees them.
pub open spec fn wholes_u64(s: Seq<u64>) -> Seq<int> {
    s.map_values(|x: u64| x as int)
}

/// Integers as mathematics sees them.
pub open spec fn wholes_i8(s: Seq<i8>) -> Seq<int> {
    s.map_values(|x: i8| x as int)
}

/// Integers as mathematics sees them.
pub open spec fn wholes_i16(s: Seq<i16>) -> Seq<int> {
    s.map_values(|x: i16| x as int)
}

/// Integers as mathematics sees them.
pub open spec fn wholes_i32(s: Seq<i32>) -> Seq<int> {
    s.map_values(|x: i32| x as int)
}

/// Integers as mathematics sees them.
pub open spec fn wholes_i64(s: Seq<i64>) -> Seq<int> {
    s.map_values(|x: i64| x as int)
}

/// Decimals as mathematics sees them.
pub open spec fn fractions(s: Seq<Decimal>) -> Seq<DecimalModel> {
    s.map_values(|d: Decimal| d@)
}

/// A field of a record: its name and its typed value.
#[derive(Debug, PartialEq)]
pub enum UniRecordArgVariant {
    X8(UniRecordArg<u8>),
    X16(UniRecordArg<u16>),
    X32(UniRecordArg<u32>),
    X64(UniRecordArg<u64>),
    U8(UniRecordArg<u8>),
    U16(UniRecordArg<u16>),
    U32(UniRecordArg<u32>),
    U64(UniRecordArg<u64>),
    I8(UniRecordArg<i8>),
    I16(UniRecordArg<i16>),
    I32(UniRecordArg<i32>),
    I64(UniRecordArg<i64>),
    F32(UniRecordArg<Decimal>),
    F64(UniRecordArg<Decimal>),
    ArrayOfX8(UniRecordArg<Vec<u8>>),
    ArrayOfX16(UniRecordArg<Vec<u16>>),
    ArrayOfX32(UniRecordArg<Vec<u32>>),
    ArrayOfX64(UniRecordArg<Vec<u64>>),
    ArrayOfU8(UniRecordArg<Vec<u8>>),
    ArrayOfU16(UniRecordArg<Vec<u16>>),
    ArrayOfU32(UniRecordArg<Vec<u32>>),
    ArrayOfU64(UniRecordArg<Vec<u64>>),
    ArrayOfI8(UniRecordArg<Vec<i8>>),
    ArrayOfI16(UniRecordArg<Vec<i16>>),
    ArrayOfI32(UniRecordArg<Vec<i32>>),
    ArrayOfI64(UniRecordArg<Vec<i64>>),
    ArrayOfF32(UniRecordArg<Vec<Decimal>>),
    ArrayOfF64(UniRecordArg<Vec<Decimal>>),
    Bool(UniRecordArg<bool>),
    Identifier(IdentifierRecordArg),
}

impl View for UniRecordArgVariant {
    type V = FieldModel;

    open spec fn view(&self) -> FieldModel {
        match self {
            UniRecordArgVariant::X8(arg) => FieldModel {
                name: arg.name@,
                value: ValueModel::Whole(ScalarKind::X8, arg.value as int),
            },
            UniRecordArgVariant::X16(arg) => FieldModel {
                name: arg.name@,
                value: ValueModel::Whole(ScalarKind::X16, arg.value as int),
            },
            UniRecordArgVariant::X32(arg) => FieldModel {
                name: arg.name@,
                value: ValueModel::Whole(ScalarKind::X32, arg.value as int),
            },
            UniRecordArgVariant::X64(arg) => FieldModel {
                name: arg.name@,
                value: ValueModel::Whole(ScalarKind::X64, arg.value as int),
            },
            UniRecordArgVariant::U8(arg) => FieldModel {
                name: arg.name@,
                value: ValueModel::Whole(ScalarKind::U8, arg.value as int),
            },
            UniRecordArgVariant::U16(arg) => FieldModel {
                name: arg.name@,
                value: ValueModel::Whole(ScalarKind::U16, arg.value as int),
            },
            UniRecordArgVariant::U32(arg) => FieldModel {
                name: arg.name@,
                value: ValueModel::Whole(ScalarKind::U32, arg.value as int),
            },
            UniRecordArgVariant::U64(arg) => FieldModel {
                name: arg.name@,
                value: ValueModel::Whole(ScalarKind::U64, arg.value as int),
            },
            UniRecordArgVariant::I8(arg) => FieldModel {
                name: arg.name@,
                value: ValueModel::Whole(ScalarKind::I8, arg.value as int),
            },
            UniRecordArgVariant::I16(arg) => FieldModel {
                name: arg.name@,
                value: ValueModel::Whole(ScalarKind::I16, arg.value as int),
            },
            UniRecordArgVariant::I32(arg) => FieldModel {
                name: arg.name@,
                value: ValueModel::Whole(ScalarKind::I32, arg.value as int),
            },
            UniRecordArgVariant::I64(arg) => FieldModel {
                name: arg.name@,
                value: ValueModel::Whole(ScalarKind::I64, arg.value as int),
            },
            UniRecordArgVariant::F32(arg) => FieldModel {
                name: arg.name@,
                value: ValueModel::Fraction(ScalarKind::F32, arg.value@),
            },
            UniRecordArgVariant::F64(arg) => FieldModel {
                name: arg.name@,
                value: ValueModel::Fraction(ScalarKind::F64, arg.value@),
            },
            UniRecordArgVariant::ArrayOfX8(arg) => FieldModel {
                name: arg.name@,
                value: ValueModel::Wholes(ScalarKind::X8, wholes_u8(arg.value@)),
            },
            UniRecordArgVariant::ArrayOfX16(arg) => FieldModel {
                name: arg.name@,
                value: ValueModel::Wholes(ScalarKind::X16, wholes_u16(arg.value@)),
            },
            UniRecordArgVariant::ArrayOfX32(arg) => FieldModel {
                name: arg.name@,
                value: ValueModel::Wholes(ScalarKind::X32, wholes_u32(arg.value@)),
            },
            UniRecordArgVariant::ArrayOfX64(arg) => FieldModel {
                name: arg.name@,
                value: ValueModel::Wholes(ScalarKind::X64, wholes_u64(arg.value@)),
            },
            UniRecordArgVariant::ArrayOfU8(arg) => FieldModel {
                name: arg.name@,
                value: ValueModel::Wholes(ScalarKind::U8, wholes_u8(arg.value@)),
            },
            UniRecordArgVariant::ArrayOfU16(arg) => FieldModel {
                name: arg.name@,
                value: ValueModel::Wholes(ScalarKind::U16, wholes_u16(arg.value@)),
            },
            UniRecordArgVariant::ArrayOfU32(arg) => FieldModel {
                name: arg.name@,
                value: ValueModel::Wholes(ScalarKind::U32, wholes_u32(arg.value@)),
            },
            UniRecordArgVariant::ArrayOfU64(arg) => FieldModel {
                name: arg.name@,
                value: ValueModel::Wholes(ScalarKind::U64, wholes_u64(arg.value@)),
            },
            UniRecordArgVariant::ArrayOfI8(arg) => FieldModel {
                name: arg.name@,
                value: ValueModel::Wholes(ScalarKind::I8, wholes_i8(arg.value@)),
            },
            UniRecordArgVariant::ArrayOfI16(arg) => FieldModel {
                name: arg.name@,
                value: ValueModel::Wholes(ScalarKind::I16, wholes_i16(arg.value@)),
            },
            UniRecordArgVariant::ArrayOfI32(arg) => FieldModel {
                name: arg.name@,
                value: ValueModel::Wholes(ScalarKind::I32, wholes_i32(arg.value@)),
            },
            UniRecordArgVariant::ArrayOfI64(arg) => FieldModel {
                name: arg.name@,
                value: ValueModel::Wholes(ScalarKind::I64, wholes_i64(arg.value@)),
            },
            UniRecordArgVariant::ArrayOfF32(arg) => FieldModel {
                name: arg.name@,
                value: ValueModel::Fractions(ScalarKind::F32, fractions(arg.value@)),
            },
            UniRecordArgVariant::ArrayOfF64(arg) => FieldModel {
                name: arg.name@,
                value: ValueModel::Fractions(ScalarKind::F64, fractions(arg.value@)),
            },
            UniRecordArgVariant::Bool(arg) => FieldModel {
                name: arg.name@,
                value: ValueModel::Truth(arg.value),
            },
            UniRecordArgVariant::Identifier(arg) => FieldModel {
                name: arg.name@,
                value: ValueModel::Identifier(arg.enum_type@, arg.value@),
            },
        }
    }
}

/// Why a field literal is not a value of its declared type. The array
/// variants carry the index of the element that failed.
#[derive(Clone, Copy, Debug, PartialEq, Eq, Structural)]
pub enum RecordParsingError {
    BadX8Format(NumberError),
    BadX16Format(NumberError),
    BadX32Format(NumberError),
    BadX64Format(NumberError),
    BadU8Format(NumberError),
    BadU16Format(NumberError),
    BadU32Format(NumberError),
    BadU64Format(NumberError),
    BadI8Format(NumberError),
    BadI16Format(NumberError),
    BadI32Format(NumberError),
    BadI64Format(NumberError),
    BadF32Format(DecimalError),
    BadF64Format(DecimalError),
    BadX8ArrayFieldSyntax(NumberError, usize),
    BadX16ArrayFieldSyntax(NumberError, usize),
    BadX32ArrayFieldSyntax(NumberError, usize),
    BadX64ArrayFieldSyntax(NumberError, usize),
    BadU8ArrayFieldSyntax(NumberError, usize),
    BadU16ArrayFieldSyntax(NumberError, usize),
    BadU32ArrayFieldSyntax(NumberError, usize),
    BadU64ArrayFieldSyntax(NumberError, usize),
    BadI8ArrayFieldSyntax(NumberError, usize),
    BadI16ArrayFieldSyntax(NumberError, usize),
    BadI32ArrayFieldSyntax(NumberError, usize),
    BadI64ArrayFieldSyntax(NumberError, usize),
    BadF32ArrayFieldSyntax(DecimalError, usize),
    BadF64ArrayFieldSyntax(DecimalError, usize),
    BadBoolFormat(),
    BadIdFormat(),
}

impl RecordParsingError {
    /// The error for a scalar of an integer kind.
    pub open spec fn whole(kind: ScalarKind, e: NumberError) -> RecordParsingError {
        match kind {
            ScalarKind::X8 => RecordParsingError::BadX8Format(e),
            ScalarKind::X16 => RecordParsingError::BadX16Format(e),
            ScalarKind::X32 => RecordParsingError::BadX32Format(e),
            ScalarKind::X64 => RecordParsingError::BadX64Format(e),
            ScalarKind::U8 => RecordParsingError::BadU8Format(e),
            ScalarKind::U16 => RecordParsingError::BadU16Format(e),
            ScalarKind::U32 => RecordParsingError::BadU32Format(e),
            ScalarKind::U64 => RecordParsingError::BadU64Format(e),
            ScalarKind::I8 => RecordParsingError::BadI8Format(e),
            ScalarKind::I16 => RecordParsingError::BadI16Format(e),
            ScalarKind::I32 => RecordParsingError::BadI32Format(e),
            ScalarKind::I64 => RecordParsingError::BadI64Format(e),
            _ => RecordParsingError::BadBoolFormat(),
        }
    }

    /// The error for a scalar of a fraction kind.
    pub open spec fn fraction(kind: ScalarKind, e: DecimalError) -> RecordParsingError {
        match kind {
            ScalarKind::F32 => RecordParsingError::BadF32Format(e),
            _ => RecordParsingError::BadF64Format(e),
        }
    }

    /// The error for the element at `index` of an array of an integer kind.
    pub open spec fn whole_element(kind: ScalarKind, e: NumberError, index: usize) -> RecordParsingError {
        match kind {
            ScalarKind::X8 => RecordParsingError::BadX8ArrayFieldSyntax(e, index),
            ScalarKind::X16 => RecordParsingError::BadX16ArrayFieldSyntax(e, index),
            ScalarKind::X32 => RecordParsingError::BadX32ArrayFieldSyntax(e, index),
            ScalarKind::X64 => RecordParsingError::BadX64ArrayFieldSyntax(e, index),
            ScalarKind::U8 => RecordParsingError::BadU8ArrayFieldSyntax(e, index),
            ScalarKind::U16 => RecordParsingError::BadU16ArrayFieldSyntax(e, index),
            ScalarKind::U32 => RecordParsingError::BadU32ArrayFieldSyntax(e, index),
            ScalarKind::U64 => RecordParsingError::BadU64ArrayFieldSyntax(e, index),
            ScalarKind::I8 => RecordParsingError::BadI8ArrayFieldSyntax(e, index),
            ScalarKind::I16 => RecordParsingError::BadI16ArrayFieldSyntax(e, index),
            ScalarKind::I32 => RecordParsingError::BadI32ArrayFieldSyntax(e, index),
            ScalarKind::I64 => RecordParsingError::BadI64ArrayFieldSyntax(e, index),
            _ => RecordParsingError::BadBoolFormat(),
        }
    }

    /// The error for the element at `index` of an array of a fraction kind.
    pub open spec fn fraction_element(
        kind: ScalarKind,
        e: DecimalError,
        index: usize,
    ) -> RecordParsingError {
        match kind {
            ScalarKind::F32 => RecordParsingError::BadF32ArrayFieldSyntax(e, index),
            _ => RecordParsingError::BadF64ArrayFieldSyntax(e, index),
        }
    }

    fn of_whole(kind: ScalarKind, e: NumberError) -> (r: RecordParsingError)
        ensures
            r == RecordParsingError::whole(kind, e),
    {
        match kind {
            ScalarKind::X8 => RecordParsingError::BadX8Format(e),
            ScalarKind::X16 => RecordParsingError::BadX16Format(e),
            ScalarKind::X32 => RecordParsingError::BadX32Format(e),
            ScalarKind::X64 => RecordParsingError::BadX64Format(e),
            ScalarKind::U8 => RecordParsingError::BadU8Format(e),
            ScalarKind::U16 => RecordParsingError::BadU16Format(e),
            ScalarKind::U32 => RecordParsingError::BadU32Format(e),
            ScalarKind::U64 => RecordParsingError::BadU64Format(e),
            ScalarKind::I8 => RecordParsingError::BadI8Format(e),
            ScalarKind::I16 => RecordParsingError::BadI16Format(e),
            ScalarKind::I32 => RecordParsingError::BadI32Format(e),
            ScalarKind::I64 => RecordParsingError::BadI64Format(e),
            _ => RecordParsingError::BadBoolFormat(),
        }
    }

    fn of_fraction(kind: ScalarKind, e: DecimalError) -> (r: RecordParsingError)
        ensures
            r == RecordParsingError::fraction(kind, e),
    {
        match kind {
            ScalarKind::F32 => RecordParsingError::BadF32Format(e),
            _ => RecordParsingError::BadF64Format(e),
        }
    }

    fn of_whole_element(kind: ScalarKind, e: NumberError, index: usize) -> (r: RecordParsingError)
        ensures
            r == RecordParsingError::whole_element(kind, e, index),
    {
        match kind {
            ScalarKind::X8 => RecordParsingError::BadX8ArrayFieldSyntax(e, index),
            ScalarKind::X16 => RecordParsingError::BadX16ArrayFieldSyntax(e, index),
            ScalarKind::X32 => RecordParsingError::BadX32ArrayFieldSyntax(e, index),
            ScalarKind::X64 => RecordParsingError::BadX64ArrayFieldSyntax(e, index),
            ScalarKind::U8 => RecordParsingError::BadU8ArrayFieldSyntax(e, index),
            ScalarKind::U16 => RecordParsingError::BadU16ArrayFieldSyntax(e, index),
            ScalarKind::U32 => RecordParsingError::BadU32ArrayFieldSyntax(e, index),
            ScalarKind::U64 => RecordParsingError::BadU64ArrayFieldSyntax(e, index),
            ScalarKind::I8 => RecordParsingError::BadI8ArrayFieldSyntax(e, index),
            ScalarKind::I16 => RecordParsingError::BadI16ArrayFieldSyntax(e, index),
            ScalarKind::I32 => RecordParsingError::BadI32ArrayFieldSyntax(e, index),
            ScalarKind::I64 => RecordParsingError::BadI64ArrayFieldSyntax(e, index),
            _ => RecordParsingError::BadBoolFormat(),
        }
    }

    fn of_fraction_element(kind: ScalarKind, e: DecimalError, index: usize) -> (r:
        RecordParsingError)
        ensures
            r == RecordParsingError::fraction_element(kind, e, index),
    {
        match kind {
            ScalarKind::F32 => RecordParsingError::BadF32ArrayFieldSyntax(e, index),
            _ => RecordParsingError::BadF64ArrayFieldSyntax(e, index),
        }
    }
}

/// Integers as mathematics sees them.
pub open spec fn wide(s: Seq<i128>) -> Seq<int> {
    s.map_values(|x: i128| x as int)
}

fn narrow_u8(v: &Vec<i128>) -> (r: Vec<u8>)
    requires
        forall|i: int| 0 <= i < v@.len() ==> 0 <= #[trigger] v@[i] <= 0xff,
    ensures
        wholes_u8(r@) == wide(v@),
{
    let mut r: Vec<u8> = Vec::new();
    let mut i: usize = 0;
    while i < v.len()
        invariant
            i <= v.len(),
            r@.len() == i,
            forall|j: int| 0 <= j < v@.len() ==> 0 <= #[trigger] v@[j] <= 0xff,
            forall|j: int| 0 <= j < i ==> (#[trigger] r@[j]) as int == v@[j] as int,
        decreases v.len() - i,
    {
        let x: i128 = v[i];
        assert(0 <= v@[i as int] <= 0xff);
        r.push(x as u8);
        i += 1;
    }
    assert(wholes_u8(r@) =~= wide(v@));
    r
}

fn narrow_u16(v: &Vec<i128>) -> (r: Vec<u16>)
    requires
        forall|i: int| 0 <= i < v@.len() ==> 0 <= #[trigger] v@[i] <= 0xffff,
    ensures
        wholes_u16(r@) == wide(v@),
{
    let mut r: Vec<u16> = Vec::new();
    let mut i: usize = 0;
    while i < v.len()
        invariant
            i <= v.len(),
            r@.len() == i,
            forall|j: int| 0 <= j < v@.len() ==> 0 <= #[trigger] v@[j] <= 0xffff,
            forall|j: int| 0 <= j < i ==> (#[trigger] r@[j]) as int == v@[j] as int,
        decreases v.len() - i,
    {
        let x: i128 = v[i];
        assert(0 <= v@[i as int] <= 0xffff);
        r.push(x as u16);
        i += 1;
    }
    assert(wholes_u16(r@) =~= wide(v@));
    r
}

fn narrow_u32(v: &Vec<i128>) -> (r: Vec<u32>)
    requires
        forall|i: int| 0 <= i < v@.len() ==> 0 <= #[trigger] v@[i] <= 0xffff_ffff,
    ensures
        wholes_u32(r@) == wide(v@),
{
    let mut r: Vec<u32> = Vec::new();
    let mut i: usize = 0;
    while i < v.len()
        invariant
            i <= v.len(),
            r@.len() == i,
            forall|j: int| 0 <= j < v@.len() ==> 0 <= #[trigger] v@[j] <= 0xffff_ffff,
            forall|j: int| 0 <= j < i ==> (#[trigger] r@[j]) as int == v@[j] as int,
        decreases v.len() - i,
    {
        let x: i128 = v[i];
        assert(0 <= v@[i as int] <= 0xffff_ffff);
        r.push(x as u32);
        i += 1;
    }
    assert(wholes_u32(r@) =~= wide(v@));
    r
}

fn narrow_u64(v: &Vec<i128>) -> (r: Vec<u64>)
    requires
        forall|i: int| 0 <= i < v@.len() ==> 0 <= #[trigger] v@[i] <= 0xffff_ffff_ffff_ffff,
    ensures
        wholes_u64(r@) == wide(v@),
{
    let mut r: Vec<u64> = Vec::new();
    let mut i: usize = 0;
    while i < v.len()
        invariant
            i <= v.len(),
            r@.len() == i,
            forall|j: int| 0 <= j < v@.len() ==> 0 <= #[trigger] v@[j] <= 0xffff_ffff_ffff_ffff,
            forall|j: int| 0 <= j < i ==> (#[trigger] r@[j]) as int == v@[j] as int,
        decreases v.len() - i,
    {
        let x: i128 = v[i];
        assert(0 <= v@[i as int] <= 0xffff_ffff_ffff_ffff);
        r.push(x as u64);
        i += 1;
    }
    assert(wholes_u64(r@) =~= wide(v@));
    r
}

fn narrow_i8(v: &Vec<i128>) -> (r: Vec<i8>)
    requires
        forall|i: int| 0 <= i < v@.len() ==> -0x80 <= #[trigger] v@[i] <= 0x7f,
    ensures
        wholes_i8(r@) == wide(v@),
{
    let mut r: Vec<i8> = Vec::new();
    let mut i: usize = 0;
    while i < v.len()
        invariant
            i <= v.len(),
            r@.len() == i,
            forall|j: int| 0 <= j < v@.len() ==> -0x80 <= #[trigger] v@[j] <= 0x7f,
            forall|j: int| 0 <= j < i ==> (#[trigger] r@[j]) as int == v@[j] as int,
        decreases v.len() - i,
    {
        let x: i128 = v[i];
        assert(-0x80 <= v@[i as int] <= 0x7f);
        r.push(x as i8);
        i += 1;
    }
    assert(wholes_i8(r@) =~= wide(v@));
    r
}

fn narrow_i16(v: &Vec<i128>) -> (r: Vec<i16>)
    requires
        forall|i: int| 0 <= i < v@.len() ==> -0x8000 <= #[trigger] v@[i] <= 0x7fff,
    ensures
        wholes_i16(r@) == wide(v@),
{
    let mut r: Vec<i16> = Vec::new();
    let mut i: usize = 0;
    while i < v.len()
        invariant
            i <= v.len(),
            r@.len() == i,
            forall|j: int| 0 <= j < v@.len() ==> -0x8000 <= #[trigger] v@[j] <= 0x7fff,
            forall|j: int| 0 <= j < i ==> (#[trigger] r@[j]) as int == v@[j] as int,
        decreases v.len() - i,
    {
        let x: i128 = v[i];
        assert(-0x8000 <= v@[i as int] <= 0x7fff);
        r.push(x as i16);
        i += 1;
    }
    assert(wholes_i16(r@) =~= wide(v@));
    r
}

fn narrow_i32(v: &Vec<i128>) -> (r: Vec<i32>)
    requires
        forall|i: int| 0 <= i < v@.len() ==> -0x8000_0000 <= #[trigger] v@[i] <= 0x7fff_ffff,
    ensures
        wholes_i32(r@) == wide(v@),
{
    let mut r: Vec<i32> = Vec::new();
    let mut i: usize = 0;
    while i < v.len()
        invariant
            i <= v.len(),
            r@.len() == i,
            forall|j: int| 0 <= j < v@.len() ==> -0x8000_0000 <= #[trigger] v@[j] <= 0x7fff_ffff,
            forall|j: int| 0 <= j < i ==> (#[trigger] r@[j]) as int == v@[j] as int,
        decreases v.len() - i,
    {
        let x: i128 = v[i];
        assert(-0x8000_0000 <= v@[i as int] <= 0x7fff_ffff);
        r.push(x as i32);
        i += 1;
    }
    assert(wholes_i32(r@) =~= wide(v@));
    r
}

fn narrow_i64(v: &Vec<i128>) -> (r: Vec<i64>)
    requires
        forall|i: int| 0 <= i < v@.len() ==> -0x8000_0000_0000_0000 <= #[trigger] v@[i] <= 0x7fff_ffff_ffff_ffff,
    ensures
        wholes_i64(r@) == wide(v@),
{
    let mut r: Vec<i64> = Vec::new();
    let mut i: usize = 0;
    while i < v.len()
        invariant
            i <= v.len(),
            r@.len() == i,
            forall|j: int| 0 <= j < v@.len() ==> -0x8000_0000_0000_0000 <= #[trigger] v@[j] <= 0x7fff_ffff_ffff_ffff,
            forall|j: int| 0 <= j < i ==> (#[trigger] r@[j]) as int == v@[j] as int,
        decreases v.len() - i,
    {
        let x: i128 = v[i];
        assert(-0x8000_0000_0000_0000 <= v@[i as int] <= 0x7fff_ffff_ffff_ffff);
        r.push(x as i64);
        i += 1;
    }
    assert(wholes_i64(r@) =~= wide(v@));
    r
}

/// The type tag of a literal: what stands before its first round bracket.
pub open spec fn literal_tag(literal: Seq<char>) -> Seq<char> {
    literal.take(find_either(literal, '(', ')', 0))
}

/// Whether a literal holds a round bracket, and so a payload.
pub open spec fn has_payload(literal: Seq<char>) -> bool {
    find_either(literal, '(', ')', 0) < literal.len()
}

/// The payload of a literal: what stands between its first round bracket and
/// the next one, or the end.
pub open spec fn literal_payload(literal: Seq<char>) -> Seq<char> {
    let open = find_either(literal, '(', ')', 0);
    let close = find_either(literal, '(', ')', open + 1);
    literal.subrange(open + 1, close)
}

/// Whether a payload holds a square bracket, and so writes an array.
pub open spec fn is_array_payload(payload: Seq<char>) -> bool {
    find_either(payload, '[', ']', 0) < payload.len()
}

/// The elements of an array payload: what stands between its first square
/// bracket and the next one, or the end, cut at the commas.
pub open spec fn array_items(payload: Seq<char>) -> Seq<Seq<char>> {
    let open = find_either(payload, '[', ']', 0);
    let close = find_either(payload, '[', ']', open + 1);
    split(payload.subrange(open + 1, close), ',')
}

/// The integer that a payload writes for `kind`. A hexadecimal kind reads
/// what stands after the last `x`, so that a prefix `0x` may be written.
pub open spec fn parse_whole(kind: ScalarKind, payload: Seq<char>) -> Result<int, NumberError> {
    if kind.is_hex() {
        parse_integer(after_last(payload, 'x'), 16, 0, kind.upper())
    } else {
        parse_integer(payload, 10, kind.lower(), kind.upper())
    }
}

/// The integers that the items write for `kind`, or the error of the first
/// item that fails, with its index.
pub open spec fn parse_wholes(kind: ScalarKind, items: Seq<Seq<char>>) -> Result<
    Seq<int>,
    RecordParsingError,
>
    decreases items.len(),
{
    if items.len() == 0 {
        Ok(Seq::empty())
    } else {
        match parse_wholes(kind, items.drop_last()) {
            Err(e) => Err(e),
            Ok(front) => match parse_whole(kind, items.last()) {
                Err(e) => Err(
                    RecordParsingError::whole_element(kind, e, (items.len() - 1) as usize),
                ),
                Ok(n) => Ok(front.push(n)),
            },
        }
    }
}

/// The decimals that the items write, or the error of the first item that
/// fails, with its index.
pub open spec fn parse_fractions(kind: ScalarKind, items: Seq<Seq<char>>) -> Result<
    Seq<DecimalModel>,
    RecordParsingError,
>
    decreases items.len(),
{
    if items.len() == 0 {
        Ok(Seq::empty())
    } else {
        match parse_fractions(kind, items.drop_last()) {
            Err(e) => Err(e),
            Ok(front) => match parse_decimal(items.last()) {
                Err(e) => Err(
                    RecordParsingError::fraction_element(kind, e, (items.len() - 1) as usize),
                ),
                Ok(d) => Ok(front.push(d)),
            },
        }
    }
}

/// The truth value that a payload writes: `true`, `false`, or a number in
/// hexadecimal digits, which is true unless it is zero.
pub open spec fn parse_truth(payload: Seq<char>) -> Result<bool, RecordParsingError> {
    if payload == "true"@ {
        Ok(true)
    } else if payload == "false"@ {
        Ok(false)
    } else {
        match parse_integer(after_last(payload, 'x'), 16, 0, 0xffff_ffff_ffff_ffff) {
            Ok(n) => Ok(n != 0),
            Err(_) => Err(RecordParsingError::BadBoolFormat()),
        }
    }
}

/// The enumeration and the member that a payload `Enumeration::Member`
/// names; `::` must occur exactly once.
pub open spec fn parse_identifier(payload: Seq<char>) -> Option<(Seq<char>, Seq<char>)> {
    let p = find_pair(payload, ':', ':', 0);
    if p < payload.len() && find_pair(payload, ':', ':', p + 2) >= payload.len() {
        Some((payload.take(p), payload.skip(p + 2)))
    } else {
        None
    }
}

/// The value that `payload` writes for a scalar of `kind`.
pub open spec fn decode_scalar(kind: ScalarKind, payload: Seq<char>) -> Result<
    ValueModel,
    RecordParsingError,
> {
    if kind.is_fraction() {
        match parse_decimal(payload) {
            Ok(d) => Ok(ValueModel::Fraction(kind, d)),
            Err(e) => Err(RecordParsingError::fraction(kind, e)),
        }
    } else {
        match parse_whole(kind, payload) {
            Ok(n) => Ok(ValueModel::Whole(kind, n)),
            Err(e) => Err(RecordParsingError::whole(kind, e)),
        }
    }
}

/// The value that `items` write for an array of `kind`.
pub open spec fn decode_array(kind: ScalarKind, items: Seq<Seq<char>>) -> Result<
    ValueModel,
    RecordParsingError,
> {
    if kind.is_fraction() {
        match parse_fractions(kind, items) {
            Ok(v) => Ok(ValueModel::Fractions(kind, v)),
            Err(e) => Err(e),
        }
    } else {
        match parse_wholes(kind, items) {
            Ok(v) => Ok(ValueModel::Wholes(kind, v)),
            Err(e) => Err(e),
        }
    }
}

/// The value that a literal `type(payload)` writes. `None` where the literal
/// is outside the language: it has no round bracket, or its type tag is
/// unknown, or it writes an array of `bool` or `id`.
pub open spec fn decode_value(literal: Seq<char>) -> Option<Result<ValueModel, RecordParsingError>> {
    if !has_payload(literal) {
        None
    } else {
        let tag = literal_tag(literal);
        let payload = literal_payload(literal);
        if is_array_payload(payload) {
            match ScalarKind::of_tag(tag) {
                None => None,
                Some(kind) => Some(decode_array(kind, array_items(payload))),
            }
        } else if tag == "id"@ {
            Some(
                match parse_identifier(payload) {
                    Some((enum_type, member)) => Ok(ValueModel::Identifier(enum_type, member)),
                    None => Err(RecordParsingError::BadIdFormat()),
                },
            )
        } else if tag == "bool"@ {
            Some(
                match parse_truth(payload) {
                    Ok(b) => Ok(ValueModel::Truth(b)),
                    Err(e) => Err(e),
                },
            )
        } else {
            match ScalarKind::of_tag(tag) {
                None => None,
                Some(kind) => Some(decode_scalar(kind, payload)),
            }
        }
    }
}

/// The field that a key `name:` and a literal `type(payload)` write.
pub open spec fn decode_field(key: Seq<char>, literal: Seq<char>) -> Option<
    Result<FieldModel, RecordParsingError>,
> {
    match decode_value(literal) {
        None => None,
        Some(Err(e)) => Some(Err(e)),
        Some(Ok(value)) => Some(Ok(FieldModel { name: before(key, ':'), value })),
    }
}

fn read_whole(kind: ScalarKind, payload: &Vec<char>) -> (r: Result<i128, NumberError>)
    requires
        !kind.is_fraction(),
    ensures
        match r {
            Ok(n) => parse_whole(kind, payload@) == Ok::<int, NumberError>(n as int)
                && kind.lower() <= n <= kind.upper(),
            Err(e) => parse_whole(kind, payload@) == Err::<int, NumberError>(e),
        },
{
    let (lo, hi) = kind.bounds();
    if kind.hex() {
        let start: usize = after_last_in(payload, 'x');
        let digits = slice_of(payload, start, payload.len());
        assert(digits@ =~= after_last(payload@, 'x'));
        read_integer(&digits, 16, 0, hi)
    } else {
        read_integer(payload, 10, lo, hi)
    }
}

fn read_wholes(kind: ScalarKind, items: &Vec<Vec<char>>) -> (r: Result<
    Vec<i128>,
    RecordParsingError,
>)
    requires
        !kind.is_fraction(),
    ensures
        match r {
            Ok(v) => parse_wholes(kind, views(items@)) == Ok::<Seq<int>, RecordParsingError>(
                wide(v@),
            ) && forall|i: int|
                0 <= i < v@.len() ==> kind.lower() <= #[trigger] v@[i] <= kind.upper(),
            Err(e) => parse_wholes(kind, views(items@)) == Err::<Seq<int>, RecordParsingError>(e),
        },
{
    let mut v: Vec<i128> = Vec::new();
    let mut i: usize = 0;
    assert(views(items@).take(0) =~= Seq::<Seq<char>>::empty());
    assert(wide(v@) =~= Seq::<int>::empty());
    while i < items.len()
        invariant
            i <= items.len(),
            !kind.is_fraction(),
            parse_wholes(kind, views(items@).take(i as int)) == Ok::<
                Seq<int>,
                RecordParsingError,
            >(wide(v@)),
            forall|j: int| 0 <= j < v@.len() ==> kind.lower() <= #[trigger] v@[j] <= kind.upper(),
        decreases items.len() - i,
    {
        let ghost front = views(items@).take(i as int);
        let ghost next = views(items@).take(i + 1);
        assert(next.drop_last() =~= front);
        assert(next.last() == items@[i as int]@);
        match read_whole(kind, &items[i]) {
            Ok(n) => {
                let ghost before_push = v@;
                v.push(n);
                assert(wide(v@) =~= wide(before_push).push(n as int));
            },
            Err(e) => {
                proof {
                    lemma_parse_wholes_error(kind, views(items@), i + 1);
                }
                return Err(RecordParsingError::of_whole_element(kind, e, i));
            },
        }
        i += 1;
    }
    assert(views(items@).take(items.len() as int) =~= views(items@));
    Ok(v)
}

/// An error among the first items stays the error of the whole list.
pub proof fn lemma_parse_wholes_error(kind: ScalarKind, items: Seq<Seq<char>>, n: int)
    requires
        0 <= n <= items.len(),
        parse_wholes(kind, items.take(n)) is Err,
    ensures
        parse_wholes(kind, items) == parse_wholes(kind, items.take(n)),
    decreases items.len() - n,
{
    if n < items.len() {
        assert(items.take(n + 1).drop_last() =~= items.take(n));
        lemma_parse_wholes_error(kind, items, n + 1);
    } else {
        assert(items.take(n) =~= items);
    }
}

/// An error among the first items stays the error of the whole list.
pub proof fn lemma_parse_fractions_error(kind: ScalarKind, items: Seq<Seq<char>>, n: int)
    requires
        0 <= n <= items.len(),
        parse_fractions(kind, items.take(n)) is Err,
    ensures
        parse_fractions(kind, items) == parse_fractions(kind, items.take(n)),
    decreases items.len() - n,
{
    if n < items.len() {
        assert(items.take(n + 1).drop_last() =~= items.take(n));
        lemma_parse_fractions_error(kind, items, n + 1);
    } else {
        assert(items.take(n) =~= items);
    }
}

fn read_fractions(kind: ScalarKind, items: &Vec<Vec<char>>) -> (r: Result<
    Vec<Decimal>,
    RecordParsingError,
>)
    ensures
        match r {
            Ok(v) => parse_fractions(kind, views(items@)) == Ok::<
                Seq<DecimalModel>,
                RecordParsingError,
            >(fractions(v@)),
            Err(e) => parse_fractions(kind, views(items@)) == Err::<
                Seq<DecimalModel>,
                RecordParsingError,
            >(e),
        },
{
    let mut v: Vec<Decimal> = Vec::new();
    let mut i: usize = 0;
    assert(views(items@).take(0) =~= Seq::<Seq<char>>::empty());
    assert(fractions(v@) =~= Seq::<DecimalModel>::empty());
    while i < items.len()
        invariant
            i <= items.len(),
            parse_fractions(kind, views(items@).take(i as int)) == Ok::<
                Seq<DecimalModel>,
                RecordParsingError,
            >(fractions(v@)),
        decreases items.len() - i,
    {
        let ghost front = views(items@).take(i as int);
        let ghost next = views(items@).take(i + 1);
        assert(next.drop_last() =~= front);
        assert(next.last() == items@[i as int]@);
        match Decimal::from_chars(&items[i]) {
            Ok(d) => {
                let ghost before_push = v@;
                v.push(d);
                assert(fractions(v@) =~= fractions(before_push).push(d@));
            },
            Err(e) => {
                proof {
                    lemma_parse_fractions_error(kind, views(items@), i + 1);
                }
                return Err(RecordParsingError::of_fraction_element(kind, e, i));
            },
        }
        i += 1;
    }
    assert(views(items@).take(items.len() as int) =~= views(items@));
    Ok(v)
}

fn read_truth(payload: &Vec<char>) -> (r: Result<bool, RecordParsingError>)
    ensures
        r == parse_truth(payload@),
{
    if text_is(payload, "true") {
        Ok(true)
    } else if text_is(payload, "false") {
        Ok(false)
    } else {
        let start: usize = after_last_in(payload, 'x');
        let digits = slice_of(payload, start, payload.len());
        assert(digits@ =~= after_last(payload@, 'x'));
        match read_integer(&digits, 16, 0, 0xffff_ffff_ffff_ffff) {
            Ok(n) => Ok(n != 0),
            Err(_) => Err(RecordParsingError::BadBoolFormat()),
        }
    }
}

fn whole_field(name: String, kind: ScalarKind, n: i128) -> (r: UniRecordArgVariant)
    requires
        !kind.is_fraction(),
        kind.lower() <= n <= kind.upper(),
    ensures
        r@ == (FieldModel { name: name@, value: ValueModel::Whole(kind, n as int) }),
{
    match kind {
        ScalarKind::X8 => UniRecordArgVariant::X8(UniRecordArg { name, value: n as u8 }),
        ScalarKind::X16 => UniRecordArgVariant::X16(UniRecordArg { name, value: n as u16 }),
        ScalarKind::X32 => UniRecordArgVariant::X32(UniRecordArg { name, value: n as u32 }),
        ScalarKind::X64 => UniRecordArgVariant::X64(UniRecordArg { name, value: n as u64 }),
        ScalarKind::U8 => UniRecordArgVariant::U8(UniRecordArg { name, value: n as u8 }),
        ScalarKind::U16 => UniRecordArgVariant::U16(UniRecordArg { name, value: n as u16 }),
        ScalarKind::U32 => UniRecordArgVariant::U32(UniRecordArg { name, value: n as u32 }),
        ScalarKind::U64 => UniRecordArgVariant::U64(UniRecordArg { name, value: n as u64 }),
        ScalarKind::I8 => UniRecordArgVariant::I8(UniRecordArg { name, value: n as i8 }),
        ScalarKind::I16 => UniRecordArgVariant::I16(UniRecordArg { name, value: n as i16 }),
        ScalarKind::I32 => UniRecordArgVariant::I32(UniRecordArg { name, value: n as i32 }),
        ScalarKind::I64 => UniRecordArgVariant::I64(UniRecordArg { name, value: n as i64 }),
        _ => UniRecordArgVariant::Bool(UniRecordArg { name, value: false }),
    }
}

fn fraction_field(name: String, kind: ScalarKind, d: Decimal) -> (r: UniRecordArgVariant)
    requires
        kind.is_fraction(),
    ensures
        r@ == (FieldModel { name: name@, value: ValueModel::Fraction(kind, d@) }),
{
    match kind {
        ScalarKind::F32 => UniRecordArgVariant::F32(UniRecordArg { name, value: d }),
        _ => UniRecordArgVariant::F64(UniRecordArg { name, value: d }),
    }
}

fn wholes_field(name: String, kind: ScalarKind, v: Vec<i128>) -> (r: UniRecordArgVariant)
    requires
        !kind.is_fraction(),
        forall|i: int| 0 <= i < v@.len() ==> kind.lower() <= #[trigger] v@[i] <= kind.upper(),
    ensures
        r@ == (FieldModel { name: name@, value: ValueModel::Wholes(kind, wide(v@)) }),
{
    match kind {
        ScalarKind::X8 => UniRecordArgVariant::ArrayOfX8(
            UniRecordArg { name, value: narrow_u8(&v) },
        ),
        ScalarKind::X16 => UniRecordArgVariant::ArrayOfX16(
            UniRecordArg { name, value: narrow_u16(&v) },
        ),
        ScalarKind::X32 => UniRecordArgVariant::ArrayOfX32(
            UniRecordArg { name, value: narrow_u32(&v) },
        ),
        ScalarKind::X64 => UniRecordArgVariant::ArrayOfX64(
            UniRecordArg { name, value: narrow_u64(&v) },
        ),
        ScalarKind::U8 => UniRecordArgVariant::ArrayOfU8(
            UniRecordArg { name, value: narrow_u8(&v) },
        ),
        ScalarKind::U16 => UniRecordArgVariant::ArrayOfU16(
            UniRecordArg { name, value: narrow_u16(&v) },
        ),
        ScalarKind::U32 => UniRecordArgVariant::ArrayOfU32(
            UniRecordArg { name, value: narrow_u32(&v) },
        ),
        ScalarKind::U64 => UniRecordArgVariant::ArrayOfU64(
            UniRecordArg { name, value: narrow_u64(&v) },
        ),
        ScalarKind::I8 => UniRecordArgVariant::ArrayOfI8(
            UniRecordArg { name, value: narrow_i8(&v) },
        ),
        ScalarKind::I16 => UniRecordArgVariant::ArrayOfI16(
            UniRecordArg { name, value: narrow_i16(&v) },
        ),
        ScalarKind::I32 => UniRecordArgVariant::ArrayOfI32(
            UniRecordArg { name, value: narrow_i32(&v) },
        ),
        ScalarKind::I64 => UniRecordArgVariant::ArrayOfI64(
            UniRecordArg { name, value: narrow_i64(&v) },
        ),
        _ => UniRecordArgVariant::Bool(UniRecordArg { name, value: false }),
    }
}

fn fractions_field(name: String, kind: ScalarKind, v: Vec<Decimal>) -> (r: UniRecordArgVariant)
    requires
        kind.is_fraction(),
    ensures
        r@ == (FieldModel { name: name@, value: ValueModel::Fractions(kind, fractions(v@)) }),
{
    match kind {
        ScalarKind::F32 => UniRecordArgVariant::ArrayOfF32(UniRecordArg { name, value: v }),
        _ => UniRecordArgVariant::ArrayOfF64(UniRecordArg { name, value: v }),
    }
}

fn scalar_field(name: String, kind: ScalarKind, payload: &Vec<char>) -> (r: Result<
    UniRecordArgVariant,
    RecordParsingError,
>)
    ensures
        match r {
            Ok(field) => decode_scalar(kind, payload@) == Ok::<ValueModel, RecordParsingError>(
                field@.value,
            ) && field@.name == name@,
            Err(e) => decode_scalar(kind, payload@) == Err::<ValueModel, RecordParsingError>(e),
        },
{
    if kind.fraction() {
        match Decimal::from_chars(payload) {
            Ok(d) => Ok(fraction_field(name, kind, d)),
            Err(e) => Err(RecordParsingError::of_fraction(kind, e)),
        }
    } else {
        match read_whole(kind, payload) {
            Ok(n) => Ok(whole_field(name, kind, n)),
            Err(e) => Err(RecordParsingError::of_whole(kind, e)),
        }
    }
}

fn array_field(name: String, kind: ScalarKind, items: &Vec<Vec<char>>) -> (r: Result<
    UniRecordArgVariant,
    RecordParsingError,
>)
    ensures
        match r {
            Ok(field) => decode_array(kind, views(items@)) == Ok::<
                ValueModel,
                RecordParsingError,
            >(field@.value) && field@.name == name@,
            Err(e) => decode_array(kind, views(items@)) == Err::<ValueModel, RecordParsingError>(
                e,
            ),
        },
{
    if kind.fraction() {
        match read_fractions(kind, items) {
            Ok(v) => Ok(fractions_field(name, kind, v)),
            Err(e) => Err(e),
        }
    } else {
        match read_wholes(kind, items) {
            Ok(v) => Ok(wholes_field(name, kind, v)),
            Err(e) => Err(e),
        }
    }
}

fn identifier_field(name: String, payload: &Vec<char>) -> (r: Result<
    UniRecordArgVariant,
    RecordParsingError,
>)
    ensures
        match r {
            Ok(field) => parse_identifier(payload@) is Some && field@ == (FieldModel {
                name: name@,
                value: ValueModel::Identifier(
                    parse_identifier(payload@)->Some_0.0,
                    parse_identifier(payload@)->Some_0.1,
                ),
            }),
            Err(e) => parse_identifier(payload@) is None && e == RecordParsingError::BadIdFormat(),
        },
{
    let p: usize = find_pair_in(payload, ':', ':', 0);
    if p < payload.len() {
        let q: usize = find_pair_in(payload, ':', ':', p + 2);
        if q >= payload.len() {
            let enum_type = slice_of(payload, 0, p);
            let member = slice_of(payload, p + 2, payload.len());
            assert(enum_type@ =~= payload@.take(p as int));
            assert(member@ =~= payload@.skip(p + 2));
            return Ok(
                UniRecordArgVariant::Identifier(
                    IdentifierRecordArg {
                        name,
                        enum_type: string_of(&enum_type),
                        value: string_of(&member),
                    },
                ),
            );
        }
    }
    Err(RecordParsingError::BadIdFormat())
}

impl UniRecordArgVariant {
    /// The type of the field.
    pub fn get_type(&self) -> (r: MemberType)
        ensures
            r@ == self@.value.type_of(),
    {
        match self {
            UniRecordArgVariant::X8(_) => MemberType::X8,
            UniRecordArgVariant::X16(_) => MemberType::X16,
            UniRecordArgVariant::X32(_) => MemberType::X32,
            UniRecordArgVariant::X64(_) => MemberType::X64,
            UniRecordArgVariant::U8(_) => MemberType::U8,
            UniRecordArgVariant::U16(_) => MemberType::U16,
            UniRecordArgVariant::U32(_) => MemberType::U32,
            UniRecordArgVariant::U64(_) => MemberType::U64,
            UniRecordArgVariant::I8(_) => MemberType::I8,
            UniRecordArgVariant::I16(_) => MemberType::I16,
            UniRecordArgVariant::I32(_) => MemberType::I32,
            UniRecordArgVariant::I64(_) => MemberType::I64,
            UniRecordArgVariant::F32(_) => MemberType::F32,
            UniRecordArgVariant::F64(_) => MemberType::F64,
            UniRecordArgVariant::ArrayOfX8(_) => MemberType::ArrayOfX8,
            UniRecordArgVariant::ArrayOfX16(_) => MemberType::ArrayOfX16,
            UniRecordArgVariant::ArrayOfX32(_) => MemberType::ArrayOfX32,
            UniRecordArgVariant::ArrayOfX64(_) => MemberType::ArrayOfX64,
            UniRecordArgVariant::ArrayOfU8(_) => MemberType::ArrayOfU8,
            UniRecordArgVariant::ArrayOfU16(_) => MemberType::ArrayOfU16,
            UniRecordArgVariant::ArrayOfU32(_) => MemberType::ArrayOfU32,
            UniRecordArgVariant::ArrayOfU64(_) => MemberType::ArrayOfU64,
            UniRecordArgVariant::ArrayOfI8(_) => MemberType::ArrayOfI8,
            UniRecordArgVariant::ArrayOfI16(_) => MemberType::ArrayOfI16,
            UniRecordArgVariant::ArrayOfI32(_) => MemberType::ArrayOfI32,
            UniRecordArgVariant::ArrayOfI64(_) => MemberType::ArrayOfI64,
            UniRecordArgVariant::ArrayOfF32(_) => MemberType::ArrayOfF32,
            UniRecordArgVariant::ArrayOfF64(_) => MemberType::ArrayOfF64,
            UniRecordArgVariant::Identifier(arg) => MemberType::Identifier(arg.enum_type.clone()),
            UniRecordArgVariant::Bool(_) => MemberType::Bool,
        }
    }

    /// The name of the field.
    pub fn get_name(&self) -> (r: &String)
        ensures
            r@ == self@.name,
    {
        match self {
            UniRecordArgVariant::X8(arg) => &arg.name,
            UniRecordArgVariant::X16(arg) => &arg.name,
            UniRecordArgVariant::X32(arg) => &arg.name,
            UniRecordArgVariant::X64(arg) => &arg.name,
            UniRecordArgVariant::U8(arg) => &arg.name,
            UniRecordArgVariant::U16(arg) => &arg.name,
            UniRecordArgVariant::U32(arg) => &arg.name,
            UniRecordArgVariant::U64(arg) => &arg.name,
            UniRecordArgVariant::I8(arg) => &arg.name,
            UniRecordArgVariant::I16(arg) => &arg.name,
            UniRecordArgVariant::I32(arg) => &arg.name,
            UniRecordArgVariant::I64(arg) => &arg.name,
            UniRecordArgVariant::F32(arg) => &arg.name,
            UniRecordArgVariant::F64(arg) => &arg.name,
            UniRecordArgVariant::ArrayOfX8(arg) => &arg.name,
            UniRecordArgVariant::ArrayOfX16(arg) => &arg.name,
            UniRecordArgVariant::ArrayOfX32(arg) => &arg.name,
            UniRecordArgVariant::ArrayOfX64(arg) => &arg.name,
            UniRecordArgVariant::ArrayOfU8(arg) => &arg.name,
            UniRecordArgVariant::ArrayOfU16(arg) => &arg.name,
            UniRecordArgVariant::ArrayOfU32(arg) => &arg.name,
            UniRecordArgVariant::ArrayOfU64(arg) => &arg.name,
            UniRecordArgVariant::ArrayOfI8(arg) => &arg.name,
            UniRecordArgVariant::ArrayOfI16(arg) => &arg.name,
            UniRecordArgVariant::ArrayOfI32(arg) => &arg.name,
            UniRecordArgVariant::ArrayOfI64(arg) => &arg.name,
            UniRecordArgVariant::ArrayOfF32(arg) => &arg.name,
            UniRecordArgVariant::ArrayOfF64(arg) => &arg.name,
            UniRecordArgVariant::Identifier(arg) => &arg.name,
            UniRecordArgVariant::Bool(arg) => &arg.name,
        }
    }

    /// Decodes the field that a key `name:` and a literal `type(payload)`
    /// write. `None` where the literal is outside the language.
    pub fn decode_chars(key: &Vec<char>, literal: &Vec<char>) -> (r: Option<
        Result<UniRecordArgVariant, RecordParsingError>,
    >)
        ensures
            match r {
                None => decode_field(key@, literal@) is None,
                Some(Ok(field)) => decode_field(key@, literal@) == Some(
                    Ok::<FieldModel, RecordParsingError>(field@),
                ),
                Some(Err(e)) => decode_field(key@, literal@) == Some(
                    Err::<FieldModel, RecordParsingError>(e),
                ),
            },
    {
        let open: usize = find_either_in(literal, '(', ')', 0);
        if open >= literal.len() {
            return None;
        }
        let close: usize = find_either_in(literal, '(', ')', open + 1);
        let tag = slice_of(literal, 0, open);
        assert(tag@ =~= literal_tag(literal@));
        let payload = slice_of(literal, open + 1, close);
        let colon: usize = find_in(key, ':', 0);
        let name_chars = slice_of(key, 0, colon);
        assert(name_chars@ =~= before(key@, ':'));
        let name = string_of(&name_chars);
        let first: usize = find_either_in(&payload, '[', ']', 0);
        if first < payload.len() {
            match ScalarKind::from_tag(&tag) {
                None => None,
                Some(kind) => {
                    let second: usize = find_either_in(&payload, '[', ']', first + 1);
                    let body = slice_of(&payload, first + 1, second);
                    let items = split_text(&body, ',');
                    Some(array_field(name, kind, &items))
                },
            }
        } else if text_is(&tag, "id") {
            Some(identifier_field(name, &payload))
        } else if text_is(&tag, "bool") {
            match read_truth(&payload) {
                Ok(b) => Some(Ok(UniRecordArgVariant::Bool(UniRecordArg { name, value: b }))),
                Err(e) => Some(Err(e)),
            }
        } else {
            match ScalarKind::from_tag(&tag) {
                None => None,
                Some(kind) => Some(scalar_field(name, kind, &payload)),
            }
        }
    }

    /// Decodes the field that a key `name:` and a literal `type(payload)`
    /// write. `None` where the literal is outside the language.
    pub fn decode(key: &str, literal: &str) -> (r: Option<
        Result<UniRecordArgVariant, RecordParsingError>,
    >)
        ensures
            match r {
                None => decode_field(key@, literal@) is None,
                Some(Ok(field)) => decode_field(key@, literal@) == Some(
                    Ok::<FieldModel, RecordParsingError>(field@),
                ),
                Some(Err(e)) => decode_field(key@, literal@) == Some(
                    Err::<FieldModel, RecordParsingError>(e),
                ),
            },
    {
        let key_chars = chars_of(key);
        let literal_chars = chars_of(literal);
        UniRecordArgVariant::decode_chars(&key_chars, &literal_chars)
    }

    /// Decodes the field that a key `name:` and a literal `type(payload)`
    /// write, for a literal of the language.
    pub fn from(record_arg_key: &str, record_arg_value: &str) -> (r: Result<
        UniRecordArgVariant,
        RecordParsingError,
    >)
        requires
            decode_field(record_arg_key@, record_arg_value@) is Some,
        ensures
            match r {
                Ok(field) => decode_field(record_arg_key@, record_arg_value@) == Some(
                    Ok::<FieldModel, RecordParsingError>(field@),
                ),
                Err(e) => decode_field(record_arg_key@, record_arg_value@) == Some(
                    Err::<FieldModel, RecordParsingError>(e),
                ),
            },
    {
        match UniRecordArgVariant::decode(record_arg_key, record_arg_value) {
            Some(r) => r,
            None => Err(RecordParsingError::BadIdFormat()),
        }
    }
}

/// The fields of a vector, as mathematics sees them.
pub open spec fn field_models(args: Seq<UniRecordArgVariant>) -> Seq<FieldModel> {
    args.map_values(|a: UniRecordArgVariant| a@)
}

/// A decoded record: its name and its fields in the order written.
#[derive(Debug, PartialEq)]
pub struct UniRecord {
    name: String,
    args: Vec<UniRecordArgVariant>,
}

impl View for UniRecord {
    type V = RecordModel;

    closed spec fn view(&self) -> RecordModel {
        RecordModel { name: self.name@, fields: field_models(self.args@) }
    }
}

impl UniRecord {
    /// A record of a name and fields.
    pub fn new(name: String, args: Vec<UniRecordArgVariant>) -> (r: UniRecord)
        ensures
            r@ == (RecordModel { name: name@, fields: field_models(args@) }),
    {
        UniRecord { name, args }
    }

    /// The name of the record.
    pub fn name(&self) -> (r: &String)
        ensures
            r@ == self@.name,
    {
        &self.name
    }

    /// The fields of the record.
    pub fn args(&self) -> (r: &Vec<UniRecordArgVariant>)
        ensures
            field_models(r@) == self@.fields,
    {
        &self.args
    }

    /// Takes the record apart: its name, its fields.
    pub fn dissassemble(self) -> (r: (String, Vec<UniRecordArgVariant>))
        ensures
            r.0@ == self@.name,
            field_models(r.1@) == self@.fields,
    {
        (self.name, self.args)
    }
}

/// The shape of a type without the name of an enumeration.
#[derive(Clone, Copy, Debug, PartialEq, Eq, Structural)]
pub enum TypeShape {
    Scalar(ScalarKind),
    Array(ScalarKind),
    Truth,
    Identifier,
}

impl TypeModel {
    /// The shape of the type.
    pub open spec fn shape(self) -> TypeShape {
        match self {
            TypeModel::Scalar(kind) => TypeShape::Scalar(kind),
            TypeModel::Array(kind) => TypeShape::Array(kind),
            TypeModel::Truth => TypeShape::Truth,
            TypeModel::Identifier(_) => TypeShape::Identifier,
        }
    }
}

impl MemberType {
    /// The shape of the type.
    pub fn shape(&self) -> (r: TypeShape)
        ensures
            r == self@.shape(),
    {
        match self {
            MemberType::X8 => TypeShape::Scalar(ScalarKind::X8),
            MemberType::X16 => TypeShape::Scalar(ScalarKind::X16),
            MemberType::X32 => TypeShape::Scalar(ScalarKind::X32),
            MemberType::X64 => TypeShape::Scalar(ScalarKind::X64),
            MemberType::U8 => TypeShape::Scalar(ScalarKind::U8),
            MemberType::U16 => TypeShape::Scalar(ScalarKind::U16),
            MemberType::U32 => TypeShape::Scalar(ScalarKind::U32),
            MemberType::U64 => TypeShape::Scalar(ScalarKind::U64),
            MemberType::I8 => TypeShape::Scalar(ScalarKind::I8),
            MemberType::I16 => TypeShape::Scalar(ScalarKind::I16),
            MemberType::I32 => TypeShape::Scalar(ScalarKind::I32),
            MemberType::I64 => TypeShape::Scalar(ScalarKind::I64),
            MemberType::F32 => TypeShape::Scalar(ScalarKind::F32),
            MemberType::F64 => TypeShape::Scalar(ScalarKind::F64),
            MemberType::ArrayOfX8 => TypeShape::Array(ScalarKind::X8),
            MemberType::ArrayOfX16 => TypeShape::Array(ScalarKind::X16),
            MemberType::ArrayOfX32 => TypeShape::Array(ScalarKind::X32),
            MemberType::ArrayOfX64 => TypeShape::Array(ScalarKind::X64),
            MemberType::ArrayOfU8 => TypeShape::Array(ScalarKind::U8),
            MemberType::ArrayOfU16 => TypeShape::Array(ScalarKind::U16),
            MemberType::ArrayOfU32 => TypeShape::Array(ScalarKind::U32),
            MemberType::ArrayOfU64 => TypeShape::Array(ScalarKind::U64),
            MemberType::ArrayOfI8 => TypeShape::Array(ScalarKind::I8),
            MemberType::ArrayOfI16 => TypeShape::Array(ScalarKind::I16),
            MemberType::ArrayOfI32 => TypeShape::Array(ScalarKind::I32),
            MemberType::ArrayOfI64 => TypeShape::Array(ScalarKind::I64),
            MemberType::ArrayOfF32 => TypeShape::Array(ScalarKind::F32),
            MemberType::ArrayOfF64 => TypeShape::Array(ScalarKind::F64),
            MemberType::Bool => TypeShape::Truth,
            MemberType::Identifier(_) => TypeShape::Identifier,
        }
    }

    /// The name of the enumeration, for the type of an identifier.
    pub fn enum_name(&self) -> (r: Option<&String>)
        ensures
            match r {
                Some(name) => self@ == TypeModel::Identifier(name@),
                None => !(self@ is Identifier),
            },
    {
        match self {
            MemberType::Identifier(name) => Some(name),
            _ => None,
        }
    }
}

/// What is wrong with a number, in words.
pub open spec fn number_error_text(e: NumberError) -> Seq<char> {
    match e {
        NumberError::Empty => "cannot parse integer from empty string"@,
        NumberError::InvalidDigit => "invalid digit found in string"@,
        NumberError::PosOverflow => "number too large to fit in target type"@,
        NumberError::NegOverflow => "number too small to fit in target type"@,
    }
}

fn number_error_message(e: NumberError) -> (r: &'static str)
    ensures
        r@ == number_error_text(e),
{
    match e {
        NumberError::Empty => "cannot parse integer from empty string",
        NumberError::InvalidDigit => "invalid digit found in string",
        NumberError::PosOverflow => "number too large to fit in target type",
        NumberError::NegOverflow => "number too small to fit in target type",
    }
}

/// The message of an error of a hexadecimal element: the width of the
/// type, the index of the element, and what is wrong with it.
pub open spec fn element_message_text(width: Seq<char>, gap: Seq<char>, index: usize, e: NumberError) -> Seq<
    char,
> {
    "Error parsing u"@ + width + " hexadecimal number in array at pos "@ + decimal_text(
        index as int,
    ) + gap + ": "@ + number_error_text(e)
}

fn element_message(width: &str, gap: &str, index: usize, e: NumberError) -> (r: String)
    ensures
        r@ == element_message_text(width@, gap@, index, e),
{
    let mut out: Vec<char> = Vec::new();
    append_str(&mut out, "Error parsing u");
    append_str(&mut out, width);
    append_str(&mut out, " hexadecimal number in array at pos ");
    append_decimal(&mut out, index as i128);
    append_str(&mut out, gap);
    append_str(&mut out, ": ");
    append_str(&mut out, number_error_message(e));
    assert(out@ =~= element_message_text(width@, gap@, index, e));
    string_of(&out)
}

impl RecordParsingError {
    /// Whether a message is defined for the error: it is for a bad
    /// hexadecimal byte and for a bad element of a hexadecimal array.
    pub open spec fn has_message(self) -> bool {
        self is BadX8Format || self is BadX8ArrayFieldSyntax || self is BadX16ArrayFieldSyntax
            || self is BadX32ArrayFieldSyntax || self is BadX64ArrayFieldSyntax
    }

    /// The message of the error.
    pub open spec fn message_text(self) -> Seq<char> {
        match self {
            RecordParsingError::BadX8Format(e) => "Error parsing u8 hexadecimal number: "@
                + number_error_text(e),
            RecordParsingError::BadX8ArrayFieldSyntax(e, index) => element_message_text(
                "8"@,
                " "@,
                index,
                e,
            ),
            RecordParsingError::BadX16ArrayFieldSyntax(e, index) => element_message_text(
                "16"@,
                ""@,
                index,
                e,
            ),
            RecordParsingError::BadX32ArrayFieldSyntax(e, index) => element_message_text(
                "32"@,
                ""@,
                index,
                e,
            ),
            RecordParsingError::BadX64ArrayFieldSyntax(e, index) => element_message_text(
                "64"@,
                ""@,
                index,
                e,
            ),
            _ => Seq::empty(),
        }
    }

    /// Whether a message is defined for the error.
    pub fn is_described(&self) -> (r: bool)
        ensures
            r == self.has_message(),
    {
        match self {
            RecordParsingError::BadX8Format(_) => true,
            RecordParsingError::BadX8ArrayFieldSyntax(_, _) => true,
            RecordParsingError::BadX16ArrayFieldSyntax(_, _) => true,
            RecordParsingError::BadX32ArrayFieldSyntax(_, _) => true,
            RecordParsingError::BadX64ArrayFieldSyntax(_, _) => true,
            _ => false,
        }
    }

    /// The message of an error for which one is defined.
    pub fn message(&self) -> (r: String)
        requires
            self.has_message(),
        ensures
            r@ == self.message_text(),
    {
        match self {
            RecordParsingError::BadX8Format(e) => {
                let mut out: Vec<char> = Vec::new();
                append_str(&mut out, "Error parsing u8 hexadecimal number: ");
                append_str(&mut out, number_error_message(*e));
                assert(out@ =~= self.message_text());
                string_of(&out)
            },
            RecordParsingError::BadX8ArrayFieldSyntax(e, index) => element_message(
                "8",
                " ",
                *index,
                *e,
            ),
            RecordParsingError::BadX16ArrayFieldSyntax(e, index) => element_message(
                "16",
                "",
                *index,
                *e,
            ),
            RecordParsingError::BadX32ArrayFieldSyntax(e, index) => element_message(
                "32",
                "",
                *index,
                *e,
            ),
            RecordParsingError::BadX64ArrayFieldSyntax(e, index) => element_message(
                "64",
                "",
                *index,
                *e,
            ),
            _ => String::new(),
        }
    }
}

} // verus!
