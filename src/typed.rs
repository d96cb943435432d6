use vstd::prelude::*;

use crate::error::IntWidth;

verus! {

/// A typed value as the binding protocol decomposes it: the value of a
/// struct, enum, collection, option or primitive of the host language.
///
/// A `f64` is held as its IEEE-754 bit pattern.
#[derive(Debug, PartialEq)]
pub enum Typed {
    /// `()` and unit structs.
    Unit,
    Bool(bool),
    /// An integer of the given width; its value fits the width.
    Int(IntWidth, i128),
    F64(u64),
    Char(char),
    Str(String),
    Bytes(Vec<u8>),
    /// An absent optional.
    Absent,
    /// A present optional.
    Present(Box<Typed>),
    NewtypeStruct(Box<Typed>),
    /// Sequences, tuples and tuple structs.
    Sequence(Vec<Typed>),
    Mapping(Vec<(Typed, Typed)>),
    /// A struct: its fields, by name, in declaration order.
    Struct(Vec<(String, Typed)>),
    UnitVariant(String),
    NewtypeVariant(String, Box<Typed>),
    TupleVariant(String, Vec<Typed>),
    StructVariant(String, Vec<(String, Typed)>),
}

/// The mathematical model of a typed value.
pub ghost enum Datum {
    Unit,
    Bool(bool),
    Int(IntWidth, int),
    F64(u64),
    Char(char),
    Str(Seq<char>),
    Bytes(Seq<u8>),
    Absent,
    Present(Box<Datum>),
    NewtypeStruct(Box<Datum>),
    Sequence(Seq<Datum>),
    Mapping(Seq<(Datum, Datum)>),
    Struct(Seq<(Seq<char>, Datum)>),
    UnitVariant(Seq<char>),
    NewtypeVariant(Seq<char>, Box<Datum>),
    TupleVariant(Seq<char>, Seq<Datum>),
    StructVariant(Seq<char>, Seq<(Seq<char>, Datum)>),
}

/// The target type of a deserialization: what the binding protocol asks of a node.
#[derive(Debug, PartialEq)]
pub enum Shape {
    Bool,
    Int(IntWidth),
    F64,
    Char,
    Str,
    Bytes,
    Unit,
    Optional(Box<Shape>),
    NewtypeStruct(Box<Shape>),
    /// A sequence of any length, of elements of one shape.
    Sequence(Box<Shape>),
    /// A tuple: one shape per position.
    Tuple(Vec<Shape>),
    /// A map from strings to values of one shape.
    Mapping(Box<Shape>),
    /// A struct: its fields, by name, in declaration order.
    Struct(Vec<(String, Shape)>),
    /// An enum: its variants, by name.
    Enum(Vec<(String, VariantShape)>),
    /// Whatever the node holds, read by its own type tag.
    Any,
}

/// The payload of an enum variant.
#[derive(Debug, PartialEq)]
pub enum VariantShape {
    Unit,
    Newtype(Shape),
    Tuple(Vec<Shape>),
    Struct(Vec<(String, Shape)>),
}


/// The models of a sequence of typed values.
pub open spec fn data(v: Seq<Typed>) -> Seq<Datum> {
    Seq::new(v.len(), |i: int| v[i].model())
}

/// The models of a sequence of map entries.
pub open spec fn entry_data(v: Seq<(Typed, Typed)>) -> Seq<(Datum, Datum)> {
    Seq::new(v.len(), |i: int| (v[i].0.model(), v[i].1.model()))
}

/// The models of a sequence of named fields.
pub open spec fn field_data(v: Seq<(String, Typed)>) -> Seq<(Seq<char>, Datum)> {
    Seq::new(v.len(), |i: int| (v[i].0@, v[i].1.model()))
}

impl Typed {
    pub open spec fn model(self) -> Datum
        decreases self,
    {
        match self {
            Typed::Unit => Datum::Unit,
            Typed::Bool(b) => Datum::Bool(b),
            Typed::Int(w, v) => Datum::Int(w, v as int),
            Typed::F64(b) => Datum::F64(b),
            Typed::Char(c) => Datum::Char(c),
            Typed::Str(s) => Datum::Str(s@),
            Typed::Bytes(b) => Datum::Bytes(b@),
            Typed::Absent => Datum::Absent,
            Typed::Present(b) => Datum::Present(Box::new((*b).model())),
            Typed::NewtypeStruct(b) => Datum::NewtypeStruct(Box::new((*b).model())),
            Typed::Sequence(v) => Datum::Sequence(
                Seq::new(v.len() as nat, |i: int| if 0 <= i < v.len() { v[i].model() } else { Datum::Unit }),
            ),
            Typed::Mapping(v) => Datum::Mapping(
                Seq::new(
                    v.len() as nat,
                    |i: int|
                        if 0 <= i < v.len() {
                            (v[i].0.model(), v[i].1.model())
                        } else {
                            (Datum::Unit, Datum::Unit)
                        },
                ),
            ),
            Typed::Struct(v) => Datum::Struct(
                Seq::new(
                    v.len() as nat,
                    |i: int|
                        if 0 <= i < v.len() {
                            (v[i].0@, v[i].1.model())
                        } else {
                            (Seq::empty(), Datum::Unit)
                        },
                ),
            ),
            Typed::UnitVariant(n) => Datum::UnitVariant(n@),
            Typed::NewtypeVariant(n, b) => Datum::NewtypeVariant(n@, Box::new((*b).model())),
            Typed::TupleVariant(n, v) => Datum::TupleVariant(
                n@,
                Seq::new(v.len() as nat, |i: int| if 0 <= i < v.len() { v[i].model() } else { Datum::Unit }),
            ),
            Typed::StructVariant(n, v) => Datum::StructVariant(
                n@,
                Seq::new(
                    v.len() as nat,
                    |i: int|
                        if 0 <= i < v.len() {
                            (v[i].0@, v[i].1.model())
                        } else {
                            (Seq::empty(), Datum::Unit)
                        },
                ),
            ),
        }
    }
}

} // verus!
