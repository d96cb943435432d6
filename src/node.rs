use vstd::prelude::*;

use crate::error::{Error, Expected, NodeKind};

verus! {

/// A node of a parsed JSON document, with its children.
///
/// A double is held as its IEEE-754 bit pattern.
#[derive(Debug, PartialEq)]
pub enum Node {
    Null,
    Bool(bool),
    Int64(i64),
    UInt64(u64),
    Double(u64),
    String(String),
    Array(Vec<Node>),
    /// The members in document order.
    Object(Vec<(String, Node)>),
}

/// The mathematical model of a node.
pub ghost enum Json {
    Null,
    Bool(bool),
    Int64(i64),
    UInt64(u64),
    Double(u64),
    String(Seq<char>),
    Array(Seq<Json>),
    Object(Seq<(Seq<char>, Json)>),
}

impl Json {
    pub open spec fn kind(self) -> NodeKind {
        match self {
            Json::Null => NodeKind::Null,
            Json::Bool(_) => NodeKind::Bool,
            Json::Int64(_) => NodeKind::Int64,
            Json::UInt64(_) => NodeKind::UInt64,
            Json::Double(_) => NodeKind::Double,
            Json::String(_) => NodeKind::String,
            Json::Array(_) => NodeKind::Array,
            Json::Object(_) => NodeKind::Object,
        }
    }

    /// A type mismatch between a request and this node.
    pub open spec fn mismatch(self, expected: Expected) -> Error {
        Error::TypeMismatch { expected, actual: self.kind() }
    }

    /// The node's natural 64-bit integer, signed or unsigned, as a mathematical integer.
    pub open spec fn integer(self) -> Option<int> {
        match self {
            Json::Int64(i) => Some(i as int),
            Json::UInt64(u) => Some(u as int),
            _ => None,
        }
    }
}

/// The models of a sequence of nodes.
pub open spec fn nodes(v: Seq<Node>) -> Seq<Json> {
    Seq::new(v.len(), |i: int| v[i].model())
}

/// The models of a sequence of object members.
pub open spec fn members(v: Seq<(String, Node)>) -> Seq<(Seq<char>, Json)> {
    Seq::new(v.len(), |i: int| (v[i].0@, v[i].1.model()))
}

impl Node {
    pub open spec fn model(self) -> Json
        decreases self,
    {
        match self {
            Node::Null => Json::Null,
            Node::Bool(b) => Json::Bool(b),
            Node::Int64(i) => Json::Int64(i),
            Node::UInt64(u) => Json::UInt64(u),
            Node::Double(d) => Json::Double(d),
            Node::String(s) => Json::String(s@),
            Node::Array(v) => Json::Array(
                Seq::new(
                    v.len() as nat,
                    |i: int|
                        if 0 <= i < v.len() {
                            v[i].model()
                        } else {
                            Json::Null
                        },
                ),
            ),
            Node::Object(v) => Json::Object(
                Seq::new(
                    v.len() as nat,
                    |i: int|
                        if 0 <= i < v.len() {
                            (v[i].0@, v[i].1.model())
                        } else {
                            (Seq::empty(), Json::Null)
                        },
                ),
            ),
        }
    }

    /// The node's type tag.
    pub fn kind(&self) -> (k: NodeKind)
        ensures
            k == self.model().kind(),
    {
        match self {
            Node::Null => NodeKind::Null,
            Node::Bool(_) => NodeKind::Bool,
            Node::Int64(_) => NodeKind::Int64,
            Node::UInt64(_) => NodeKind::UInt64,
            Node::Double(_) => NodeKind::Double,
            Node::String(_) => NodeKind::String,
            Node::Array(_) => NodeKind::Array,
            Node::Object(_) => NodeKind::Object,
        }
    }

    pub fn is_null(&self) -> (r: bool)
        ensures
            r == (self.model() is Null),
    {
        match self {
            Node::Null => true,
            _ => false,
        }
    }

    pub fn get_bool(&self) -> (r: Result<bool, Error>)
        ensures
            r == (match self.model() {
                Json::Bool(b) => Ok(b),
                j => Err(j.mismatch(Expected::Bool)),
            }),
    {
        match self {
            Node::Bool(b) => Ok(*b),
            _ => Err(Error::TypeMismatch { expected: Expected::Bool, actual: self.kind() }),
        }
    }

    /// The node's integer, whichever of the two 64-bit representations it has.
    pub fn get_integer(&self) -> (r: Result<i128, Error>)
        ensures
            r == (match self.model().integer() {
                Some(v) => Ok(v as i128),
                None => Err(self.model().mismatch(Expected::Integer)),
            }),
    {
        match self {
            Node::Int64(i) => Ok(*i as i128),
            Node::UInt64(u) => Ok(*u as i128),
            _ => Err(Error::TypeMismatch { expected: Expected::Integer, actual: self.kind() }),
        }
    }

    /// The bits of a double node.
    pub fn get_double(&self) -> (r: Result<u64, Error>)
        ensures
            r == (match self.model() {
                Json::Double(d) => Ok(d),
                j => Err(j.mismatch(Expected::Double)),
            }),
    {
        match self {
            Node::Double(d) => Ok(*d),
            _ => Err(Error::TypeMismatch { expected: Expected::Double, actual: self.kind() }),
        }
    }

    pub fn get_string(&self) -> (r: Result<&String, Error>)
        ensures
            match self.model() {
                Json::String(s) => r is Ok && r->Ok_0@ == s,
                j => r == Err::<&String, Error>(j.mismatch(Expected::String)),
            },
    {
        match self {
            Node::String(s) => Ok(s),
            _ => Err(Error::TypeMismatch { expected: Expected::String, actual: self.kind() }),
        }
    }

    pub fn get_array(&self) -> (r: Result<&Vec<Node>, Error>)
        ensures
            match *self {
                Node::Array(v) => r == Ok::<&Vec<Node>, Error>(&v),
                _ => r == Err::<&Vec<Node>, Error>(self.model().mismatch(Expected::Array)),
            },
    {
        match self {
            Node::Array(v) => Ok(v),
            _ => Err(Error::TypeMismatch { expected: Expected::Array, actual: self.kind() }),
        }
    }

    pub fn get_object(&self) -> (r: Result<&Vec<(String, Node)>, Error>)
        ensures
            match *self {
                Node::Object(v) => r == Ok::<&Vec<(String, Node)>, Error>(&v),
                _ => r == Err::<&Vec<(String, Node)>, Error>(
                    self.model().mismatch(Expected::Object),
                ),
            },
    {
        match self {
            Node::Object(v) => Ok(v),
            _ => Err(Error::TypeMismatch { expected: Expected::Object, actual: self.kind() }),
        }
    }
}

} // verus!
