use vstd::prelude::*;

use crate::error::{EnumShapeError, Error, Expected, IntWidth};
use crate::node::{Json, Node};

verus! {

/// What an integer request of the given width yields on a node: its natural
/// integer when that fits the width, an overflow error when it does not.
pub open spec fn int_request(j: Json, width: IntWidth) -> Result<int, Error> {
    match j.integer() {
        None => Err(j.mismatch(Expected::Integer)),
        Some(v) => if width.holds(v) {
            Ok(v)
        } else {
            Err(Error::NumericOverflow { value: v as i128, target: width })
        },
    }
}

/// What a character request yields on a node.
pub open spec fn char_request(j: Json) -> Result<char, Error> {
    match j {
        Json::String(s) => if s.len() == 1 {
            Ok(s[0])
        } else {
            Err(Error::InvalidCharacter)
        },
        _ => Err(j.mismatch(Expected::String)),
    }
}

/// What a unit request yields on a node.
pub open spec fn unit_request(j: Json) -> Result<(), Error> {
    match j {
        Json::Null => Ok(()),
        _ => Err(j.mismatch(Expected::Null)),
    }
}

/// Reads an integer of the given width: the node's natural 64-bit integer,
/// narrowed with a check.
pub fn read_int(node: &Node, width: IntWidth) -> (r: Result<i128, Error>)
    ensures
        match int_request(node.model(), width) {
            Ok(v) => r == Ok::<i128, Error>(v as i128),
            Err(e) => r == Err::<i128, Error>(e),
        },
{
    match node.get_integer() {
        Err(e) => Err(e),
        Ok(v) => if width.fits(v) {
            Ok(v)
        } else {
            Err(Error::NumericOverflow { value: v, target: width })
        },
    }
}

pub fn read_i8(node: &Node) -> (r: Result<i8, Error>)
    ensures
        match int_request(node.model(), IntWidth::I8) {
            Ok(v) => r == Ok::<i8, Error>(v as i8),
            Err(e) => r == Err::<i8, Error>(e),
        },
{
    match read_int(node, IntWidth::I8) {
        Ok(v) => Ok(v as i8),
        Err(e) => Err(e),
    }
}

pub fn read_i16(node: &Node) -> (r: Result<i16, Error>)
    ensures
        match int_request(node.model(), IntWidth::I16) {
            Ok(v) => r == Ok::<i16, Error>(v as i16),
            Err(e) => r == Err::<i16, Error>(e),
        },
{
    match read_int(node, IntWidth::I16) {
        Ok(v) => Ok(v as i16),
        Err(e) => Err(e),
    }
}

pub fn read_i32(node: &Node) -> (r: Result<i32, Error>)
    ensures
        match int_request(node.model(), IntWidth::I32) {
            Ok(v) => r == Ok::<i32, Error>(v as i32),
            Err(e) => r == Err::<i32, Error>(e),
        },
{
    match read_int(node, IntWidth::I32) {
        Ok(v) => Ok(v as i32),
        Err(e) => Err(e),
    }
}

pub fn read_i64(node: &Node) -> (r: Result<i64, Error>)
    ensures
        match int_request(node.model(), IntWidth::I64) {
            Ok(v) => r == Ok::<i64, Error>(v as i64),
            Err(e) => r == Err::<i64, Error>(e),
        },
{
    match read_int(node, IntWidth::I64) {
        Ok(v) => Ok(v as i64),
        Err(e) => Err(e),
    }
}

pub fn read_u8(node: &Node) -> (r: Result<u8, Error>)
    ensures
        match int_request(node.model(), IntWidth::U8) {
            Ok(v) => r == Ok::<u8, Error>(v as u8),
            Err(e) => r == Err::<u8, Error>(e),
        },
{
    match read_int(node, IntWidth::U8) {
        Ok(v) => Ok(v as u8),
        Err(e) => Err(e),
    }
}

pub fn read_u16(node: &Node) -> (r: Result<u16, Error>)
    ensures
        match int_request(node.model(), IntWidth::U16) {
            Ok(v) => r == Ok::<u16, Error>(v as u16),
            Err(e) => r == Err::<u16, Error>(e),
        },
{
    match read_int(node, IntWidth::U16) {
        Ok(v) => Ok(v as u16),
        Err(e) => Err(e),
    }
}

pub fn read_u32(node: &Node) -> (r: Result<u32, Error>)
    ensures
        match int_request(node.model(), IntWidth::U32) {
            Ok(v) => r == Ok::<u32, Error>(v as u32),
            Err(e) => r == Err::<u32, Error>(e),
        },
{
    match read_int(node, IntWidth::U32) {
        Ok(v) => Ok(v as u32),
        Err(e) => Err(e),
    }
}

pub fn read_u64(node: &Node) -> (r: Result<u64, Error>)
    ensures
        match int_request(node.model(), IntWidth::U64) {
            Ok(v) => r == Ok::<u64, Error>(v as u64),
            Err(e) => r == Err::<u64, Error>(e),
        },
{
    match read_int(node, IntWidth::U64) {
        Ok(v) => Ok(v as u64),
        Err(e) => Err(e),
    }
}

/// Reads a character: a string node of exactly one character.
pub fn read_char(node: &Node) -> (r: Result<char, Error>)
    ensures
        r == char_request(node.model()),
{
    match node.get_string() {
        Err(e) => Err(e),
        Ok(s) => {
            let t = s.as_str();
            if t.unicode_len() == 1 {
                Ok(t.get_char(0))
            } else {
                Err(Error::InvalidCharacter)
            }
        },
    }
}

/// Reads the unit value: a null node.
pub fn read_unit(node: &Node) -> (r: Result<(), Error>)
    ensures
        r == unit_request(node.model()),
{
    match node {
        Node::Null => Ok(()),
        _ => Err(Error::TypeMismatch { expected: Expected::Null, actual: node.kind() }),
    }
}

/// A forward-only cursor over the elements of an array node.
pub struct SeqAccessor<'a> {
    items: &'a Vec<Node>,
    pos: usize,
}

impl<'a> SeqAccessor<'a> {
    /// The elements not yet handed out.
    pub closed spec fn rest(&self) -> Seq<Node> {
        if self.pos <= self.items.len() {
            self.items@.subrange(self.pos as int, self.items.len() as int)
        } else {
            Seq::empty()
        }
    }

    pub fn new(items: &'a Vec<Node>) -> (r: Self)
        ensures
            r.rest() == items@,
    {
        let r = SeqAccessor { items, pos: 0 };
        assert(r.rest() =~= items@);
        r
    }

    /// Hands out the next element, if any is left.
    pub fn next_element(&mut self) -> (r: Option<&'a Node>)
        ensures
            old(self).rest().len() == 0 ==> r is None && final(self).rest() == old(self).rest(),
            old(self).rest().len() > 0 ==> r == Some(&old(self).rest()[0])
                && final(self).rest() == old(self).rest().drop_first(),
    {
        if self.pos < self.items.len() {
            let e = &self.items[self.pos];
            self.pos = self.pos + 1;
            assert(self.rest() =~= old(self).rest().drop_first());
            Some(e)
        } else {
            None
        }
    }
}

/// A two-phase cursor over the members of an object node: each key is
/// handed out first, and its value is then taken once.
pub struct MapAccessor<'a> {
    entries: &'a Vec<(String, Node)>,
    pos: usize,
    pending_value: Option<&'a Node>,
}

impl<'a> MapAccessor<'a> {
    /// The members whose keys are not yet handed out.
    pub closed spec fn rest(&self) -> Seq<(String, Node)> {
        if self.pos <= self.entries.len() {
            self.entries@.subrange(self.pos as int, self.entries.len() as int)
        } else {
            Seq::empty()
        }
    }

    /// The value of the last key handed out, if it was not taken yet.
    pub closed spec fn pending(&self) -> Option<Node> {
        match self.pending_value {
            Some(n) => Some(*n),
            None => None,
        }
    }

    pub fn new(entries: &'a Vec<(String, Node)>) -> (r: Self)
        ensures
            r.rest() == entries@,
            r.pending() is None,
    {
        let r = MapAccessor { entries, pos: 0, pending_value: None };
        assert(r.rest() =~= entries@);
        r
    }

    /// Hands out the next key, and keeps its value for `next_value`.
    pub fn next_key(&mut self) -> (r: Option<&'a String>)
        ensures
            old(self).rest().len() == 0 ==> r is None && final(self).rest() == old(self).rest()
                && final(self).pending() == old(self).pending(),
            old(self).rest().len() > 0 ==> r == Some(&old(self).rest()[0].0)
                && final(self).pending() == Some(old(self).rest()[0].1)
                && final(self).rest() == old(self).rest().drop_first(),
    {
        if self.pos < self.entries.len() {
            let e = &self.entries[self.pos];
            self.pos = self.pos + 1;
            self.pending_value = Some(&e.1);
            assert(self.rest() =~= old(self).rest().drop_first());
            Some(&e.0)
        } else {
            None
        }
    }

    /// Takes the value of the last key handed out; asking before a key is an error.
    pub fn next_value(&mut self) -> (r: Result<&'a Node, Error>)
        ensures
            final(self).rest() == old(self).rest(),
            final(self).pending() is None,
            match old(self).pending() {
                Some(n) => r == Ok::<&Node, Error>(&n),
                None => r == Err::<&Node, Error>(Error::ValueBeforeKey),
            },
    {
        match self.pending_value.take() {
            Some(v) => Ok(v),
            None => Err(Error::ValueBeforeKey),
        }
    }
}

/// A resolved enum encoding: the variant's name and, for the object form,
/// the node of its payload.
pub struct EnumDeserializer<'a> {
    pub variant: &'a String,
    pub value: Option<&'a Node>,
}

/// The enum encoding of a node: a string names a unit variant; an object
/// with exactly one key names a variant by that key and holds its payload.
pub open spec fn enum_request(j: Json) -> Result<(Seq<char>, Option<Json>), Error> {
    match j {
        Json::String(s) => Ok((s, None)),
        Json::Object(es) => if es.len() == 1 {
            Ok((es[0].0, Some(es[0].1)))
        } else {
            Err(Error::InvalidEnumShape(EnumShapeError::NotSingleKey))
        },
        _ => Err(Error::InvalidEnumShape(EnumShapeError::NotStringOrObject)),
    }
}

/// Resolves the enum encoding of a node.
pub fn read_enum<'a>(node: &'a Node) -> (r: Result<EnumDeserializer<'a>, Error>)
    ensures
        match node {
            Node::String(s) => r matches Ok(d) && d.variant == s && d.value is None,
            Node::Object(es) => if es.len() == 1 {
                r matches Ok(d) && d.variant == es[0].0 && d.value == Some(&es[0].1)
            } else {
                r matches Err(e) && e == Error::InvalidEnumShape(EnumShapeError::NotSingleKey)
            },
            _ => r matches Err(e) && e == Error::InvalidEnumShape(
                EnumShapeError::NotStringOrObject,
            ),
        },
        match enum_request(node.model()) {
            Ok((name, payload)) => r matches Ok(d) && d.variant@ == name && match payload {
                Some(p) => d.value matches Some(n) && n.model() == p,
                None => d.value is None,
            },
            Err(e) => r matches Err(e2) && e2 == e,
        },
{
    match node {
        Node::String(s) => Ok(EnumDeserializer { variant: s, value: None }),
        Node::Object(es) => {
            if es.len() == 1 {
                Ok(EnumDeserializer { variant: &es[0].0, value: Some(&es[0].1) })
            } else {
                Err(Error::InvalidEnumShape(EnumShapeError::NotSingleKey))
            }
        },
        _ => Err(Error::InvalidEnumShape(EnumShapeError::NotStringOrObject)),
    }
}

impl<'a> EnumDeserializer<'a> {
    /// Accepts a unit variant: only the string form names one.
    pub fn unit_variant(&self) -> (r: Result<(), Error>)
        ensures
            match self.value {
                None => r is Ok,
                Some(_) => r == Err::<(), Error>(
                    Error::InvalidEnumShape(EnumShapeError::UnitVariantAsObjectKey),
                ),
            },
    {
        match self.value {
            None => Ok(()),
            Some(_) => Err(Error::InvalidEnumShape(EnumShapeError::UnitVariantAsObjectKey)),
        }
    }

    /// The payload of a newtype variant.
    pub fn newtype_variant(&self) -> (r: Result<&'a Node, Error>)
        ensures
            match self.value {
                Some(n) => r == Ok::<&Node, Error>(n),
                None => r == Err::<&Node, Error>(
                    Error::InvalidEnumShape(EnumShapeError::MissingPayload),
                ),
            },
    {
        match self.value {
            Some(n) => Ok(n),
            None => Err(Error::InvalidEnumShape(EnumShapeError::MissingPayload)),
        }
    }

    /// The elements of a tuple variant's payload.
    pub fn tuple_variant(&self) -> (r: Result<SeqAccessor<'a>, Error>)
        ensures
            match self.value {
                Some(n) => match n {
                    Node::Array(v) => r matches Ok(a) && a.rest() == v@,
                    _ => r matches Err(e) && e == n.model().mismatch(Expected::Array),
                },
                None => r matches Err(e) && e == Error::InvalidEnumShape(
                    EnumShapeError::MissingPayload,
                ),
            },
    {
        match self.value {
            Some(n) => match n.get_array() {
                Ok(v) => Ok(SeqAccessor::new(v)),
                Err(e) => Err(e),
            },
            None => Err(Error::InvalidEnumShape(EnumShapeError::MissingPayload)),
        }
    }

    /// The members of a struct variant's payload.
    pub fn struct_variant(&self) -> (r: Result<MapAccessor<'a>, Error>)
        ensures
            match self.value {
                Some(n) => match n {
                    Node::Object(v) => r matches Ok(a) && a.rest() == v@ && a.pending() is None,
                    _ => r matches Err(e) && e == n.model().mismatch(Expected::Object),
                },
                None => r matches Err(e) && e == Error::InvalidEnumShape(
                    EnumShapeError::MissingPayload,
                ),
            },
    {
        match self.value {
            Some(n) => match n.get_object() {
                Ok(v) => Ok(MapAccessor::new(v)),
                Err(e) => Err(e),
            },
            None => Err(Error::InvalidEnumShape(EnumShapeError::MissingPayload)),
        }
    }
}

} // verus!
