use vstd::prelude::*;

use crate::de::{
    char_request, int_request, read_char, read_enum, read_int, read_u8, read_unit, unit_request,
    MapAccessor, SeqAccessor,
};
use crate::error::{EnumShapeError, Error, Expected, IntWidth};
use crate::node::{members, nodes, Json, Node};
use crate::typed::{data, field_data, entry_data, Datum, Shape, Typed, VariantShape};

verus! {

/// The position of the first member named `name`.
pub open spec fn find_member(es: Seq<(Seq<char>, Json)>, name: Seq<char>) -> Option<int>
    decreases es.len(),
{
    if es.len() == 0 {
        None
    } else {
        match find_member(es.subrange(0, es.len() - 1), name) {
            Some(k) => Some(k),
            None => if es[es.len() - 1].0 == name {
                Some(es.len() - 1)
            } else {
                None
            },
        }
    }
}

/// The position of the first variant named `name`.
pub open spec fn find_variant(vs: Seq<(String, VariantShape)>, name: Seq<char>) -> Option<int>
    decreases vs.len(),
{
    if vs.len() == 0 {
        None
    } else {
        match find_variant(vs.subrange(0, vs.len() - 1), name) {
            Some(k) => Some(k),
            None => if vs[vs.len() - 1].0@ == name {
                Some(vs.len() - 1)
            } else {
                None
            },
        }
    }
}

/// What reading node `j` as a value of shape `s` yields: the binding
/// protocol driven through the deserialization adapter.
pub open spec fn de(j: Json, s: Shape) -> Result<Datum, Error>
    decreases j, s,
{
    match s {
        Shape::Bool => match j {
            Json::Bool(b) => Ok(Datum::Bool(b)),
            _ => Err(j.mismatch(Expected::Bool)),
        },
        Shape::Int(w) => match int_request(j, w) {
            Ok(v) => Ok(Datum::Int(w, v)),
            Err(e) => Err(e),
        },
        Shape::F64 => match j {
            Json::Double(b) => Ok(Datum::F64(b)),
            _ => Err(j.mismatch(Expected::Double)),
        },
        Shape::Char => match char_request(j) {
            Ok(c) => Ok(Datum::Char(c)),
            Err(e) => Err(e),
        },
        Shape::Str => match j {
            Json::String(t) => Ok(Datum::Str(t)),
            _ => Err(j.mismatch(Expected::String)),
        },
        Shape::Bytes => match j {
            Json::Array(items) => match de_bytes(items) {
                Ok(b) => Ok(Datum::Bytes(b)),
                Err(e) => Err(e),
            },
            _ => Err(j.mismatch(Expected::Array)),
        },
        Shape::Unit => match unit_request(j) {
            Ok(_) => Ok(Datum::Unit),
            Err(e) => Err(e),
        },
        Shape::Optional(b) => if j is Null {
            Ok(Datum::Absent)
        } else {
            match de(j, *b) {
                Ok(d) => Ok(Datum::Present(Box::new(d))),
                Err(e) => Err(e),
            }
        },
        Shape::NewtypeStruct(b) => match de(j, *b) {
            Ok(d) => Ok(Datum::NewtypeStruct(Box::new(d))),
            Err(e) => Err(e),
        },
        Shape::Sequence(b) => match j {
            Json::Array(items) => match de_items(items, *b) {
                Ok(ds) => Ok(Datum::Sequence(ds)),
                Err(e) => Err(e),
            },
            _ => Err(j.mismatch(Expected::Array)),
        },
        Shape::Tuple(shapes) => match j {
            Json::Array(items) => match de_tuple(items, shapes@) {
                Ok(ds) => Ok(Datum::Sequence(ds)),
                Err(e) => Err(e),
            },
            _ => Err(j.mismatch(Expected::Array)),
        },
        Shape::Mapping(b) => match j {
            Json::Object(es) => match de_entries(es, *b) {
                Ok(ds) => Ok(Datum::Mapping(ds)),
                Err(e) => Err(e),
            },
            _ => Err(j.mismatch(Expected::Object)),
        },
        Shape::Struct(fields) => match j {
            Json::Object(es) => match de_struct(es, fields@) {
                Ok(fs) => Ok(Datum::Struct(fs)),
                Err(e) => Err(e),
            },
            _ => Err(j.mismatch(Expected::Object)),
        },
        Shape::Enum(variants) => match j {
            Json::String(name) => match find_variant(variants@, name) {
                None => Err(Error::UnknownVariant),
                Some(k) => if 0 <= k < variants.len() {
                    match variants[k].1 {
                        VariantShape::Unit => Ok(Datum::UnitVariant(name)),
                        _ => Err(Error::InvalidEnumShape(EnumShapeError::MissingPayload)),
                    }
                } else {
                    Err(Error::UnknownVariant)
                },
            },
            Json::Object(es) => if es.len() == 1 {
                match find_variant(variants@, es[0].0) {
                    None => Err(Error::UnknownVariant),
                    Some(k) => if 0 <= k < variants.len() {
                        de_payload(es[0].0, es[0].1, variants[k].1)
                    } else {
                        Err(Error::UnknownVariant)
                    },
                }
            } else {
                Err(Error::InvalidEnumShape(EnumShapeError::NotSingleKey))
            },
            _ => Err(Error::InvalidEnumShape(EnumShapeError::NotStringOrObject)),
        },
        Shape::Any => match j {
            Json::Null => Ok(Datum::Unit),
            Json::Bool(b) => Ok(Datum::Bool(b)),
            Json::Int64(i) => Ok(Datum::Int(IntWidth::I64, i as int)),
            Json::UInt64(u) => Ok(Datum::Int(IntWidth::U64, u as int)),
            Json::Double(b) => Ok(Datum::F64(b)),
            Json::String(t) => Ok(Datum::Str(t)),
            Json::Array(items) => match de_items(items, Shape::Any) {
                Ok(ds) => Ok(Datum::Sequence(ds)),
                Err(e) => Err(e),
            },
            Json::Object(es) => match de_entries(es, Shape::Any) {
                Ok(ds) => Ok(Datum::Mapping(ds)),
                Err(e) => Err(e),
            },
        },
    }
}

/// The payload of a variant named `name`, written as the value of its key.
pub open spec fn de_payload(name: Seq<char>, p: Json, v: VariantShape) -> Result<Datum, Error>
    decreases p, v,
{
    match v {
        VariantShape::Unit => Err(Error::InvalidEnumShape(EnumShapeError::UnitVariantAsObjectKey)),
        VariantShape::Newtype(s) => match de(p, s) {
            Ok(d) => Ok(Datum::NewtypeVariant(name, Box::new(d))),
            Err(e) => Err(e),
        },
        VariantShape::Tuple(shapes) => match p {
            Json::Array(items) => match de_tuple(items, shapes@) {
                Ok(ds) => Ok(Datum::TupleVariant(name, ds)),
                Err(e) => Err(e),
            },
            _ => Err(p.mismatch(Expected::Array)),
        },
        VariantShape::Struct(fields) => match p {
            Json::Object(es) => match de_struct(es, fields@) {
                Ok(fs) => Ok(Datum::StructVariant(name, fs)),
                Err(e) => Err(e),
            },
            _ => Err(p.mismatch(Expected::Object)),
        },
    }
}

/// The bytes of an array of integers that each fit a byte.
pub open spec fn de_bytes(items: Seq<Json>) -> Result<Seq<u8>, Error>
    decreases items.len(),
{
    if items.len() == 0 {
        Ok(Seq::empty())
    } else {
        match de_bytes(items.subrange(0, items.len() - 1)) {
            Err(e) => Err(e),
            Ok(bs) => match int_request(items[items.len() - 1], IntWidth::U8) {
                Err(e) => Err(e),
                Ok(v) => Ok(bs.push(v as u8)),
            },
        }
    }
}

/// The elements of a sequence, all of shape `s`.
pub open spec fn de_items(items: Seq<Json>, s: Shape) -> Result<Seq<Datum>, Error>
    decreases items, s,
{
    if items.len() == 0 {
        Ok(Seq::empty())
    } else {
        match de_items(items.subrange(0, items.len() - 1), s) {
            Err(e) => Err(e),
            Ok(ds) => match de(items[items.len() - 1], s) {
                Err(e) => Err(e),
                Ok(d) => Ok(ds.push(d)),
            },
        }
    }
}

/// The elements of a tuple: as many as it has positions, one shape each.
pub open spec fn de_tuple(items: Seq<Json>, shapes: Seq<Shape>) -> Result<Seq<Datum>, Error>
    decreases items, shapes,
{
    if items.len() != shapes.len() {
        Err(Error::InvalidLength { wanted: shapes.len() as usize, found: items.len() as usize })
    } else if items.len() == 0 {
        Ok(Seq::empty())
    } else {
        match de_tuple(items.subrange(0, items.len() - 1), shapes.subrange(0, shapes.len() - 1)) {
            Err(e) => Err(e),
            Ok(ds) => match de(items[items.len() - 1], shapes[shapes.len() - 1]) {
                Err(e) => Err(e),
                Ok(d) => Ok(ds.push(d)),
            },
        }
    }
}

/// The entries of a map: string keys, values of shape `s`.
pub open spec fn de_entries(es: Seq<(Seq<char>, Json)>, s: Shape) -> Result<
    Seq<(Datum, Datum)>,
    Error,
>
    decreases es, s,
{
    if es.len() == 0 {
        Ok(Seq::empty())
    } else {
        match de_entries(es.subrange(0, es.len() - 1), s) {
            Err(e) => Err(e),
            Ok(ds) => match de(es[es.len() - 1].1, s) {
                Err(e) => Err(e),
                Ok(d) => Ok(ds.push((Datum::Str(es[es.len() - 1].0), d))),
            },
        }
    }
}

/// The fields of a struct, in declaration order: each is read from the first
/// member of its name; a missing optional field is absent, any other missing
/// field an error. Members that name no field are passed over.
pub open spec fn de_struct(es: Seq<(Seq<char>, Json)>, fields: Seq<(String, Shape)>) -> Result<
    Seq<(Seq<char>, Datum)>,
    Error,
>
    decreases es, fields,
{
    if fields.len() == 0 {
        Ok(Seq::empty())
    } else {
        let last = fields.len() - 1;
        match de_struct(es, fields.subrange(0, last)) {
            Err(e) => Err(e),
            Ok(fs) => match find_member(es, fields[last].0@) {
                Some(k) => if 0 <= k < es.len() {
                    match de(es[k].1, fields[last].1) {
                        Err(e) => Err(e),
                        Ok(d) => Ok(fs.push((fields[last].0@, d))),
                    }
                } else {
                    Err(Error::MissingField { index: last as usize })
                },
                None => match fields[last].1 {
                    Shape::Optional(_) => Ok(fs.push((fields[last].0@, Datum::Absent))),
                    _ => Err(Error::MissingField { index: last as usize }),
                },
            },
        }
    }
}


/// The model of an outcome of deserialization.
pub open spec fn typed_outcome(r: Result<Typed, Error>) -> Result<Datum, Error> {
    match r {
        Ok(t) => Ok(t.model()),
        Err(e) => Err(e),
    }
}

proof fn lemma_find_member_prefix(es: Seq<(Seq<char>, Json)>, name: Seq<char>, k: int)
    requires
        0 <= k <= es.len(),
        find_member(es.subrange(0, k), name) is Some,
    ensures
        find_member(es, name) == find_member(es.subrange(0, k), name),
    decreases es.len(),
{
    if k < es.len() {
        let p = es.subrange(0, es.len() - 1);
        assert(p.subrange(0, k) =~= es.subrange(0, k));
        lemma_find_member_prefix(p, name, k);
    } else {
        assert(es.subrange(0, k) =~= es);
    }
}

proof fn lemma_find_member_range(es: Seq<(Seq<char>, Json)>, name: Seq<char>)
    ensures
        find_member(es, name) matches Some(k) ==> 0 <= k < es.len(),
    decreases es.len(),
{
    if es.len() > 0 {
        lemma_find_member_range(es.subrange(0, es.len() - 1), name);
    }
}

proof fn lemma_find_variant_prefix(vs: Seq<(String, VariantShape)>, name: Seq<char>, k: int)
    requires
        0 <= k <= vs.len(),
        find_variant(vs.subrange(0, k), name) is Some,
    ensures
        find_variant(vs, name) == find_variant(vs.subrange(0, k), name),
    decreases vs.len(),
{
    if k < vs.len() {
        let p = vs.subrange(0, vs.len() - 1);
        assert(p.subrange(0, k) =~= vs.subrange(0, k));
        lemma_find_variant_prefix(p, name, k);
    } else {
        assert(vs.subrange(0, k) =~= vs);
    }
}

proof fn lemma_find_variant_range(vs: Seq<(String, VariantShape)>, name: Seq<char>)
    ensures
        find_variant(vs, name) matches Some(k) ==> 0 <= k < vs.len(),
    decreases vs.len(),
{
    if vs.len() > 0 {
        lemma_find_variant_range(vs.subrange(0, vs.len() - 1), name);
    }
}

proof fn lemma_bytes_prefix_err(items: Seq<Json>, k: int)
    requires
        0 <= k <= items.len(),
        de_bytes(items.subrange(0, k)) is Err,
    ensures
        de_bytes(items) == de_bytes(items.subrange(0, k)),
    decreases items.len(),
{
    if k < items.len() {
        let p = items.subrange(0, items.len() - 1);
        assert(p.subrange(0, k) =~= items.subrange(0, k));
        lemma_bytes_prefix_err(p, k);
    } else {
        assert(items.subrange(0, k) =~= items);
    }
}

proof fn lemma_items_prefix_err(items: Seq<Json>, s: Shape, k: int)
    requires
        0 <= k <= items.len(),
        de_items(items.subrange(0, k), s) is Err,
    ensures
        de_items(items, s) == de_items(items.subrange(0, k), s),
    decreases items.len(),
{
    if k < items.len() {
        let p = items.subrange(0, items.len() - 1);
        assert(p.subrange(0, k) =~= items.subrange(0, k));
        lemma_items_prefix_err(p, s, k);
    } else {
        assert(items.subrange(0, k) =~= items);
    }
}

proof fn lemma_tuple_prefix_err(items: Seq<Json>, shapes: Seq<Shape>, k: int)
    requires
        items.len() == shapes.len(),
        0 <= k <= items.len(),
        de_tuple(items.subrange(0, k), shapes.subrange(0, k)) is Err,
    ensures
        de_tuple(items, shapes) == de_tuple(items.subrange(0, k), shapes.subrange(0, k)),
    decreases items.len(),
{
    if k < items.len() {
        let p = items.subrange(0, items.len() - 1);
        let q = shapes.subrange(0, shapes.len() - 1);
        assert(p.subrange(0, k) =~= items.subrange(0, k));
        assert(q.subrange(0, k) =~= shapes.subrange(0, k));
        lemma_tuple_prefix_err(p, q, k);
    } else {
        assert(items.subrange(0, k) =~= items);
        assert(shapes.subrange(0, k) =~= shapes);
    }
}

proof fn lemma_entries_prefix_err(es: Seq<(Seq<char>, Json)>, s: Shape, k: int)
    requires
        0 <= k <= es.len(),
        de_entries(es.subrange(0, k), s) is Err,
    ensures
        de_entries(es, s) == de_entries(es.subrange(0, k), s),
    decreases es.len(),
{
    if k < es.len() {
        let p = es.subrange(0, es.len() - 1);
        assert(p.subrange(0, k) =~= es.subrange(0, k));
        lemma_entries_prefix_err(p, s, k);
    } else {
        assert(es.subrange(0, k) =~= es);
    }
}

proof fn lemma_struct_prefix_err(es: Seq<(Seq<char>, Json)>, fields: Seq<(String, Shape)>, k: int)
    requires
        0 <= k <= fields.len(),
        de_struct(es, fields.subrange(0, k)) is Err,
    ensures
        de_struct(es, fields) == de_struct(es, fields.subrange(0, k)),
    decreases fields.len(),
{
    if k < fields.len() {
        let p = fields.subrange(0, fields.len() - 1);
        assert(p.subrange(0, k) =~= fields.subrange(0, k));
        lemma_struct_prefix_err(es, p, k);
    } else {
        assert(fields.subrange(0, k) =~= fields);
    }
}

/// The position of the first member whose key is `name`.
fn find_member_index(es: &Vec<(String, Node)>, name: &String) -> (r: Option<usize>)
    ensures
        match r {
            Some(k) => find_member(members(es@), name@) == Some(k as int),
            None => find_member(members(es@), name@) is None,
        },
{
    let ghost m = members(es@);
    let mut i: usize = 0;
    assert(m.subrange(0, 0) =~= Seq::<(Seq<char>, Json)>::empty());
    while i < es.len()
        invariant
            i <= es@.len(),
            m == members(es@),
            find_member(m.subrange(0, i as int), name@) is None,
        decreases es@.len() - i,
    {
        let ghost p = m.subrange(0, i + 1);
        assert(p.subrange(0, i as int) =~= m.subrange(0, i as int));
        assert(p[i as int] == m[i as int]);
        if es[i].0 == *name {
            proof {
                lemma_find_member_prefix(m, name@, i + 1);
            }
            return Some(i);
        }
        i = i + 1;
    }
    assert(m.subrange(0, i as int) =~= m);
    None
}

/// The position of the first variant named `name`.
fn find_variant_index(vs: &Vec<(String, VariantShape)>, name: &String) -> (r: Option<usize>)
    ensures
        match r {
            Some(k) => find_variant(vs@, name@) == Some(k as int),
            None => find_variant(vs@, name@) is None,
        },
{
    let mut i: usize = 0;
    assert(vs@.subrange(0, 0) =~= Seq::<(String, VariantShape)>::empty());
    while i < vs.len()
        invariant
            i <= vs@.len(),
            find_variant(vs@.subrange(0, i as int), name@) is None,
        decreases vs@.len() - i,
    {
        let ghost p = vs@.subrange(0, i + 1);
        assert(p.subrange(0, i as int) =~= vs@.subrange(0, i as int));
        if vs[i].0 == *name {
            proof {
                lemma_find_variant_prefix(vs@, name@, i + 1);
            }
            return Some(i);
        }
        i = i + 1;
    }
    assert(vs@.subrange(0, i as int) =~= vs@);
    None
}

fn read_bytes(items: &Vec<Node>) -> (r: Result<Vec<u8>, Error>)
    ensures
        match de_bytes(nodes(items@)) {
            Ok(b) => r matches Ok(v) && v@ == b,
            Err(e) => r matches Err(e2) && e2 == e,
        },
{
    let ghost m = nodes(items@);
    let mut out: Vec<u8> = Vec::new();
    let mut i: usize = 0;
    assert(m.subrange(0, 0) =~= Seq::<Json>::empty());
    while i < items.len()
        invariant
            i <= items@.len(),
            m == nodes(items@),
            de_bytes(m.subrange(0, i as int)) == Ok::<Seq<u8>, Error>(out@),
        decreases items@.len() - i,
    {
        let ghost p = m.subrange(0, i + 1);
        assert(p.subrange(0, i as int) =~= m.subrange(0, i as int));
        assert(p[i as int] == items@[i as int].model());
        match read_u8(&items[i]) {
            Err(e) => {
                proof {
                    lemma_bytes_prefix_err(m, i + 1);
                }
                return Err(e);
            },
            Ok(b) => {
                out.push(b);
            },
        }
        i = i + 1;
    }
    assert(m.subrange(0, i as int) =~= m);
    Ok(out)
}

/// The elements of an array, each of shape `shape`, taken through a cursor.
fn read_sequence(items: &Vec<Node>, shape: &Shape) -> (r: Result<Vec<Typed>, Error>)
    ensures
        match de_items(nodes(items@), *shape) {
            Ok(ds) => r matches Ok(v) && data(v@) == ds,
            Err(e) => r matches Err(e2) && e2 == e,
        },
    decreases items, shape,
{
    let ghost m = nodes(items@);
    let mut acc = SeqAccessor::new(items);
    let mut out: Vec<Typed> = Vec::new();
    let mut i: usize = 0;
    assert(m.subrange(0, 0) =~= Seq::<Json>::empty());
    assert(data(out@) =~= Seq::<Datum>::empty());
    while i < items.len()
        invariant
            i <= items@.len(),
            m == nodes(items@),
            acc.rest() == items@.subrange(i as int, items@.len() as int),
            de_items(m.subrange(0, i as int), *shape) == Ok::<Seq<Datum>, Error>(data(out@)),
        decreases items@.len() - i,
    {
        let ghost p = m.subrange(0, i + 1);
        assert(p.subrange(0, i as int) =~= m.subrange(0, i as int));
        assert(p[i as int] == items@[i as int].model());
        let next = acc.next_element();
        assert(acc.rest() =~= items@.subrange(i + 1, items@.len() as int));
        let element = next.unwrap();
        assert(*element == items@[i as int]);
        proof {
            assert(decreases_to!(*items => items@[i as int]));
        }
        match from_element(element, shape) {
            Err(e) => {
                proof {
                    lemma_items_prefix_err(m, *shape, i + 1);
                }
                return Err(e);
            },
            Ok(t) => {
                let ghost before = out@;
                let ghost d = t.model();
                out.push(t);
                assert(data(out@) =~= data(before).push(d));
            },
        }
        i = i + 1;
    }
    assert(m.subrange(0, i as int) =~= m);
    Ok(out)
}


/// The elements of a tuple, one shape per position.
fn read_tuple(items: &Vec<Node>, shapes: &Vec<Shape>) -> (r: Result<Vec<Typed>, Error>)
    ensures
        match de_tuple(nodes(items@), shapes@) {
            Ok(ds) => r matches Ok(v) && data(v@) == ds,
            Err(e) => r matches Err(e2) && e2 == e,
        },
    decreases items, shapes,
{
    let ghost m = nodes(items@);
    if items.len() != shapes.len() {
        return Err(Error::InvalidLength { wanted: shapes.len(), found: items.len() });
    }
    let mut out: Vec<Typed> = Vec::new();
    let mut i: usize = 0;
    assert(m.subrange(0, 0) =~= Seq::<Json>::empty());
    assert(shapes@.subrange(0, 0) =~= Seq::<Shape>::empty());
    assert(data(out@) =~= Seq::<Datum>::empty());
    while i < items.len()
        invariant
            i <= items@.len(),
            items@.len() == shapes@.len(),
            m == nodes(items@),
            de_tuple(m.subrange(0, i as int), shapes@.subrange(0, i as int)) == Ok::<
                Seq<Datum>,
                Error,
            >(data(out@)),
        decreases items@.len() - i,
    {
        let ghost p = m.subrange(0, i + 1);
        let ghost q = shapes@.subrange(0, i + 1);
        assert(p.subrange(0, i as int) =~= m.subrange(0, i as int));
        assert(q.subrange(0, i as int) =~= shapes@.subrange(0, i as int));
        assert(p[i as int] == items@[i as int].model());
        proof {
            assert(decreases_to!(*items => items@[i as int]));
        }
        match from_element(&items[i], &shapes[i]) {
            Err(e) => {
                proof {
                    lemma_tuple_prefix_err(m, shapes@, i + 1);
                }
                return Err(e);
            },
            Ok(t) => {
                let ghost before = out@;
                let ghost d = t.model();
                out.push(t);
                assert(data(out@) =~= data(before).push(d));
            },
        }
        i = i + 1;
    }
    assert(m.subrange(0, i as int) =~= m);
    assert(shapes@.subrange(0, i as int) =~= shapes@);
    Ok(out)
}

/// The entries of an object read as a map, taken through a two-phase cursor.
fn read_mapping(es: &Vec<(String, Node)>, shape: &Shape) -> (r: Result<Vec<(Typed, Typed)>, Error>)
    ensures
        match de_entries(members(es@), *shape) {
            Ok(ds) => r matches Ok(v) && entry_data(v@) == ds,
            Err(e) => r matches Err(e2) && e2 == e,
        },
    decreases es, shape,
{
    let ghost m = members(es@);
    let mut acc = MapAccessor::new(es);
    let mut out: Vec<(Typed, Typed)> = Vec::new();
    let mut i: usize = 0;
    assert(m.subrange(0, 0) =~= Seq::<(Seq<char>, Json)>::empty());
    assert(entry_data(out@) =~= Seq::<(Datum, Datum)>::empty());
    while i < es.len()
        invariant
            i <= es@.len(),
            m == members(es@),
            acc.rest() == es@.subrange(i as int, es@.len() as int),
            acc.pending() is None,
            de_entries(m.subrange(0, i as int), *shape) == Ok::<Seq<(Datum, Datum)>, Error>(
                entry_data(out@),
            ),
        decreases es@.len() - i,
    {
        let ghost p = m.subrange(0, i + 1);
        assert(p.subrange(0, i as int) =~= m.subrange(0, i as int));
        assert(p[i as int] == (es@[i as int].0@, es@[i as int].1.model()));
        let key = acc.next_key().unwrap();
        let value = match acc.next_value() {
            Ok(v) => v,
            Err(e) => {
                return Err(e);
            },
        };
        assert(acc.rest() =~= es@.subrange(i + 1, es@.len() as int));
        assert(*value == es@[i as int].1);
        proof {
            assert(decreases_to!(*es => es@[i as int]));
            assert(decreases_to!(es@[i as int] => es@[i as int].1));
        }
        match from_element(value, shape) {
            Err(e) => {
                proof {
                    lemma_entries_prefix_err(m, *shape, i + 1);
                }
                return Err(e);
            },
            Ok(t) => {
                let ghost before = out@;
                let k = Typed::Str(key.clone());
                let ghost d = (k.model(), t.model());
                out.push((k, t));
                assert(entry_data(out@) =~= entry_data(before).push(d));
            },
        }
        i = i + 1;
    }
    assert(m.subrange(0, i as int) =~= m);
    Ok(out)
}

/// The fields of a struct read from the members of an object.
fn read_struct(es: &Vec<(String, Node)>, fields: &Vec<(String, Shape)>) -> (r: Result<
    Vec<(String, Typed)>,
    Error,
>)
    ensures
        match de_struct(members(es@), fields@) {
            Ok(fs) => r matches Ok(v) && field_data(v@) == fs,
            Err(e) => r matches Err(e2) && e2 == e,
        },
    decreases es, fields,
{
    let ghost m = members(es@);
    let mut out: Vec<(String, Typed)> = Vec::new();
    let mut i: usize = 0;
    assert(fields@.subrange(0, 0) =~= Seq::<(String, Shape)>::empty());
    assert(field_data(out@) =~= Seq::<(Seq<char>, Datum)>::empty());
    while i < fields.len()
        invariant
            i <= fields@.len(),
            m == members(es@),
            de_struct(m, fields@.subrange(0, i as int)) == Ok::<Seq<(Seq<char>, Datum)>, Error>(
                field_data(out@),
            ),
        decreases fields@.len() - i,
    {
        let ghost q = fields@.subrange(0, i + 1);
        assert(q.subrange(0, i as int) =~= fields@.subrange(0, i as int));
        assert(q[i as int] == fields@[i as int]);
        proof {
            lemma_find_member_range(m, fields@[i as int].0@);
        }
        assert(de_struct(m, q) == match de_struct(m, fields@.subrange(0, i as int)) {
            Err(e) => Err(e),
            Ok(fs) => match find_member(m, fields@[i as int].0@) {
                Some(k) => if 0 <= k < m.len() {
                    match de(m[k].1, fields@[i as int].1) {
                        Err(e) => Err(e),
                        Ok(d) => Ok(fs.push((fields@[i as int].0@, d))),
                    }
                } else {
                    Err(Error::MissingField { index: i })
                },
                None => match fields@[i as int].1 {
                    Shape::Optional(_) => Ok(fs.push((fields@[i as int].0@, Datum::Absent))),
                    _ => Err(Error::MissingField { index: i }),
                },
            },
        });
        let found = find_member_index(es, &fields[i].0);
        match found {
            Some(k) => {
                assert(m[k as int] == (es@[k as int].0@, es@[k as int].1.model()));
                proof {
                    assert(decreases_to!(*es => es@[k as int]));
                    assert(decreases_to!(es@[k as int] => es@[k as int].1));
                }
                match from_element(&es[k].1, &fields[i].1) {
                    Err(e) => {
                        proof {
                            lemma_struct_prefix_err(m, fields@, i + 1);
                        }
                        return Err(e);
                    },
                    Ok(t) => {
                        let ghost before = out@;
                        let name = fields[i].0.clone();
                        let ghost d = (name@, t.model());
                        out.push((name, t));
                        assert(field_data(out@) =~= field_data(before).push(d));
                    },
                }
            },
            None => {
                match &fields[i].1 {
                    Shape::Optional(_) => {
                        let ghost before = out@;
                        let name = fields[i].0.clone();
                        let ghost d = (name@, Datum::Absent);
                        out.push((name, Typed::Absent));
                        assert(field_data(out@) =~= field_data(before).push(d));
                    },
                    _ => {
                        proof {
                            lemma_struct_prefix_err(m, fields@, i + 1);
                        }
                        return Err(Error::MissingField { index: i });
                    },
                }
            },
        }
        i = i + 1;
    }
    assert(fields@.subrange(0, i as int) =~= fields@);
    Ok(out)
}

/// The payload of the variant named `name`, written as the value of its key.
fn read_payload(name: &String, p: &Node, v: &VariantShape) -> (r: Result<Typed, Error>)
    ensures
        typed_outcome(r) == de_payload(name@, p.model(), *v),
    decreases p, v,
{
    match v {
        VariantShape::Unit => Err(Error::InvalidEnumShape(EnumShapeError::UnitVariantAsObjectKey)),
        VariantShape::Newtype(s) => match from_element(p, s) {
            Ok(t) => Ok(Typed::NewtypeVariant(name.clone(), Box::new(t))),
            Err(e) => Err(e),
        },
        VariantShape::Tuple(shapes) => match p.get_array() {
            Err(e) => Err(e),
            Ok(items) => {
                proof {
                    assert(decreases_to!(*p => p->Array_0));
                    assert(p.model()->Array_0 =~= nodes(items@));
                }
                match read_tuple(items, shapes) {
                    Ok(ts) => {
                        let r = Typed::TupleVariant(name.clone(), ts);
                        assert(r.model()->TupleVariant_1 =~= data(ts@));
                        Ok(r)
                    },
                    Err(e) => Err(e),
                }
            },
        },
        VariantShape::Struct(fields) => match p.get_object() {
            Err(e) => Err(e),
            Ok(es) => {
                proof {
                    assert(decreases_to!(*p => p->Object_0));
                    assert(p.model()->Object_0 =~= members(es@));
                }
                match read_struct(es, fields) {
                    Ok(fs) => {
                        let r = Typed::StructVariant(name.clone(), fs);
                        assert(r.model()->StructVariant_1 =~= field_data(fs@));
                        Ok(r)
                    },
                    Err(e) => Err(e),
                }
            },
        },
    }
}

/// The typed value of a character.
fn char_value(c: char) -> (t: Typed)
    ensures
        t.model() == Datum::Char(c),
{
    Typed::Char(c)
}

/// Reads a node as a value of the given shape: the deserialization adapter
/// driven by the target type's description.
pub fn from_element(element: &Node, shape: &Shape) -> (r: Result<Typed, Error>)
    ensures
        typed_outcome(r) == de(element.model(), *shape),
    decreases element, shape,
{
    match shape {
        Shape::Bool => match element.get_bool() {
            Ok(b) => Ok(Typed::Bool(b)),
            Err(e) => Err(e),
        },
        Shape::Int(w) => match read_int(element, *w) {
            Ok(v) => Ok(Typed::Int(*w, v)),
            Err(e) => Err(e),
        },
        Shape::F64 => match element.get_double() {
            Ok(b) => Ok(Typed::F64(b)),
            Err(e) => Err(e),
        },
        Shape::Char => match read_char(element) {
            Ok(c) => Ok(char_value(c)),
            Err(e) => Err(e),
        },
        Shape::Str => match element.get_string() {
            Ok(t) => Ok(Typed::Str(t.clone())),
            Err(e) => Err(e),
        },
        Shape::Bytes => match element.get_array() {
            Err(e) => Err(e),
            Ok(items) => {
                assert(element.model()->Array_0 =~= nodes(items@));
                match read_bytes(items) {
                    Ok(b) => Ok(Typed::Bytes(b)),
                    Err(e) => Err(e),
                }
            },
        },
        Shape::Unit => match read_unit(element) {
            Ok(()) => Ok(Typed::Unit),
            Err(e) => Err(e),
        },
        Shape::Optional(b) => {
            if element.is_null() {
                Ok(Typed::Absent)
            } else {
                match from_element(element, b) {
                    Ok(t) => Ok(Typed::Present(Box::new(t))),
                    Err(e) => Err(e),
                }
            }
        },
        Shape::NewtypeStruct(b) => match from_element(element, b) {
            Ok(t) => Ok(Typed::NewtypeStruct(Box::new(t))),
            Err(e) => Err(e),
        },
        Shape::Sequence(b) => match element.get_array() {
            Err(e) => Err(e),
            Ok(items) => {
                proof {
                    assert(decreases_to!(*element => element->Array_0));
                    assert(element.model()->Array_0 =~= nodes(items@));
                }
                match read_sequence(items, b) {
                    Ok(ts) => {
                        let r = Typed::Sequence(ts);
                        assert(r.model()->Sequence_0 =~= data(ts@));
                        Ok(r)
                    },
                    Err(e) => Err(e),
                }
            },
        },
        Shape::Tuple(shapes) => match element.get_array() {
            Err(e) => Err(e),
            Ok(items) => {
                proof {
                    assert(decreases_to!(*element => element->Array_0));
                    assert(element.model()->Array_0 =~= nodes(items@));
                }
                match read_tuple(items, shapes) {
                    Ok(ts) => {
                        let r = Typed::Sequence(ts);
                        assert(r.model()->Sequence_0 =~= data(ts@));
                        Ok(r)
                    },
                    Err(e) => Err(e),
                }
            },
        },
        Shape::Mapping(b) => match element.get_object() {
            Err(e) => Err(e),
            Ok(es) => {
                proof {
                    assert(decreases_to!(*element => element->Object_0));
                    assert(element.model()->Object_0 =~= members(es@));
                }
                match read_mapping(es, b) {
                    Ok(ts) => {
                        let r = Typed::Mapping(ts);
                        assert(r.model()->Mapping_0 =~= entry_data(ts@));
                        Ok(r)
                    },
                    Err(e) => Err(e),
                }
            },
        },
        Shape::Struct(fields) => match element.get_object() {
            Err(e) => Err(e),
            Ok(es) => {
                proof {
                    assert(decreases_to!(*element => element->Object_0));
                    assert(element.model()->Object_0 =~= members(es@));
                }
                match read_struct(es, fields) {
                    Ok(fs) => {
                        let r = Typed::Struct(fs);
                        assert(r.model()->Struct_0 =~= field_data(fs@));
                        Ok(r)
                    },
                    Err(e) => Err(e),
                }
            },
        },
        Shape::Enum(variants) => {
            let d = match read_enum(element) {
                Ok(d) => d,
                Err(e) => {
                    return Err(e);
                },
            };
            proof {
                lemma_find_variant_range(variants@, d.variant@);
            }
            match find_variant_index(variants, d.variant) {
                None => Err(Error::UnknownVariant),
                Some(k) => match d.value {
                    None => match &variants[k].1 {
                        VariantShape::Unit => Ok(Typed::UnitVariant(d.variant.clone())),
                        _ => Err(Error::InvalidEnumShape(EnumShapeError::MissingPayload)),
                    },
                    Some(p) => {
                        proof {
                            assert(decreases_to!(*element => element->Object_0));
                            assert(decreases_to!(element->Object_0 => element->Object_0[0]));
                            assert(decreases_to!(element->Object_0[0] => element->Object_0[0].1));
                        }
                        read_payload(d.variant, p, &variants[k].1)
                    },
                },
            }
        },
        Shape::Any => match element {
            Node::Null => Ok(Typed::Unit),
            Node::Bool(b) => Ok(Typed::Bool(*b)),
            Node::Int64(i) => Ok(Typed::Int(IntWidth::I64, *i as i128)),
            Node::UInt64(u) => Ok(Typed::Int(IntWidth::U64, *u as i128)),
            Node::Double(b) => Ok(Typed::F64(*b)),
            Node::String(t) => Ok(Typed::Str(t.clone())),
            Node::Array(items) => {
                proof {
                    assert(decreases_to!(*element => element->Array_0));
                    assert(element.model()->Array_0 =~= nodes(items@));
                }
                match read_sequence(items, shape) {
                    Ok(ts) => {
                        let r = Typed::Sequence(ts);
                        assert(r.model()->Sequence_0 =~= data(ts@));
                        Ok(r)
                    },
                    Err(e) => Err(e),
                }
            },
            Node::Object(es) => {
                proof {
                    assert(decreases_to!(*element => element->Object_0));
                    assert(element.model()->Object_0 =~= members(es@));
                }
                match read_mapping(es, shape) {
                    Ok(ts) => {
                        let r = Typed::Mapping(ts);
                        assert(r.model()->Mapping_0 =~= entry_data(ts@));
                        Ok(r)
                    },
                    Err(e) => Err(e),
                }
            },
        },
    }
}

} // verus!
