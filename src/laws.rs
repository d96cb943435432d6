use vstd::prelude::*;

use crate::de::int_request;
use crate::bind::{de, de_payload, de_bytes, de_entries, de_items, de_struct, de_tuple, find_member, find_variant};
use crate::error::{Error, IntWidth};
use crate::node::Json;
use crate::ser::{byte_tokens, emit, emit_fields, is_finite_bits, separator, Lexeme};
use crate::typed::{Datum, Shape, VariantShape};
use crate::value::{json_items, json_lexemes, json_members, lemma_emit_items_text, lemma_emit_members_text};

verus! {

/// The text of a map key that is a string.
pub open spec fn key_text(k: Datum) -> Seq<char> {
    match k {
        Datum::Str(s) => s,
        _ => Seq::empty(),
    }
}

/// The node whose text is what the serializer writes for `d`.
pub open spec fn datum_node(d: Datum) -> Json
    decreases d,
{
    match d {
        Datum::Unit | Datum::Absent => Json::Null,
        Datum::Bool(b) => Json::Bool(b),
        Datum::Int(w, v) => if w.is_signed() {
            Json::Int64(v as i64)
        } else {
            Json::UInt64(v as u64)
        },
        Datum::F64(b) => Json::Double(b),
        Datum::Char(c) => Json::String(seq![c]),
        Datum::Str(s) => Json::String(s),
        Datum::Bytes(bs) => Json::Array(byte_nodes(bs)),
        Datum::Present(x) => datum_node(*x),
        Datum::NewtypeStruct(x) => datum_node(*x),
        Datum::Sequence(items) => Json::Array(
            Seq::new(items.len(), |i: int| if 0 <= i < items.len() { datum_node(items[i]) } else { Json::Null }),
        ),
        Datum::Mapping(es) => Json::Object(
            Seq::new(
                es.len(),
                |i: int|
                    if 0 <= i < es.len() {
                        (key_text(es[i].0), datum_node(es[i].1))
                    } else {
                        (Seq::empty(), Json::Null)
                    },
            ),
        ),
        Datum::Struct(fs) => Json::Object(
            Seq::new(
                fs.len(),
                |i: int|
                    if 0 <= i < fs.len() {
                        (fs[i].0, datum_node(fs[i].1))
                    } else {
                        (Seq::empty(), Json::Null)
                    },
            ),
        ),
        Datum::UnitVariant(n) => Json::String(n),
        Datum::NewtypeVariant(n, x) => Json::Object(seq![(n, datum_node(*x))]),
        Datum::TupleVariant(n, items) => Json::Object(
            seq![
                (
                    n,
                    Json::Array(
                        Seq::new(
                            items.len(),
                            |i: int| if 0 <= i < items.len() { datum_node(items[i]) } else { Json::Null },
                        ),
                    ),
                ),
            ],
        ),
        Datum::StructVariant(n, fs) => Json::Object(
            seq![
                (
                    n,
                    Json::Object(
                        Seq::new(
                            fs.len(),
                            |i: int|
                                if 0 <= i < fs.len() {
                                    (fs[i].0, datum_node(fs[i].1))
                                } else {
                                    (Seq::empty(), Json::Null)
                                },
                        ),
                    ),
                ),
            ],
        ),
    }
}

/// The nodes of the numbers of a byte sequence.
pub open spec fn byte_nodes(bs: Seq<u8>) -> Seq<Json> {
    Seq::new(bs.len(), |i: int| Json::UInt64(bs[i] as u64))
}

/// Whether named fields match the fields of a struct shape, one for one, with
/// distinct names.
pub open spec fn fields_match(fs: Seq<(Seq<char>, Datum)>, fields: Seq<(String, Shape)>) -> bool {
    &&& fs.len() == fields.len()
    &&& forall|i: int| 0 <= i < fs.len() ==> #[trigger] fs[i].0 == fields[i].0@
    &&& forall|i: int, k: int| 0 <= i < k < fs.len() ==> fs[i].0 != fs[k].0
}

/// Whether `d` is a value of the type that `s` describes, one that JSON text
/// can carry back: doubles are finite, map keys are strings, a present
/// optional does not hold something written as `null`, and enum variants
/// are declared.
pub open spec fn conforms(d: Datum, s: Shape) -> bool
    decreases d,
{
    match s {
        Shape::Bool => d is Bool,
        Shape::Int(w) => d matches Datum::Int(w2, v) && w2 == w && w.holds(v),
        Shape::F64 => d matches Datum::F64(b) && is_finite_bits(b),
        Shape::Char => d is Char,
        Shape::Str => d is Str,
        Shape::Bytes => d is Bytes,
        Shape::Unit => d is Unit,
        Shape::Optional(b) => match d {
            Datum::Absent => true,
            Datum::Present(x) => conforms(*x, *b) && !(datum_node(*x) is Null),
            _ => false,
        },
        Shape::NewtypeStruct(b) => match d {
            Datum::NewtypeStruct(x) => conforms(*x, *b),
            _ => false,
        },
        Shape::Sequence(b) => match d {
            Datum::Sequence(items) => forall|i: int|
                0 <= i < items.len() ==> conforms(#[trigger] items[i], *b),
            _ => false,
        },
        Shape::Tuple(shapes) => match d {
            Datum::Sequence(items) => items.len() == shapes.len() && forall|i: int|
                0 <= i < items.len() ==> conforms(#[trigger] items[i], shapes[i]),
            _ => false,
        },
        Shape::Mapping(b) => match d {
            Datum::Mapping(es) => forall|i: int|
                0 <= i < es.len() ==> (#[trigger] es[i]).0 is Str && conforms(es[i].1, *b),
            _ => false,
        },
        Shape::Struct(fields) => match d {
            Datum::Struct(fs) => fields_match(fs, fields@) && forall|i: int|
                0 <= i < fs.len() ==> conforms(#[trigger] fs[i].1, fields[i].1),
            _ => false,
        },
        Shape::Enum(vs) => match d {
            Datum::UnitVariant(n) => match find_variant(vs@, n) {
                Some(k) => 0 <= k < vs.len() && vs[k].1 is Unit,
                None => false,
            },
            Datum::NewtypeVariant(n, x) => match find_variant(vs@, n) {
                Some(k) => 0 <= k < vs.len() && match vs[k].1 {
                    VariantShape::Newtype(s2) => conforms(*x, s2),
                    _ => false,
                },
                None => false,
            },
            Datum::TupleVariant(n, items) => match find_variant(vs@, n) {
                Some(k) => 0 <= k < vs.len() && match vs[k].1 {
                    VariantShape::Tuple(shapes) => items.len() == shapes.len() && forall|i: int|
                        0 <= i < items.len() ==> conforms(#[trigger] items[i], shapes[i]),
                    _ => false,
                },
                None => false,
            },
            Datum::StructVariant(n, fs) => match find_variant(vs@, n) {
                Some(k) => 0 <= k < vs.len() && match vs[k].1 {
                    VariantShape::Struct(fields) => fields_match(fs, fields@) && forall|i: int|
                        0 <= i < fs.len() ==> conforms(#[trigger] fs[i].1, fields[i].1),
                    _ => false,
                },
                None => false,
            },
            _ => false,
        },
        Shape::Any => match d {
            Datum::Unit | Datum::Bool(_) | Datum::Str(_) => true,
            Datum::Int(w, v) => (w == IntWidth::I64 || w == IntWidth::U64) && w.holds(v),
            Datum::F64(b) => is_finite_bits(b),
            Datum::Sequence(items) => forall|i: int|
                0 <= i < items.len() ==> conforms(#[trigger] items[i], Shape::Any),
            Datum::Mapping(es) => forall|i: int|
                0 <= i < es.len() ==> (#[trigger] es[i]).0 is Str && conforms(es[i].1, Shape::Any),
            _ => false,
        },
    }
}


proof fn lemma_emit_fields_text(fs: Seq<(Seq<char>, Datum)>, es: Seq<(Seq<char>, Json)>)
    requires
        fs.len() == es.len(),
        forall|i: int|
            0 <= i < fs.len() ==> fs[i].0 == es[i].0 && #[trigger] emit(fs[i].1) == Ok::<
                Seq<Lexeme>,
                Error,
            >(json_lexemes(es[i].1)),
    ensures
        emit_fields(fs) == Ok::<Seq<Lexeme>, Error>(json_members(es)),
    decreases fs.len(),
{
    if fs.len() > 0 {
        let n = fs.len() - 1;
        let p = fs.subrange(0, n);
        let q = es.subrange(0, n);
        assert forall|i: int| 0 <= i < p.len() implies p[i].0 == q[i].0 && #[trigger] emit(p[i].1)
            == Ok::<Seq<Lexeme>, Error>(json_lexemes(q[i].1)) by {
            assert(emit(fs[i].1) == Ok::<Seq<Lexeme>, Error>(json_lexemes(es[i].1)));
        }
        lemma_emit_fields_text(p, q);
        assert(emit(fs[n].1) == Ok::<Seq<Lexeme>, Error>(json_lexemes(es[n].1)));
        assert(json_members(q) + ((separator(n) + seq![Lexeme::Str(fs[n].0), Lexeme::Colon])
            + json_lexemes(es[n].1) + Seq::empty()) =~= json_members(q) + separator(n) + seq![
            Lexeme::Str(es[n].0),
            Lexeme::Colon,
        ] + json_lexemes(es[n].1));
    }
}

proof fn lemma_bytes_text(bs: Seq<u8>)
    ensures
        byte_tokens(bs) == json_items(byte_nodes(bs)),
    decreases bs.len(),
{
    if bs.len() > 0 {
        let n = bs.len() - 1;
        lemma_bytes_text(bs.subrange(0, n));
        let ns = byte_nodes(bs);
        assert(ns.subrange(0, n) =~= byte_nodes(bs.subrange(0, n)));
        assert(json_items(ns) == json_items(ns.subrange(0, n)) + separator(n) + json_lexemes(ns[n]));
        assert(byte_tokens(bs) == byte_tokens(bs.subrange(0, n)) + separator(n) + seq![
            Lexeme::U64(bs[n] as u64),
        ]);
    }
}

proof fn lemma_single_member(n: Seq<char>, j: Json)
    ensures
        json_members(seq![(n, j)]) == seq![Lexeme::Str(n), Lexeme::Colon] + json_lexemes(j),
{
    let es = seq![(n, j)];
    assert(es.subrange(0, 0) =~= Seq::<(Seq<char>, Json)>::empty());
    assert(json_members(es.subrange(0, 0)) == Seq::<Lexeme>::empty());
    assert(json_members(es) == json_members(es.subrange(0, 0)) + separator(0) + seq![
        Lexeme::Str(n),
        Lexeme::Colon,
    ] + json_lexemes(j));
    assert(json_members(es) =~= seq![Lexeme::Str(n), Lexeme::Colon] + json_lexemes(j));
}

proof fn lemma_de_items_ok(ns: Seq<Json>, s: Shape, ds: Seq<Datum>)
    requires
        ns.len() == ds.len(),
        forall|i: int| 0 <= i < ns.len() ==> #[trigger] de(ns[i], s) == Ok::<Datum, Error>(ds[i]),
    ensures
        de_items(ns, s) == Ok::<Seq<Datum>, Error>(ds),
    decreases ns.len(),
{
    if ns.len() > 0 {
        let n = ns.len() - 1;
        let p = ns.subrange(0, n);
        let q = ds.subrange(0, n);
        assert forall|i: int| 0 <= i < p.len() implies #[trigger] de(p[i], s) == Ok::<Datum, Error>(
            q[i],
        ) by {
            assert(de(ns[i], s) == Ok::<Datum, Error>(ds[i]));
        }
        lemma_de_items_ok(p, s, q);
        assert(de(ns[n], s) == Ok::<Datum, Error>(ds[n]));
        assert(de_items(ns, s) == match de_items(p, s) {
            Err(e) => Err(e),
            Ok(ds2) => match de(ns[n], s) {
                Err(e) => Err(e),
                Ok(d) => Ok(ds2.push(d)),
            },
        });
        assert(q.push(ds[n]) =~= ds);
    } else {
        assert(ds =~= Seq::<Datum>::empty());
    }
}

proof fn lemma_de_tuple_ok(ns: Seq<Json>, shapes: Seq<Shape>, ds: Seq<Datum>)
    requires
        ns.len() == ds.len(),
        ns.len() == shapes.len(),
        forall|i: int|
            0 <= i < ns.len() ==> #[trigger] de(ns[i], shapes[i]) == Ok::<Datum, Error>(ds[i]),
    ensures
        de_tuple(ns, shapes) == Ok::<Seq<Datum>, Error>(ds),
    decreases ns.len(),
{
    if ns.len() > 0 {
        let n = ns.len() - 1;
        let p = ns.subrange(0, n);
        let r = shapes.subrange(0, n);
        let q = ds.subrange(0, n);
        assert forall|i: int| 0 <= i < p.len() implies #[trigger] de(p[i], r[i]) == Ok::<
            Datum,
            Error,
        >(q[i]) by {
            assert(de(ns[i], shapes[i]) == Ok::<Datum, Error>(ds[i]));
        }
        lemma_de_tuple_ok(p, r, q);
        assert(de(ns[n], shapes[n]) == Ok::<Datum, Error>(ds[n]));
        assert(de_tuple(ns, shapes) == match de_tuple(p, r) {
            Err(e) => Err(e),
            Ok(ds2) => match de(ns[n], shapes[n]) {
                Err(e) => Err(e),
                Ok(d) => Ok(ds2.push(d)),
            },
        });
        assert(q.push(ds[n]) =~= ds);
    } else {
        assert(ds =~= Seq::<Datum>::empty());
    }
}

proof fn lemma_de_entries_ok(ms: Seq<(Seq<char>, Json)>, s: Shape, es: Seq<(Datum, Datum)>)
    requires
        ms.len() == es.len(),
        forall|i: int|
            0 <= i < ms.len() ==> es[i].0 == Datum::Str(ms[i].0) && #[trigger] de(ms[i].1, s)
                == Ok::<Datum, Error>(es[i].1),
    ensures
        de_entries(ms, s) == Ok::<Seq<(Datum, Datum)>, Error>(es),
    decreases ms.len(),
{
    if ms.len() > 0 {
        let n = ms.len() - 1;
        let p = ms.subrange(0, n);
        let q = es.subrange(0, n);
        assert forall|i: int| 0 <= i < p.len() implies q[i].0 == Datum::Str(p[i].0) && #[trigger] de(
            p[i].1,
            s,
        ) == Ok::<Datum, Error>(q[i].1) by {
            assert(de(ms[i].1, s) == Ok::<Datum, Error>(es[i].1));
        }
        lemma_de_entries_ok(p, s, q);
        assert(de(ms[n].1, s) == Ok::<Datum, Error>(es[n].1));
        assert(de_entries(ms, s) == match de_entries(p, s) {
            Err(e) => Err(e),
            Ok(ds2) => match de(ms[n].1, s) {
                Err(e) => Err(e),
                Ok(d) => Ok(ds2.push((Datum::Str(ms[n].0), d))),
            },
        });
        assert(q.push((Datum::Str(ms[n].0), es[n].1)) =~= es);
    } else {
        assert(es =~= Seq::<(Datum, Datum)>::empty());
    }
}

proof fn lemma_find_none(ms: Seq<(Seq<char>, Json)>, name: Seq<char>)
    requires
        forall|i: int| 0 <= i < ms.len() ==> (#[trigger] ms[i]).0 != name,
    ensures
        find_member(ms, name) is None,
    decreases ms.len(),
{
    if ms.len() > 0 {
        let p = ms.subrange(0, ms.len() - 1);
        assert forall|i: int| 0 <= i < p.len() implies (#[trigger] p[i]).0 != name by {
            assert(ms[i].0 != name);
        }
        lemma_find_none(p, name);
        assert(ms[ms.len() - 1].0 != name);
    }
}

proof fn lemma_find_first(ms: Seq<(Seq<char>, Json)>, name: Seq<char>, j: int)
    requires
        0 <= j < ms.len(),
        ms[j].0 == name,
        forall|i: int| 0 <= i < j ==> (#[trigger] ms[i]).0 != name,
    ensures
        find_member(ms, name) == Some(j),
    decreases ms.len(),
{
    let p = ms.subrange(0, ms.len() - 1);
    if j == ms.len() - 1 {
        assert forall|i: int| 0 <= i < p.len() implies (#[trigger] p[i]).0 != name by {
            assert(ms[i].0 != name);
        }
        lemma_find_none(p, name);
    } else {
        assert forall|i: int| 0 <= i < j implies (#[trigger] p[i]).0 != name by {
            assert(ms[i].0 != name);
        }
        lemma_find_first(p, name, j);
    }
}

proof fn lemma_de_struct_ok(
    ms: Seq<(Seq<char>, Json)>,
    fields: Seq<(String, Shape)>,
    fs: Seq<(Seq<char>, Datum)>,
)
    requires
        fields.len() == fs.len(),
        forall|k: int|
            0 <= k < fields.len() ==> k < ms.len() && fs[k].0 == fields[k].0@ && #[trigger] find_member(
                ms,
                fields[k].0@,
            ) == Some(k) && de(ms[k].1, fields[k].1) == Ok::<Datum, Error>(fs[k].1),
    ensures
        de_struct(ms, fields) == Ok::<Seq<(Seq<char>, Datum)>, Error>(fs),
    decreases fields.len(),
{
    if fields.len() > 0 {
        let n = fields.len() - 1;
        let p = fields.subrange(0, n);
        let q = fs.subrange(0, n);
        assert forall|k: int| 0 <= k < p.len() implies k < ms.len() && q[k].0 == p[k].0@
            && #[trigger] find_member(ms, p[k].0@) == Some(k) && de(ms[k].1, p[k].1) == Ok::<
            Datum,
            Error,
        >(q[k].1) by {
            assert(find_member(ms, fields[k].0@) == Some(k));
        }
        lemma_de_struct_ok(ms, p, q);
        assert(find_member(ms, fields[n].0@) == Some(n));
        assert(de(ms[n].1, fields[n].1) == Ok::<Datum, Error>(fs[n].1));
        assert(de_struct(ms, fields) == match de_struct(ms, p) {
            Err(e) => Err(e),
            Ok(fs2) => match find_member(ms, fields[n].0@) {
                Some(k) => if 0 <= k < ms.len() {
                    match de(ms[k].1, fields[n].1) {
                        Err(e) => Err(e),
                        Ok(d) => Ok(fs2.push((fields[n].0@, d))),
                    }
                } else {
                    Err(Error::MissingField { index: n as usize })
                },
                None => match fields[n].1 {
                    Shape::Optional(_) => Ok(fs2.push((fields[n].0@, Datum::Absent))),
                    _ => Err(Error::MissingField { index: n as usize }),
                },
            },
        });
        assert(q.push((fields[n].0@, fs[n].1)) =~= fs);
    } else {
        assert(fs =~= Seq::<(Seq<char>, Datum)>::empty());
    }
}

proof fn lemma_de_bytes_ok(bs: Seq<u8>)
    ensures
        de_bytes(byte_nodes(bs)) == Ok::<Seq<u8>, Error>(bs),
    decreases bs.len(),
{
    if bs.len() > 0 {
        let n = bs.len() - 1;
        lemma_de_bytes_ok(bs.subrange(0, n));
        assert(byte_nodes(bs).subrange(0, n) =~= byte_nodes(bs.subrange(0, n)));
        let ns = byte_nodes(bs);
        assert(int_request(ns[n], IntWidth::U8) == Ok::<int, Error>(bs[n] as int));
        assert(de_bytes(ns) == match de_bytes(ns.subrange(0, n)) {
            Err(e) => Err(e),
            Ok(b2) => match int_request(ns[n], IntWidth::U8) {
                Err(e) => Err(e),
                Ok(v) => Ok(b2.push(v as u8)),
            },
        });
        assert(bs.subrange(0, n).push(bs[n]) =~= bs);
    } else {
        assert(bs =~= Seq::<u8>::empty());
    }
}

/// The fields of a struct, as the members of the node written for it, are
/// found each at its own position.
proof fn lemma_struct_members(
    fs: Seq<(Seq<char>, Datum)>,
    fields: Seq<(String, Shape)>,
    ms: Seq<(Seq<char>, Json)>,
)
    requires
        fields_match(fs, fields),
        ms.len() == fs.len(),
        forall|i: int| 0 <= i < ms.len() ==> (#[trigger] ms[i]).0 == fs[i].0,
    ensures
        forall|k: int| 0 <= k < fields.len() ==> #[trigger] find_member(ms, fields[k].0@) == Some(k),
{
    assert forall|k: int| 0 <= k < fields.len() implies #[trigger] find_member(ms, fields[k].0@)
        == Some(k) by {
        assert(fs[k].0 == fields[k].0@);
        assert(ms[k].0 == fs[k].0);
        assert forall|i: int| 0 <= i < k implies (#[trigger] ms[i]).0 != fields[k].0@ by {
            assert(fs[i].0 != fs[k].0);
        }
        lemma_find_first(ms, fields[k].0@, k);
    }
}


proof fn lemma_round_trip_sequence(d: Datum, s: Shape)
    requires
        conforms(d, s),
        d is Sequence,
    ensures
        emit(d) == Ok::<Seq<Lexeme>, Error>(json_lexemes(datum_node(d))),
        de(datum_node(d), s) == Ok::<Datum, Error>(d),
    decreases d, 0nat,
{
    if let Datum::Sequence(items) = d {
        let ns = datum_node(d)->Array_0;
        match s {
            Shape::Sequence(b) => {
                assert forall|i: int|
                    #![trigger emit(items[i])]
                    #![trigger de(ns[i], *b)]
                    0 <= i < items.len() implies emit(items[i])
                    == Ok::<Seq<Lexeme>, Error>(json_lexemes(ns[i])) && de(ns[i], *b) == Ok::<
                    Datum,
                    Error,
                >(items[i]) by {
                    lemma_round_trip(items[i], *b);
                }
                lemma_de_items_ok(ns, *b, items);
            },
            Shape::Tuple(shapes) => {
                assert forall|i: int|
                    #![trigger emit(items[i])]
                    #![trigger de(ns[i], shapes[i])]
                    0 <= i < items.len() implies emit(items[i])
                    == Ok::<Seq<Lexeme>, Error>(json_lexemes(ns[i])) && de(ns[i], shapes[i])
                    == Ok::<Datum, Error>(items[i]) by {
                    lemma_round_trip(items[i], shapes[i]);
                }
                lemma_de_tuple_ok(ns, shapes@, items);
            },
            _ => {
                assert forall|i: int|
                    #![trigger emit(items[i])]
                    #![trigger de(ns[i], Shape::Any)]
                    0 <= i < items.len() implies emit(items[i])
                    == Ok::<Seq<Lexeme>, Error>(json_lexemes(ns[i])) && de(ns[i], Shape::Any)
                    == Ok::<Datum, Error>(items[i]) by {
                    lemma_round_trip(items[i], Shape::Any);
                }
                lemma_de_items_ok(ns, Shape::Any, items);
            },
        }
        lemma_emit_items_text(items, ns);
        }
}


proof fn lemma_round_trip_mapping(d: Datum, s: Shape)
    requires
        conforms(d, s),
        d is Mapping,
    ensures
        emit(d) == Ok::<Seq<Lexeme>, Error>(json_lexemes(datum_node(d))),
        de(datum_node(d), s) == Ok::<Datum, Error>(d),
    decreases d, 0nat,
{
    if let Datum::Mapping(es) = d {
        let ms = datum_node(d)->Object_0;
        let b = match s {
            Shape::Mapping(b) => *b,
            _ => Shape::Any,
        };
        assert forall|i: int| 0 <= i < es.len() implies es[i].0 == Datum::Str(ms[i].0)
            && #[trigger] emit(es[i].1) == Ok::<Seq<Lexeme>, Error>(json_lexemes(ms[i].1)) && de(
            ms[i].1,
            b,
        ) == Ok::<Datum, Error>(es[i].1) by {
            assert(es[i].0 is Str);
            lemma_round_trip(es[i].1, b);
        }
        lemma_emit_members_text(es, ms);
        assert forall|i: int| 0 <= i < ms.len() implies es[i].0 == Datum::Str(ms[i].0)
            && #[trigger] de(ms[i].1, b) == Ok::<Datum, Error>(es[i].1) by {
            assert(emit(es[i].1) == Ok::<Seq<Lexeme>, Error>(json_lexemes(ms[i].1)));
        }
        lemma_de_entries_ok(ms, b, es);
        }
}


proof fn lemma_round_trip_struct(d: Datum, s: Shape)
    requires
        conforms(d, s),
        d is Struct,
    ensures
        emit(d) == Ok::<Seq<Lexeme>, Error>(json_lexemes(datum_node(d))),
        de(datum_node(d), s) == Ok::<Datum, Error>(d),
    decreases d, 0nat,
{
    if let Datum::Struct(fs) = d {
        let fields = s->Struct_0;
        let ms = datum_node(d)->Object_0;
        assert forall|i: int| 0 <= i < fs.len() implies fs[i].0 == ms[i].0 && #[trigger] emit(
            fs[i].1,
        ) == Ok::<Seq<Lexeme>, Error>(json_lexemes(ms[i].1)) && de(ms[i].1, fields[i].1)
            == Ok::<Datum, Error>(fs[i].1) by {
            lemma_round_trip(fs[i].1, fields[i].1);
        }
        lemma_emit_fields_text(fs, ms);
        assert forall|i: int| 0 <= i < ms.len() implies (#[trigger] ms[i]).0 == fs[i].0 by {}
        lemma_struct_members(fs, fields@, ms);
        assert forall|k: int| 0 <= k < fields.len() implies k < ms.len() && fs[k].0
            == fields[k].0@ && #[trigger] find_member(ms, fields[k].0@) == Some(k) && de(
            ms[k].1,
            fields[k].1,
        ) == Ok::<Datum, Error>(fs[k].1) by {
            assert(emit(fs[k].1) == Ok::<Seq<Lexeme>, Error>(json_lexemes(ms[k].1)));
        }
        lemma_de_struct_ok(ms, fields@, fs);
        }
}


proof fn lemma_round_trip_newtype_variant(d: Datum, s: Shape)
    requires
        conforms(d, s),
        d is NewtypeVariant,
    ensures
        emit(d) == Ok::<Seq<Lexeme>, Error>(json_lexemes(datum_node(d))),
        de(datum_node(d), s) == Ok::<Datum, Error>(d),
    decreases d, 0nat,
{
    if let Datum::NewtypeVariant(n, x) = d {
        let vs = s->Enum_0;
        let k = find_variant(vs@, n)->Some_0;
        let s2 = vs[k].1->Newtype_0;
        lemma_round_trip(*x, s2);
        let j = datum_node(*x);
        lemma_single_member(n, j);
        let es = datum_node(d)->Object_0;
        assert(es.len() == 1 && es[0] == (n, j));
        assert(de_payload(n, j, vs[k].1) == Ok::<Datum, Error>(d));
        assert(seq![Lexeme::StartObject] + (seq![Lexeme::Str(n), Lexeme::Colon] + json_lexemes(j))
            + seq![Lexeme::EndObject] =~= seq![Lexeme::StartObject, Lexeme::Str(n), Lexeme::Colon]
            + json_lexemes(j) + seq![Lexeme::EndObject]);
        }
}


proof fn lemma_round_trip_tuple_variant(d: Datum, s: Shape)
    requires
        conforms(d, s),
        d is TupleVariant,
    ensures
        emit(d) == Ok::<Seq<Lexeme>, Error>(json_lexemes(datum_node(d))),
        de(datum_node(d), s) == Ok::<Datum, Error>(d),
    decreases d, 0nat,
{
    if let Datum::TupleVariant(n, items) = d {
        let vs = s->Enum_0;
        let k = find_variant(vs@, n)->Some_0;
        let shapes = vs[k].1->Tuple_0;
        let arr = datum_node(d)->Object_0[0].1;
        let ns = arr->Array_0;
        assert forall|i: int|
            #![trigger emit(items[i])]
            #![trigger de(ns[i], shapes[i])]
            0 <= i < items.len() implies emit(items[i]) == Ok::<
            Seq<Lexeme>,
            Error,
        >(json_lexemes(ns[i])) && de(ns[i], shapes[i]) == Ok::<Datum, Error>(items[i]) by {
            lemma_round_trip(items[i], shapes[i]);
        }
        lemma_de_tuple_ok(ns, shapes@, items);
        lemma_emit_items_text(items, ns);
        lemma_single_member(n, arr);
        let es = datum_node(d)->Object_0;
        assert(es.len() == 1 && es[0] == (n, arr));
        assert(de_payload(n, arr, vs[k].1) == Ok::<Datum, Error>(d));
        let t = json_items(ns);
        assert(seq![Lexeme::StartObject] + (seq![Lexeme::Str(n), Lexeme::Colon] + (seq![
            Lexeme::StartArray,
        ] + t + seq![Lexeme::EndArray])) + seq![Lexeme::EndObject] =~= seq![
            Lexeme::StartObject,
            Lexeme::Str(n),
            Lexeme::Colon,
            Lexeme::StartArray,
        ] + t + seq![Lexeme::EndArray, Lexeme::EndObject]);
        }
}


proof fn lemma_round_trip_struct_variant(d: Datum, s: Shape)
    requires
        conforms(d, s),
        d is StructVariant,
    ensures
        emit(d) == Ok::<Seq<Lexeme>, Error>(json_lexemes(datum_node(d))),
        de(datum_node(d), s) == Ok::<Datum, Error>(d),
    decreases d, 0nat,
{
    if let Datum::StructVariant(n, fs) = d {
        let vs = s->Enum_0;
        let k = find_variant(vs@, n)->Some_0;
        let fields = vs[k].1->Struct_0;
        let obj = datum_node(d)->Object_0[0].1;
        let ms = obj->Object_0;
        assert forall|i: int| 0 <= i < fs.len() implies fs[i].0 == ms[i].0 && #[trigger] emit(
            fs[i].1,
        ) == Ok::<Seq<Lexeme>, Error>(json_lexemes(ms[i].1)) && de(ms[i].1, fields[i].1)
            == Ok::<Datum, Error>(fs[i].1) by {
            lemma_round_trip(fs[i].1, fields[i].1);
        }
        lemma_emit_fields_text(fs, ms);
        assert forall|i: int| 0 <= i < ms.len() implies (#[trigger] ms[i]).0 == fs[i].0 by {}
        lemma_struct_members(fs, fields@, ms);
        assert forall|k2: int| 0 <= k2 < fields.len() implies k2 < ms.len() && fs[k2].0
            == fields[k2].0@ && #[trigger] find_member(ms, fields[k2].0@) == Some(k2) && de(
            ms[k2].1,
            fields[k2].1,
        ) == Ok::<Datum, Error>(fs[k2].1) by {
            assert(emit(fs[k2].1) == Ok::<Seq<Lexeme>, Error>(json_lexemes(ms[k2].1)));
        }
        lemma_de_struct_ok(ms, fields@, fs);
        lemma_single_member(n, obj);
        let es = datum_node(d)->Object_0;
        assert(es.len() == 1 && es[0] == (n, obj));
        assert(de_payload(n, obj, vs[k].1) == Ok::<Datum, Error>(d));
        let t = json_members(ms);
        assert(seq![Lexeme::StartObject] + (seq![Lexeme::Str(n), Lexeme::Colon] + (seq![
            Lexeme::StartObject,
        ] + t + seq![Lexeme::EndObject])) + seq![Lexeme::EndObject] =~= seq![
            Lexeme::StartObject,
            Lexeme::Str(n),
            Lexeme::Colon,
            Lexeme::StartObject,
        ] + t + seq![Lexeme::EndObject, Lexeme::EndObject]);
        }
}

/// Round trip: a value that conforms to a shape is written as the text of a
/// node, and reading that node back with the same shape gives the value again.
pub proof fn lemma_round_trip(d: Datum, s: Shape)
    requires
        conforms(d, s),
    ensures
        emit(d) == Ok::<Seq<Lexeme>, Error>(json_lexemes(datum_node(d))),
        de(datum_node(d), s) == Ok::<Datum, Error>(d),
    decreases d, 1nat,
{
    match d {
        Datum::Sequence(_) => lemma_round_trip_sequence(d, s),
        Datum::Mapping(_) => lemma_round_trip_mapping(d, s),
        Datum::Struct(_) => lemma_round_trip_struct(d, s),
        Datum::NewtypeVariant(..) => lemma_round_trip_newtype_variant(d, s),
        Datum::TupleVariant(..) => lemma_round_trip_tuple_variant(d, s),
        Datum::StructVariant(..) => lemma_round_trip_struct_variant(d, s),
        Datum::Int(w, v) => {
            if w.is_signed() {
                assert((v as i64) as int == v);
            } else {
                assert((v as u64) as int == v);
            }
        },
        Datum::Char(c) => {
            assert(seq![c].len() == 1 && seq![c][0] == c);
        },
        Datum::Bytes(bs) => {
            lemma_bytes_text(bs);
            lemma_de_bytes_ok(bs);
        },
        Datum::Present(x) => {
            let b = s->Optional_0;
            lemma_round_trip(*x, *b);
        },
        Datum::NewtypeStruct(x) => {
            let b = s->NewtypeStruct_0;
            lemma_round_trip(*x, *b);
        },






        _ => {},
    }
}

} // verus!
