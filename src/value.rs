use vstd::prelude::*;

use crate::error::{Error, IntWidth};
use crate::node::{Json, Node};
use crate::ser::{emit, emit_entries, emit_items, is_finite_bits, separator, Lexeme};
use crate::typed::Datum;

verus! {

/// The deepest nesting that the generic-value converter accepts.
pub const MAX_NESTING_DEPTH: usize = 128;

/// A JSON number: signed, unsigned, or a finite double given by its bits.
#[derive(Clone, Copy, Debug, PartialEq, Eq, Structural)]
pub enum Number {
    Signed(i64),
    Unsigned(u64),
    Float(u64),
}

/// A dynamically typed value. The members of an object keep their order.
#[derive(Debug, PartialEq)]
pub enum Value {
    Null,
    Bool(bool),
    Number(Number),
    String(String),
    Array(Vec<Value>),
    Object(Vec<(String, Value)>),
}

/// The mathematical model of a dynamically typed value.
pub ghost enum Tagged {
    Null,
    Bool(bool),
    Number(Number),
    String(Seq<char>),
    Array(Seq<Tagged>),
    Object(Seq<(Seq<char>, Tagged)>),
}

impl Value {
    pub open spec fn model(self) -> Tagged
        decreases self,
    {
        match self {
            Value::Null => Tagged::Null,
            Value::Bool(b) => Tagged::Bool(b),
            Value::Number(n) => Tagged::Number(n),
            Value::String(s) => Tagged::String(s@),
            Value::Array(v) => Tagged::Array(
                Seq::new(v.len() as nat, |i: int| if 0 <= i < v.len() { v[i].model() } else { Tagged::Null }),
            ),
            Value::Object(v) => Tagged::Object(
                Seq::new(
                    v.len() as nat,
                    |i: int|
                        if 0 <= i < v.len() {
                            (v[i].0@, v[i].1.model())
                        } else {
                            (Seq::empty(), Tagged::Null)
                        },
                ),
            ),
        }
    }
}

/// The model of an outcome of conversion.
pub open spec fn outcome(r: Result<Value, Error>) -> Result<Tagged, Error> {
    match r {
        Ok(v) => Ok(v.model()),
        Err(e) => Err(e),
    }
}

/// The conversion of a node that sits `depth` levels down in its document:
/// too deep a node, or a non-finite double, is an error; the first one in
/// document order decides which.
pub open spec fn convert(j: Json, depth: nat) -> Result<Tagged, Error>
    decreases j,
{
    if depth > MAX_NESTING_DEPTH {
        Err(Error::DepthExceeded)
    } else {
        match j {
            Json::Null => Ok(Tagged::Null),
            Json::Bool(b) => Ok(Tagged::Bool(b)),
            Json::Int64(i) => Ok(Tagged::Number(Number::Signed(i))),
            Json::UInt64(u) => Ok(Tagged::Number(Number::Unsigned(u))),
            Json::Double(b) => if is_finite_bits(b) {
                Ok(Tagged::Number(Number::Float(b)))
            } else {
                Err(Error::NonFiniteNumber { bits: b })
            },
            Json::String(s) => Ok(Tagged::String(s)),
            Json::Array(items) => match convert_items(items, depth + 1) {
                Ok(vs) => Ok(Tagged::Array(vs)),
                Err(e) => Err(e),
            },
            Json::Object(es) => match convert_members(es, depth + 1) {
                Ok(ms) => Ok(Tagged::Object(ms)),
                Err(e) => Err(e),
            },
        }
    }
}

pub open spec fn convert_items(items: Seq<Json>, depth: nat) -> Result<Seq<Tagged>, Error>
    decreases items,
{
    if items.len() == 0 {
        Ok(Seq::empty())
    } else {
        match convert_items(items.subrange(0, items.len() - 1), depth) {
            Err(e) => Err(e),
            Ok(vs) => match convert(items[items.len() - 1], depth) {
                Err(e) => Err(e),
                Ok(v) => Ok(vs.push(v)),
            },
        }
    }
}

pub open spec fn convert_members(es: Seq<(Seq<char>, Json)>, depth: nat) -> Result<
    Seq<(Seq<char>, Tagged)>,
    Error,
>
    decreases es,
{
    if es.len() == 0 {
        Ok(Seq::empty())
    } else {
        match convert_members(es.subrange(0, es.len() - 1), depth) {
            Err(e) => Err(e),
            Ok(ms) => match convert(es[es.len() - 1].1, depth) {
                Err(e) => Err(e),
                Ok(v) => Ok(ms.push((es[es.len() - 1].0, v))),
            },
        }
    }
}

proof fn lemma_items_prefix_err(items: Seq<Json>, depth: nat, k: int)
    requires
        0 <= k <= items.len(),
        convert_items(items.subrange(0, k), depth) is Err,
    ensures
        convert_items(items, depth) == convert_items(items.subrange(0, k), depth),
    decreases items.len(),
{
    if k < items.len() {
        let p = items.subrange(0, items.len() - 1);
        assert(p.subrange(0, k) =~= items.subrange(0, k));
        lemma_items_prefix_err(p, depth, k);
    } else {
        assert(items.subrange(0, k) =~= items);
    }
}

proof fn lemma_members_prefix_err(es: Seq<(Seq<char>, Json)>, depth: nat, k: int)
    requires
        0 <= k <= es.len(),
        convert_members(es.subrange(0, k), depth) is Err,
    ensures
        convert_members(es, depth) == convert_members(es.subrange(0, k), depth),
    decreases es.len(),
{
    if k < es.len() {
        let p = es.subrange(0, es.len() - 1);
        assert(p.subrange(0, k) =~= es.subrange(0, k));
        lemma_members_prefix_err(p, depth, k);
    } else {
        assert(es.subrange(0, k) =~= es);
    }
}

/// Whether every node of `j`, which sits `depth` levels down, sits at most
/// `MAX_NESTING_DEPTH` levels down.
pub open spec fn within_depth(j: Json, depth: nat) -> bool
    decreases j,
{
    depth <= MAX_NESTING_DEPTH && match j {
        Json::Array(items) => forall|i: int|
            0 <= i < items.len() ==> within_depth(#[trigger] items[i], depth + 1),
        Json::Object(es) => forall|i: int|
            0 <= i < es.len() ==> within_depth(#[trigger] es[i].1, depth + 1),
        _ => true,
    }
}

/// Whether every double of `j` is finite.
pub open spec fn finite_numbers(j: Json) -> bool
    decreases j,
{
    match j {
        Json::Double(b) => is_finite_bits(b),
        Json::Array(items) => forall|i: int|
            0 <= i < items.len() ==> finite_numbers(#[trigger] items[i]),
        Json::Object(es) => forall|i: int| 0 <= i < es.len() ==> finite_numbers(#[trigger] es[i].1),
        _ => true,
    }
}

proof fn lemma_items_ok(items: Seq<Json>, depth: nat)
    ensures
        convert_items(items, depth) is Ok <==> forall|i: int|
            0 <= i < items.len() ==> (#[trigger] convert(items[i], depth)) is Ok,
        convert_items(items, depth) is Ok ==> convert_items(items, depth)->Ok_0.len() == items.len(),
    decreases items.len(),
{
    if items.len() > 0 {
        let p = items.subrange(0, items.len() - 1);
        lemma_items_ok(p, depth);
        let last = items[items.len() - 1];
        assert(convert_items(items, depth) == match convert_items(p, depth) {
            Err(e) => Err(e),
            Ok(vs) => match convert(last, depth) {
                Err(e) => Err(e),
                Ok(v) => Ok(vs.push(v)),
            },
        });
        if forall|i: int| 0 <= i < items.len() ==> (#[trigger] convert(items[i], depth)) is Ok {
            assert forall|i: int| 0 <= i < p.len() implies (#[trigger] convert(p[i], depth)) is Ok by {
                assert(convert(items[i], depth) is Ok);
            }
        }
        if convert_items(items, depth) is Ok {
            assert forall|i: int| 0 <= i < items.len() implies (#[trigger] convert(items[i], depth)) is Ok by {
                if i < p.len() {
                    assert(convert(p[i], depth) is Ok);
                }
            }
        }
    }
}

proof fn lemma_members_ok(es: Seq<(Seq<char>, Json)>, depth: nat)
    ensures
        convert_members(es, depth) is Ok <==> forall|i: int|
            0 <= i < es.len() ==> (#[trigger] convert(es[i].1, depth)) is Ok,
        convert_members(es, depth) is Ok ==> convert_members(es, depth)->Ok_0.len() == es.len(),
    decreases es.len(),
{
    if es.len() > 0 {
        let p = es.subrange(0, es.len() - 1);
        lemma_members_ok(p, depth);
        let last = es[es.len() - 1];
        assert(convert_members(es, depth) == match convert_members(p, depth) {
            Err(e) => Err(e),
            Ok(ms) => match convert(last.1, depth) {
                Err(e) => Err(e),
                Ok(v) => Ok(ms.push((last.0, v))),
            },
        });
        if forall|i: int| 0 <= i < es.len() ==> (#[trigger] convert(es[i].1, depth)) is Ok {
            assert forall|i: int| 0 <= i < p.len() implies (#[trigger] convert(p[i].1, depth)) is Ok by {
                assert(convert(es[i].1, depth) is Ok);
            }
        }
        if convert_members(es, depth) is Ok {
            assert forall|i: int| 0 <= i < es.len() implies (#[trigger] convert(es[i].1, depth)) is Ok by {
                if i < p.len() {
                    assert(convert(p[i].1, depth) is Ok);
                }
            }
        }
    }
}

/// Depth bound: converting a node that sits `depth` levels down succeeds
/// exactly when no node of it sits deeper than `MAX_NESTING_DEPTH` levels
/// and all its doubles are finite.
pub proof fn lemma_convert_succeeds(j: Json, depth: nat)
    ensures
        convert(j, depth) is Ok <==> within_depth(j, depth) && finite_numbers(j),
    decreases j,
{
    if depth <= MAX_NESTING_DEPTH {
        match j {
            Json::Array(items) => {
                lemma_items_ok(items, depth + 1);
                assert forall|i: int| 0 <= i < items.len() implies (convert(items[i], depth + 1) is Ok
                    <==> within_depth(items[i], depth + 1) && finite_numbers(items[i])) by {
                    lemma_convert_succeeds(items[i], depth + 1);
                }
            },
            Json::Object(es) => {
                lemma_members_ok(es, depth + 1);
                assert forall|i: int| 0 <= i < es.len() implies (convert(es[i].1, depth + 1) is Ok
                    <==> within_depth(es[i].1, depth + 1) && finite_numbers(es[i].1)) by {
                    lemma_convert_succeeds(es[i].1, depth + 1);
                }
            },
            _ => {},
        }
    }
}

/// The text of a node, as a parser reads it back.
pub open spec fn json_lexemes(j: Json) -> Seq<Lexeme>
    decreases j,
{
    match j {
        Json::Null => seq![Lexeme::Null],
        Json::Bool(b) => seq![Lexeme::Bool(b)],
        Json::Int64(i) => seq![Lexeme::I64(i)],
        Json::UInt64(u) => seq![Lexeme::U64(u)],
        Json::Double(b) => seq![Lexeme::F64(b)],
        Json::String(s) => seq![Lexeme::Str(s)],
        Json::Array(items) => seq![Lexeme::StartArray] + json_items(items) + seq![Lexeme::EndArray],
        Json::Object(es) => seq![Lexeme::StartObject] + json_members(es) + seq![Lexeme::EndObject],
    }
}

pub open spec fn json_items(items: Seq<Json>) -> Seq<Lexeme>
    decreases items,
{
    if items.len() == 0 {
        Seq::empty()
    } else {
        json_items(items.subrange(0, items.len() - 1)) + separator(items.len() - 1) + json_lexemes(
            items[items.len() - 1],
        )
    }
}

pub open spec fn json_members(es: Seq<(Seq<char>, Json)>) -> Seq<Lexeme>
    decreases es,
{
    if es.len() == 0 {
        Seq::empty()
    } else {
        json_members(es.subrange(0, es.len() - 1)) + separator(es.len() - 1) + seq![
            Lexeme::Str(es[es.len() - 1].0),
            Lexeme::Colon,
        ] + json_lexemes(es[es.len() - 1].1)
    }
}

/// How a dynamically typed value presents itself to the serializer.
pub open spec fn tagged_datum(t: Tagged) -> Datum
    decreases t,
{
    match t {
        Tagged::Null => Datum::Unit,
        Tagged::Bool(b) => Datum::Bool(b),
        Tagged::Number(Number::Signed(i)) => Datum::Int(IntWidth::I64, i as int),
        Tagged::Number(Number::Unsigned(u)) => Datum::Int(IntWidth::U64, u as int),
        Tagged::Number(Number::Float(b)) => Datum::F64(b),
        Tagged::String(s) => Datum::Str(s),
        Tagged::Array(vs) => Datum::Sequence(
            Seq::new(vs.len(), |i: int| if 0 <= i < vs.len() { tagged_datum(vs[i]) } else { Datum::Unit }),
        ),
        Tagged::Object(ms) => Datum::Mapping(
            Seq::new(
                ms.len(),
                |i: int|
                    if 0 <= i < ms.len() {
                        (Datum::Str(ms[i].0), tagged_datum(ms[i].1))
                    } else {
                        (Datum::Unit, Datum::Unit)
                    },
            ),
        ),
    }
}

proof fn lemma_items_values(items: Seq<Json>, depth: nat)
    requires
        convert_items(items, depth) is Ok,
    ensures
        convert_items(items, depth)->Ok_0.len() == items.len(),
        forall|i: int|
            0 <= i < items.len() ==> #[trigger] convert(items[i], depth) == Ok::<Tagged, Error>(
                convert_items(items, depth)->Ok_0[i],
            ),
    decreases items.len(),
{
    if items.len() > 0 {
        let p = items.subrange(0, items.len() - 1);
        lemma_items_values(p, depth);
        assert forall|i: int| 0 <= i < p.len() implies p[i] == items[i] by {}
    }
}

proof fn lemma_members_values(es: Seq<(Seq<char>, Json)>, depth: nat)
    requires
        convert_members(es, depth) is Ok,
    ensures
        convert_members(es, depth)->Ok_0.len() == es.len(),
        forall|i: int|
            0 <= i < es.len() ==> convert_members(es, depth)->Ok_0[i].0 == es[i].0
                && #[trigger] convert(es[i].1, depth) == Ok::<Tagged, Error>(
                convert_members(es, depth)->Ok_0[i].1,
            ),
    decreases es.len(),
{
    if es.len() > 0 {
        let p = es.subrange(0, es.len() - 1);
        lemma_members_values(p, depth);
        assert forall|i: int| 0 <= i < p.len() implies p[i] == es[i] by {}
    }
}

pub(crate) proof fn lemma_emit_items_text(ds: Seq<Datum>, items: Seq<Json>)
    requires
        ds.len() == items.len(),
        forall|i: int|
            0 <= i < ds.len() ==> #[trigger] emit(ds[i]) == Ok::<Seq<Lexeme>, Error>(
                json_lexemes(items[i]),
            ),
    ensures
        emit_items(ds) == Ok::<Seq<Lexeme>, Error>(json_items(items)),
    decreases ds.len(),
{
    if ds.len() > 0 {
        let n = ds.len() - 1;
        let p = ds.subrange(0, n);
        let q = items.subrange(0, n);
        assert forall|i: int| 0 <= i < p.len() implies #[trigger] emit(p[i]) == Ok::<
            Seq<Lexeme>,
            Error,
        >(json_lexemes(q[i])) by {
            assert(emit(ds[i]) == Ok::<Seq<Lexeme>, Error>(json_lexemes(items[i])));
        }
        lemma_emit_items_text(p, q);
        assert(emit(ds[n]) == Ok::<Seq<Lexeme>, Error>(json_lexemes(items[n])));
        assert(json_items(q) + (separator(n) + json_lexemes(items[n]) + Seq::empty()) =~= json_items(
            q,
        ) + separator(n) + json_lexemes(items[n]));
    }
}

pub(crate) proof fn lemma_emit_members_text(ds: Seq<(Datum, Datum)>, es: Seq<(Seq<char>, Json)>)
    requires
        ds.len() == es.len(),
        forall|i: int|
            0 <= i < ds.len() ==> ds[i].0 == Datum::Str(es[i].0) && #[trigger] emit(ds[i].1) == Ok::<
                Seq<Lexeme>,
                Error,
            >(json_lexemes(es[i].1)),
    ensures
        emit_entries(ds) == Ok::<Seq<Lexeme>, Error>(json_members(es)),
    decreases ds.len(),
{
    if ds.len() > 0 {
        let n = ds.len() - 1;
        let p = ds.subrange(0, n);
        let q = es.subrange(0, n);
        assert forall|i: int| 0 <= i < p.len() implies p[i].0 == Datum::Str(q[i].0) && #[trigger] emit(
            p[i].1,
        ) == Ok::<Seq<Lexeme>, Error>(json_lexemes(q[i].1)) by {
            assert(emit(ds[i].1) == Ok::<Seq<Lexeme>, Error>(json_lexemes(es[i].1)));
        }
        lemma_emit_members_text(p, q);
        assert(emit(ds[n].1) == Ok::<Seq<Lexeme>, Error>(json_lexemes(es[n].1)));
        assert(ds[n].0 == Datum::Str(es[n].0));
        assert(emit(ds[n].0) == Ok::<Seq<Lexeme>, Error>(seq![Lexeme::Str(es[n].0)]));
        assert(json_members(q) + ((separator(n) + seq![Lexeme::Str(es[n].0)] + seq![Lexeme::Colon])
            + json_lexemes(es[n].1)) =~= json_members(q) + separator(n) + seq![
            Lexeme::Str(es[n].0),
            Lexeme::Colon,
        ] + json_lexemes(es[n].1));
    }
}

/// Idempotence: writing the dynamically typed value converted from a node
/// gives back the text of that very node, so that reading it again yields
/// the same node, and converting that the same value.
pub proof fn lemma_convert_then_write(j: Json, depth: nat)
    requires
        convert(j, depth) is Ok,
    ensures
        emit(tagged_datum(convert(j, depth)->Ok_0)) == Ok::<Seq<Lexeme>, Error>(json_lexemes(j)),
    decreases j,
{
    match j {
        Json::Array(items) => {
            let ts = convert_items(items, depth + 1)->Ok_0;
            lemma_items_values(items, depth + 1);
            let ds = tagged_datum(Tagged::Array(ts))->Sequence_0;
            assert forall|i: int| 0 <= i < ds.len() implies #[trigger] emit(ds[i]) == Ok::<
                Seq<Lexeme>,
                Error,
            >(json_lexemes(items[i])) by {
                assert(convert(items[i], depth + 1) == Ok::<Tagged, Error>(ts[i]));
                lemma_convert_then_write(items[i], depth + 1);
            }
            lemma_emit_items_text(ds, items);
        },
        Json::Object(es) => {
            let ms = convert_members(es, depth + 1)->Ok_0;
            lemma_members_values(es, depth + 1);
            let ds = tagged_datum(Tagged::Object(ms))->Mapping_0;
            assert forall|i: int| 0 <= i < ds.len() implies ds[i].0 == Datum::Str(es[i].0)
                && #[trigger] emit(ds[i].1) == Ok::<Seq<Lexeme>, Error>(json_lexemes(es[i].1)) by {
                assert(convert(es[i].1, depth + 1) == Ok::<Tagged, Error>(ms[i].1));
                lemma_convert_then_write(es[i].1, depth + 1);
            }
            lemma_emit_members_text(ds, es);
        },
        _ => {},
    }
}

/// Converts a node into a dynamically typed value, refusing nesting deeper
/// than `MAX_NESTING_DEPTH` and non-finite doubles.
pub fn element_to_value(element: &Node) -> (r: Result<Value, Error>)
    ensures
        outcome(r) == convert(element.model(), 0),
{
    element_to_value_inner(element, 0)
}

fn element_to_value_inner(element: &Node, depth: usize) -> (r: Result<Value, Error>)
    ensures
        outcome(r) == convert(element.model(), depth as nat),
    decreases element,
{
    if depth > MAX_NESTING_DEPTH {
        return Err(Error::DepthExceeded);
    }
    match element {
        Node::Null => Ok(Value::Null),
        Node::Bool(b) => Ok(Value::Bool(*b)),
        Node::Int64(i) => Ok(Value::Number(Number::Signed(*i))),
        Node::UInt64(u) => Ok(Value::Number(Number::Unsigned(*u))),
        Node::Double(b) => {
            if (*b >> 52u64) & 0x7ffu64 != 0x7ffu64 {
                Ok(Value::Number(Number::Float(*b)))
            } else {
                Err(Error::NonFiniteNumber { bits: *b })
            }
        },
        Node::String(s) => Ok(Value::String(s.clone())),
        Node::Array(items) => {
            let ghost m = element.model()->Array_0;
            let mut out: Vec<Value> = Vec::with_capacity(items.len());
            let mut i: usize = 0;
            assert(m.subrange(0, 0) =~= Seq::<Json>::empty());
            while i < items.len()
                invariant
                    i <= items@.len(),
                    element is Array,
                    element->Array_0 == *items,
                    m == element.model()->Array_0,
                    m.len() == items@.len(),
                    forall|k: int| 0 <= k < items@.len() ==> m[k] == #[trigger] items@[k].model(),
                    depth <= MAX_NESTING_DEPTH,
                    convert_items(m.subrange(0, i as int), depth as nat + 1) matches Ok(vs)
                        && vs.len() == out@.len()
                        && forall|k: int| 0 <= k < out@.len() ==> vs[k] == #[trigger] out@[k].model(),
                decreases items@.len() - i,
            {
                let ghost p = m.subrange(0, i + 1);
                assert(p.subrange(0, i as int) =~= m.subrange(0, i as int));
                assert(p[i as int] == items@[i as int].model());
                proof {
                    assert(decreases_to!(*element => element->Array_0));
                    assert(decreases_to!(element->Array_0 => element->Array_0[i as int]));
                }
                let c = element_to_value_inner(&items[i], depth + 1);
                match c {
                    Err(e) => {
                        proof {
                            assert(convert_items(p, depth as nat + 1) == Err::<Seq<Tagged>, Error>(e));
                            lemma_items_prefix_err(m, depth as nat + 1, i + 1);
                        }
                        return Err(e);
                    },
                    Ok(v) => {
                        out.push(v);
                    },
                }
                i = i + 1;
            }
            assert(m.subrange(0, i as int) =~= m);
            assert(convert_items(m.subrange(0, i as int), depth as nat + 1) == convert_items(m, depth as nat + 1));
            let ghost vs = convert_items(m, depth as nat + 1)->Ok_0;
            assert(forall|k: int| 0 <= k < out@.len() ==> vs[k] == #[trigger] out@[k].model());
            let r = Value::Array(out);
            assert(r.model()->Array_0.len() == vs.len());
            assert(forall|k: int| 0 <= k < vs.len() ==> r.model()->Array_0[k] == (#[trigger] out@[k]).model());
            assert(r.model()->Array_0 =~= convert_items(m, depth as nat + 1)->Ok_0);
            Ok(r)
        },
        Node::Object(es) => {
            let ghost m = element.model()->Object_0;
            let mut out: Vec<(String, Value)> = Vec::with_capacity(es.len());
            let mut i: usize = 0;
            assert(m.subrange(0, 0) =~= Seq::<(Seq<char>, Json)>::empty());
            while i < es.len()
                invariant
                    i <= es@.len(),
                    element is Object,
                    element->Object_0 == *es,
                    m == element.model()->Object_0,
                    m.len() == es@.len(),
                    forall|k: int|
                        0 <= k < es@.len() ==> m[k] == (#[trigger] es@[k].0@, es@[k].1.model()),
                    depth <= MAX_NESTING_DEPTH,
                    convert_members(m.subrange(0, i as int), depth as nat + 1) matches Ok(ms)
                        && ms.len() == out@.len()
                        && forall|k: int|
                        0 <= k < out@.len() ==> ms[k] == (#[trigger] out@[k].0@, out@[k].1.model()),
                decreases es@.len() - i,
            {
                let ghost p = m.subrange(0, i + 1);
                assert(p.subrange(0, i as int) =~= m.subrange(0, i as int));
                assert(p[i as int] == (es@[i as int].0@, es@[i as int].1.model()));
                proof {
                    assert(decreases_to!(*element => element->Object_0));
                    assert(decreases_to!(element->Object_0 => element->Object_0[i as int]));
                    assert(decreases_to!(element->Object_0[i as int] => element->Object_0[i as int].1));
                }
                let c = element_to_value_inner(&es[i].1, depth + 1);
                match c {
                    Err(e) => {
                        proof {
                            assert(convert_members(p, depth as nat + 1) == Err::<Seq<(Seq<char>, Tagged)>, Error>(e));
                            lemma_members_prefix_err(m, depth as nat + 1, i + 1);
                        }
                        return Err(e);
                    },
                    Ok(v) => {
                        out.push((es[i].0.clone(), v));
                    },
                }
                i = i + 1;
            }
            assert(m.subrange(0, i as int) =~= m);
            let r = Value::Object(out);
            assert(r.model()->Object_0 =~= convert_members(m, depth as nat + 1)->Ok_0);
            Ok(r)
        },
    }
}

} // verus!
