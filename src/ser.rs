use vstd::prelude::*;

use crate::error::Error;
use crate::typed::{data, entry_data, field_data, Datum, Typed};

verus! {

/// A token of JSON text: one call on the output buffer, which spells it
/// (it quotes and escapes strings and writes numbers in decimal).
///
/// A double is given by its IEEE-754 bits.
#[derive(Debug, PartialEq)]
pub enum Token {
    StartObject,
    EndObject,
    StartArray,
    EndArray,
    Comma,
    Colon,
    Null,
    Bool(bool),
    I64(i64),
    U64(u64),
    F64(u64),
    Str(String),
}

/// The mathematical model of a token.
pub ghost enum Lexeme {
    StartObject,
    EndObject,
    StartArray,
    EndArray,
    Comma,
    Colon,
    Null,
    Bool(bool),
    I64(i64),
    U64(u64),
    F64(u64),
    Str(Seq<char>),
}

impl Token {
    pub open spec fn model(self) -> Lexeme {
        match self {
            Token::StartObject => Lexeme::StartObject,
            Token::EndObject => Lexeme::EndObject,
            Token::StartArray => Lexeme::StartArray,
            Token::EndArray => Lexeme::EndArray,
            Token::Comma => Lexeme::Comma,
            Token::Colon => Lexeme::Colon,
            Token::Null => Lexeme::Null,
            Token::Bool(b) => Lexeme::Bool(b),
            Token::I64(i) => Lexeme::I64(i),
            Token::U64(u) => Lexeme::U64(u),
            Token::F64(b) => Lexeme::F64(b),
            Token::Str(s) => Lexeme::Str(s@),
        }
    }
}

/// The model of a token sequence.
pub open spec fn lexemes(ts: Seq<Token>) -> Seq<Lexeme> {
    ts.map_values(|t: Token| t.model())
}

/// Whether IEEE-754 bits stand for a finite number: the exponent is not all ones.
pub open spec fn is_finite_bits(bits: u64) -> bool {
    (bits >> 52u64) & 0x7ffu64 != 0x7ffu64
}

/// `pre + r + post` when `r` is `Ok`; the error of `r` otherwise.
pub open spec fn wrap(pre: Seq<Lexeme>, r: Result<Seq<Lexeme>, Error>, post: Seq<Lexeme>) -> Result<
    Seq<Lexeme>,
    Error,
> {
    match r {
        Ok(t) => Ok(pre + t + post),
        Err(e) => Err(e),
    }
}

/// The concatenation of two outcomes; the first error wins.
pub open spec fn join(a: Result<Seq<Lexeme>, Error>, b: Result<Seq<Lexeme>, Error>) -> Result<
    Seq<Lexeme>,
    Error,
> {
    match a {
        Err(e) => Err(e),
        Ok(x) => match b {
            Err(e) => Err(e),
            Ok(y) => Ok(x + y),
        },
    }
}

/// A comma before every element but the first.
pub open spec fn separator(i: int) -> Seq<Lexeme> {
    if i > 0 {
        seq![Lexeme::Comma]
    } else {
        Seq::empty()
    }
}

/// The comma-separated numbers of a byte sequence.
pub open spec fn byte_tokens(b: Seq<u8>) -> Seq<Lexeme>
    decreases b.len(),
{
    if b.len() == 0 {
        Seq::empty()
    } else {
        byte_tokens(b.subrange(0, b.len() - 1)) + separator(b.len() - 1) + seq![
            Lexeme::U64(b[b.len() - 1] as u64),
        ]
    }
}

/// The JSON text of a typed value, or the error of its first non-finite double.
pub open spec fn emit(d: Datum) -> Result<Seq<Lexeme>, Error>
    decreases d,
{
    match d {
        Datum::Unit | Datum::Absent => Ok(seq![Lexeme::Null]),
        Datum::Bool(b) => Ok(seq![Lexeme::Bool(b)]),
        Datum::Int(w, v) => if w.is_signed() {
            Ok(seq![Lexeme::I64(v as i64)])
        } else {
            Ok(seq![Lexeme::U64(v as u64)])
        },
        Datum::F64(b) => if is_finite_bits(b) {
            Ok(seq![Lexeme::F64(b)])
        } else {
            Err(Error::NonFiniteNumber { bits: b })
        },
        Datum::Char(c) => Ok(seq![Lexeme::Str(seq![c])]),
        Datum::Str(s) => Ok(seq![Lexeme::Str(s)]),
        Datum::Bytes(b) => Ok(seq![Lexeme::StartArray] + byte_tokens(b) + seq![Lexeme::EndArray]),
        Datum::Present(x) => emit(*x),
        Datum::NewtypeStruct(x) => emit(*x),
        Datum::Sequence(items) => wrap(
            seq![Lexeme::StartArray],
            emit_items(items),
            seq![Lexeme::EndArray],
        ),
        Datum::Mapping(es) => wrap(
            seq![Lexeme::StartObject],
            emit_entries(es),
            seq![Lexeme::EndObject],
        ),
        Datum::Struct(fs) => wrap(
            seq![Lexeme::StartObject],
            emit_fields(fs),
            seq![Lexeme::EndObject],
        ),
        Datum::UnitVariant(n) => Ok(seq![Lexeme::Str(n)]),
        Datum::NewtypeVariant(n, x) => wrap(
            seq![Lexeme::StartObject, Lexeme::Str(n), Lexeme::Colon],
            emit(*x),
            seq![Lexeme::EndObject],
        ),
        Datum::TupleVariant(n, items) => wrap(
            seq![Lexeme::StartObject, Lexeme::Str(n), Lexeme::Colon, Lexeme::StartArray],
            emit_items(items),
            seq![Lexeme::EndArray, Lexeme::EndObject],
        ),
        Datum::StructVariant(n, fs) => wrap(
            seq![Lexeme::StartObject, Lexeme::Str(n), Lexeme::Colon, Lexeme::StartObject],
            emit_fields(fs),
            seq![Lexeme::EndObject, Lexeme::EndObject],
        ),
    }
}

/// The comma-separated texts of a sequence's elements.
pub open spec fn emit_items(items: Seq<Datum>) -> Result<Seq<Lexeme>, Error>
    decreases items,
{
    if items.len() == 0 {
        Ok(Seq::empty())
    } else {
        join(
            emit_items(items.subrange(0, items.len() - 1)),
            wrap(separator(items.len() - 1), emit(items[items.len() - 1]), Seq::empty()),
        )
    }
}

/// The comma-separated `key:value` texts of a map's entries.
pub open spec fn emit_entries(es: Seq<(Datum, Datum)>) -> Result<Seq<Lexeme>, Error>
    decreases es,
{
    if es.len() == 0 {
        Ok(Seq::empty())
    } else {
        join(
            emit_entries(es.subrange(0, es.len() - 1)),
            join(
                wrap(separator(es.len() - 1), emit(es[es.len() - 1].0), seq![Lexeme::Colon]),
                emit(es[es.len() - 1].1),
            ),
        )
    }
}

/// The comma-separated `"name":value` texts of a struct's fields.
pub open spec fn emit_fields(fs: Seq<(Seq<char>, Datum)>) -> Result<Seq<Lexeme>, Error>
    decreases fs,
{
    if fs.len() == 0 {
        Ok(Seq::empty())
    } else {
        join(
            emit_fields(fs.subrange(0, fs.len() - 1)),
            wrap(
                separator(fs.len() - 1) + seq![Lexeme::Str(fs[fs.len() - 1].0), Lexeme::Colon],
                emit(fs[fs.len() - 1].1),
                Seq::empty(),
            ),
        )
    }
}


/// Relies on `char::to_string`: the string of the one character.
#[verifier::external_body]
fn char_to_string(c: char) -> (r: String)
    ensures
        r@ == seq![c],
{
    c.to_string()
}

fn push_token(out: &mut Vec<Token>, t: Token)
    ensures
        lexemes(final(out)@) == lexemes(old(out)@) + seq![t.model()],
{
    let ghost m = t.model();
    out.push(t);
    assert(lexemes(out@) =~= lexemes(old(out)@) + seq![m]);
}

/// Appends `true` or `false`.
pub fn serialize_bool(out: &mut Vec<Token>, v: bool)
    ensures
        lexemes(final(out)@) == lexemes(old(out)@) + seq![Lexeme::Bool(v)],
{
    push_token(out, Token::Bool(v));
}

/// Appends a signed integer, widened to 64 bits.
pub fn serialize_i64(out: &mut Vec<Token>, v: i64)
    ensures
        lexemes(final(out)@) == lexemes(old(out)@) + seq![Lexeme::I64(v)],
{
    push_token(out, Token::I64(v));
}

/// Appends an unsigned integer, widened to 64 bits.
pub fn serialize_u64(out: &mut Vec<Token>, v: u64)
    ensures
        lexemes(final(out)@) == lexemes(old(out)@) + seq![Lexeme::U64(v)],
{
    push_token(out, Token::U64(v));
}

/// Appends a double given by its bits; a NaN or an infinity is an error,
/// and then nothing is appended.
pub fn serialize_f64(out: &mut Vec<Token>, bits: u64) -> (r: Result<(), Error>)
    ensures
        is_finite_bits(bits) ==> r is Ok && lexemes(final(out)@) == lexemes(old(out)@) + seq![
            Lexeme::F64(bits),
        ],
        !is_finite_bits(bits) ==> r == Err::<(), Error>(Error::NonFiniteNumber { bits })
            && final(out)@ == old(out)@,
{
    if (bits >> 52u64) & 0x7ffu64 != 0x7ffu64 {
        push_token(out, Token::F64(bits));
        Ok(())
    } else {
        Err(Error::NonFiniteNumber { bits })
    }
}

/// Appends a string, which the buffer quotes and escapes.
pub fn serialize_str(out: &mut Vec<Token>, s: &str)
    ensures
        lexemes(final(out)@) == lexemes(old(out)@) + seq![Lexeme::Str(s@)],
{
    push_token(out, Token::Str(String::from_str(s)));
}

/// Appends a character as a string of one character.
pub fn serialize_char(out: &mut Vec<Token>, c: char)
    ensures
        lexemes(final(out)@) == lexemes(old(out)@) + seq![Lexeme::Str(seq![c])],
{
    push_token(out, Token::Str(char_to_string(c)));
}

/// Appends `null`: the unit value, a unit struct, an absent optional.
pub fn serialize_unit(out: &mut Vec<Token>)
    ensures
        lexemes(final(out)@) == lexemes(old(out)@) + seq![Lexeme::Null],
{
    push_token(out, Token::Null);
}

/// Appends a unit variant: its name as a string.
pub fn serialize_unit_variant(out: &mut Vec<Token>, variant: &str)
    ensures
        lexemes(final(out)@) == lexemes(old(out)@) + seq![Lexeme::Str(variant@)],
{
    serialize_str(out, variant);
}

/// Appends bytes as an array of unsigned integers.
pub fn serialize_bytes(out: &mut Vec<Token>, v: &[u8])
    ensures
        lexemes(final(out)@) == lexemes(old(out)@) + seq![Lexeme::StartArray] + byte_tokens(v@)
            + seq![Lexeme::EndArray],
{
    push_token(out, Token::StartArray);
    let ghost start = lexemes(out@);
    let mut i: usize = 0;
    while i < v.len()
        invariant
            i <= v@.len(),
            lexemes(out@) == start + byte_tokens(v@.subrange(0, i as int)),
        decreases v@.len() - i,
    {
        if i > 0 {
            push_token(out, Token::Comma);
        }
        push_token(out, Token::U64(v[i] as u64));
        assert(v@.subrange(0, i + 1).subrange(0, i as int) =~= v@.subrange(0, i as int));
        i = i + 1;
    }
    assert(v@.subrange(0, v@.len() as int) =~= v@);
    push_token(out, Token::EndArray);
}

/// Opens a newtype variant: `{"<variant>":`.
pub fn begin_newtype_variant(out: &mut Vec<Token>, variant: &str)
    ensures
        lexemes(final(out)@) == lexemes(old(out)@) + seq![
            Lexeme::StartObject,
            Lexeme::Str(variant@),
            Lexeme::Colon,
        ],
{
    push_token(out, Token::StartObject);
    serialize_str(out, variant);
    push_token(out, Token::Colon);
    assert(lexemes(out@) =~= lexemes(old(out)@) + seq![
        Lexeme::StartObject,
        Lexeme::Str(variant@),
        Lexeme::Colon,
    ]);
}

/// Closes a newtype variant: `}`.
pub fn end_newtype_variant(out: &mut Vec<Token>)
    ensures
        lexemes(final(out)@) == lexemes(old(out)@) + seq![Lexeme::EndObject],
{
    push_token(out, Token::EndObject);
}

/// The state of an array being written: whether an element was written yet,
/// and whether the array is the payload of a tuple variant.
pub struct SeqSerializer {
    first: bool,
    variant: bool,
}

impl SeqSerializer {
    /// No element was written yet.
    pub closed spec fn at_first(&self) -> bool {
        self.first
    }

    /// The array is the payload of a tuple variant.
    pub closed spec fn in_variant(&self) -> bool {
        self.variant
    }

    /// Writes the separator that goes before the next element.
    pub fn serialize_element(&mut self, out: &mut Vec<Token>)
        ensures
            lexemes(final(out)@) == lexemes(old(out)@) + (if old(self).at_first() {
                Seq::empty()
            } else {
                seq![Lexeme::Comma]
            }),
            !final(self).at_first(),
            final(self).in_variant() == old(self).in_variant(),
    {
        if !self.first {
            push_token(out, Token::Comma);
        } else {
            assert(lexemes(out@) =~= lexemes(old(out)@) + Seq::empty());
        }
        self.first = false;
    }

    /// Closes the array, and the tuple variant around it.
    pub fn end(self, out: &mut Vec<Token>)
        ensures
            lexemes(final(out)@) == lexemes(old(out)@) + (if self.in_variant() {
                seq![Lexeme::EndArray, Lexeme::EndObject]
            } else {
                seq![Lexeme::EndArray]
            }),
    {
        push_token(out, Token::EndArray);
        if self.variant {
            push_token(out, Token::EndObject);
            assert(lexemes(out@) =~= lexemes(old(out)@) + seq![Lexeme::EndArray, Lexeme::EndObject]);
        }
    }
}

/// Opens an array: sequences, tuples and tuple structs.
pub fn serialize_seq(out: &mut Vec<Token>) -> (r: SeqSerializer)
    ensures
        lexemes(final(out)@) == lexemes(old(out)@) + seq![Lexeme::StartArray],
        r.at_first(),
        !r.in_variant(),
{
    push_token(out, Token::StartArray);
    SeqSerializer { first: true, variant: false }
}

/// Opens a tuple variant: `{"<variant>":[`.
pub fn serialize_tuple_variant(out: &mut Vec<Token>, variant: &str) -> (r: SeqSerializer)
    ensures
        lexemes(final(out)@) == lexemes(old(out)@) + seq![
            Lexeme::StartObject,
            Lexeme::Str(variant@),
            Lexeme::Colon,
            Lexeme::StartArray,
        ],
        r.at_first(),
        r.in_variant(),
{
    begin_newtype_variant(out, variant);
    push_token(out, Token::StartArray);
    assert(lexemes(out@) =~= lexemes(old(out)@) + seq![
        Lexeme::StartObject,
        Lexeme::Str(variant@),
        Lexeme::Colon,
        Lexeme::StartArray,
    ]);
    SeqSerializer { first: true, variant: true }
}

/// The state of an object being written: whether a member was written yet,
/// and whether the object is the payload of a struct variant.
pub struct MapSerializer {
    first: bool,
    variant: bool,
}

impl MapSerializer {
    /// No member was written yet.
    pub closed spec fn at_first(&self) -> bool {
        self.first
    }

    /// The object is the payload of a struct variant.
    pub closed spec fn in_variant(&self) -> bool {
        self.variant
    }

    /// Writes the separator that goes before the next key.
    pub fn serialize_key(&mut self, out: &mut Vec<Token>)
        ensures
            lexemes(final(out)@) == lexemes(old(out)@) + (if old(self).at_first() {
                Seq::empty()
            } else {
                seq![Lexeme::Comma]
            }),
            !final(self).at_first(),
            final(self).in_variant() == old(self).in_variant(),
    {
        if !self.first {
            push_token(out, Token::Comma);
        } else {
            assert(lexemes(out@) =~= lexemes(old(out)@) + Seq::empty());
        }
        self.first = false;
    }

    /// Writes the colon between a key and its value.
    pub fn serialize_value(&self, out: &mut Vec<Token>)
        ensures
            lexemes(final(out)@) == lexemes(old(out)@) + seq![Lexeme::Colon],
    {
        push_token(out, Token::Colon);
    }

    /// Writes the separator, the name and the colon of a struct field.
    pub fn serialize_field(&mut self, out: &mut Vec<Token>, key: &str)
        ensures
            lexemes(final(out)@) == lexemes(old(out)@) + (if old(self).at_first() {
                Seq::empty()
            } else {
                seq![Lexeme::Comma]
            }) + seq![Lexeme::Str(key@), Lexeme::Colon],
            !final(self).at_first(),
            final(self).in_variant() == old(self).in_variant(),
    {
        let ghost before = lexemes(out@);
        self.serialize_key(out);
        let ghost mid = lexemes(out@);
        serialize_str(out, key);
        push_token(out, Token::Colon);
        assert(lexemes(out@) =~= mid + seq![Lexeme::Str(key@), Lexeme::Colon]);
    }

    /// Closes the object, and the struct variant around it.
    pub fn end(self, out: &mut Vec<Token>)
        ensures
            lexemes(final(out)@) == lexemes(old(out)@) + (if self.in_variant() {
                seq![Lexeme::EndObject, Lexeme::EndObject]
            } else {
                seq![Lexeme::EndObject]
            }),
    {
        push_token(out, Token::EndObject);
        if self.variant {
            push_token(out, Token::EndObject);
            assert(lexemes(out@) =~= lexemes(old(out)@) + seq![Lexeme::EndObject, Lexeme::EndObject]);
        }
    }
}

/// Opens an object: maps and structs.
pub fn serialize_map(out: &mut Vec<Token>) -> (r: MapSerializer)
    ensures
        lexemes(final(out)@) == lexemes(old(out)@) + seq![Lexeme::StartObject],
        r.at_first(),
        !r.in_variant(),
{
    push_token(out, Token::StartObject);
    MapSerializer { first: true, variant: false }
}

/// Opens a struct variant: `{"<variant>":{`.
pub fn serialize_struct_variant(out: &mut Vec<Token>, variant: &str) -> (r: MapSerializer)
    ensures
        lexemes(final(out)@) == lexemes(old(out)@) + seq![
            Lexeme::StartObject,
            Lexeme::Str(variant@),
            Lexeme::Colon,
            Lexeme::StartObject,
        ],
        r.at_first(),
        r.in_variant(),
{
    begin_newtype_variant(out, variant);
    push_token(out, Token::StartObject);
    assert(lexemes(out@) =~= lexemes(old(out)@) + seq![
        Lexeme::StartObject,
        Lexeme::Str(variant@),
        Lexeme::Colon,
        Lexeme::StartObject,
    ]);
    MapSerializer { first: true, variant: true }
}


proof fn lemma_items_prefix_err(items: Seq<Datum>, k: int)
    requires
        0 <= k <= items.len(),
        emit_items(items.subrange(0, k)) is Err,
    ensures
        emit_items(items) == emit_items(items.subrange(0, k)),
    decreases items.len(),
{
    if k < items.len() {
        let p = items.subrange(0, items.len() - 1);
        assert(p.subrange(0, k) =~= items.subrange(0, k));
        lemma_items_prefix_err(p, k);
    } else {
        assert(items.subrange(0, k) =~= items);
    }
}

proof fn lemma_entries_prefix_err(es: Seq<(Datum, Datum)>, k: int)
    requires
        0 <= k <= es.len(),
        emit_entries(es.subrange(0, k)) is Err,
    ensures
        emit_entries(es) == emit_entries(es.subrange(0, k)),
    decreases es.len(),
{
    if k < es.len() {
        let p = es.subrange(0, es.len() - 1);
        assert(p.subrange(0, k) =~= es.subrange(0, k));
        lemma_entries_prefix_err(p, k);
    } else {
        assert(es.subrange(0, k) =~= es);
    }
}

proof fn lemma_fields_prefix_err(fs: Seq<(Seq<char>, Datum)>, k: int)
    requires
        0 <= k <= fs.len(),
        emit_fields(fs.subrange(0, k)) is Err,
    ensures
        emit_fields(fs) == emit_fields(fs.subrange(0, k)),
    decreases fs.len(),
{
    if k < fs.len() {
        let p = fs.subrange(0, fs.len() - 1);
        assert(p.subrange(0, k) =~= fs.subrange(0, k));
        lemma_fields_prefix_err(p, k);
    } else {
        assert(fs.subrange(0, k) =~= fs);
    }
}

/// Writes the elements of a sequence, comma-separated, through an array
/// state that has written none yet.
fn write_elements(items: &Vec<Typed>, ser: &mut SeqSerializer, out: &mut Vec<Token>) -> (r: Result<
    (),
    Error,
>)
    requires
        old(ser).at_first(),
    ensures
        final(ser).in_variant() == old(ser).in_variant(),
        match emit_items(data(items@)) {
            Ok(t) => r is Ok && lexemes(final(out)@) == lexemes(old(out)@) + t,
            Err(e) => r == Err::<(), Error>(e),
        },
    decreases items,
{
    let ghost start = lexemes(out@);
    let ghost d = data(items@);
    let mut i: usize = 0;
    assert(d.subrange(0, 0) =~= Seq::<Datum>::empty());
    assert(start + Seq::<Lexeme>::empty() =~= start);
    while i < items.len()
        invariant
            i <= items@.len(),
            d == data(items@),
            emit_items(d.subrange(0, i as int)) is Ok,
            lexemes(out@) == start + emit_items(d.subrange(0, i as int))->Ok_0,
            ser.at_first() == (i == 0),
            ser.in_variant() == old(ser).in_variant(),
        decreases items@.len() - i,
    {
        let ghost before = lexemes(out@);
        ser.serialize_element(out);
        let ghost mid = lexemes(out@);
        let w = write_typed(&items[i], out);
        let ghost p = d.subrange(0, i + 1);
        assert(p.subrange(0, i as int) =~= d.subrange(0, i as int));
        assert(p[i as int] == items@[i as int].model());
        match w {
            Err(e) => {
                proof {
                    lemma_items_prefix_err(d, i + 1);
                }
                return Err(e);
            },
            Ok(()) => {
                assert(lexemes(out@) =~= start + emit_items(p)->Ok_0);
            },
        }
        i = i + 1;
    }
    assert(d.subrange(0, i as int) =~= d);
    Ok(())
}

/// Writes the entries of a map, comma-separated, as `key:value`.
fn write_entries(es: &Vec<(Typed, Typed)>, ser: &mut MapSerializer, out: &mut Vec<Token>) -> (r:
    Result<(), Error>)
    requires
        old(ser).at_first(),
    ensures
        final(ser).in_variant() == old(ser).in_variant(),
        match emit_entries(entry_data(es@)) {
            Ok(t) => r is Ok && lexemes(final(out)@) == lexemes(old(out)@) + t,
            Err(e) => r == Err::<(), Error>(e),
        },
    decreases es,
{
    let ghost start = lexemes(out@);
    let ghost d = entry_data(es@);
    let mut i: usize = 0;
    assert(d.subrange(0, 0) =~= Seq::<(Datum, Datum)>::empty());
    assert(start + Seq::<Lexeme>::empty() =~= start);
    while i < es.len()
        invariant
            i <= es@.len(),
            d == entry_data(es@),
            emit_entries(d.subrange(0, i as int)) is Ok,
            lexemes(out@) == start + emit_entries(d.subrange(0, i as int))->Ok_0,
            ser.at_first() == (i == 0),
            ser.in_variant() == old(ser).in_variant(),
        decreases es@.len() - i,
    {
        let ghost p = d.subrange(0, i + 1);
        assert(p.subrange(0, i as int) =~= d.subrange(0, i as int));
        assert(p[i as int] == (es@[i as int].0.model(), es@[i as int].1.model()));
        ser.serialize_key(out);
        let wk = write_typed(&es[i].0, out);
        if let Err(e) = wk {
            proof {
                lemma_entries_prefix_err(d, i + 1);
            }
            return Err(e);
        }
        ser.serialize_value(out);
        let wv = write_typed(&es[i].1, out);
        if let Err(e) = wv {
            proof {
                lemma_entries_prefix_err(d, i + 1);
            }
            return Err(e);
        }
        assert(lexemes(out@) =~= start + emit_entries(p)->Ok_0);
        i = i + 1;
    }
    assert(d.subrange(0, i as int) =~= d);
    Ok(())
}

/// Writes the fields of a struct, comma-separated, as `"name":value`.
fn write_fields(fs: &Vec<(String, Typed)>, ser: &mut MapSerializer, out: &mut Vec<Token>) -> (r:
    Result<(), Error>)
    requires
        old(ser).at_first(),
    ensures
        final(ser).in_variant() == old(ser).in_variant(),
        match emit_fields(field_data(fs@)) {
            Ok(t) => r is Ok && lexemes(final(out)@) == lexemes(old(out)@) + t,
            Err(e) => r == Err::<(), Error>(e),
        },
    decreases fs,
{
    let ghost start = lexemes(out@);
    let ghost d = field_data(fs@);
    let mut i: usize = 0;
    assert(d.subrange(0, 0) =~= Seq::<(Seq<char>, Datum)>::empty());
    assert(start + Seq::<Lexeme>::empty() =~= start);
    while i < fs.len()
        invariant
            i <= fs@.len(),
            d == field_data(fs@),
            emit_fields(d.subrange(0, i as int)) is Ok,
            lexemes(out@) == start + emit_fields(d.subrange(0, i as int))->Ok_0,
            ser.at_first() == (i == 0),
            ser.in_variant() == old(ser).in_variant(),
        decreases fs@.len() - i,
    {
        let ghost p = d.subrange(0, i + 1);
        assert(p.subrange(0, i as int) =~= d.subrange(0, i as int));
        assert(p[i as int] == (fs@[i as int].0@, fs@[i as int].1.model()));
        ser.serialize_field(out, fs[i].0.as_str());
        let w = write_typed(&fs[i].1, out);
        if let Err(e) = w {
            proof {
                lemma_fields_prefix_err(d, i + 1);
            }
            return Err(e);
        }
        assert(lexemes(out@) =~= start + emit_fields(p)->Ok_0);
        i = i + 1;
    }
    assert(d.subrange(0, i as int) =~= d);
    Ok(())
}

/// Writes a typed value as JSON tokens, after those already in `out`. The
/// first non-finite double stops the writing with an error.
pub fn write_typed(v: &Typed, out: &mut Vec<Token>) -> (r: Result<(), Error>)
    ensures
        match emit(v.model()) {
            Ok(t) => r is Ok && lexemes(final(out)@) == lexemes(old(out)@) + t,
            Err(e) => r == Err::<(), Error>(e),
        },
    decreases v,
{
    let ghost start = lexemes(out@);
    match v {
        Typed::Unit | Typed::Absent => {
            serialize_unit(out);
            Ok(())
        },
        Typed::Bool(b) => {
            serialize_bool(out, *b);
            Ok(())
        },
        Typed::Int(w, x) => {
            if w.is_signed_width() {
                serialize_i64(out, #[verifier::truncate] (*x as i64));
            } else {
                serialize_u64(out, #[verifier::truncate] (*x as u64));
            }
            Ok(())
        },
        Typed::F64(b) => serialize_f64(out, *b),
        Typed::Char(c) => {
            serialize_char(out, *c);
            Ok(())
        },
        Typed::Str(s) => {
            serialize_str(out, s.as_str());
            Ok(())
        },
        Typed::Bytes(b) => {
            serialize_bytes(out, b.as_slice());
            Ok(())
        },
        Typed::Present(x) => write_typed(x, out),
        Typed::NewtypeStruct(x) => write_typed(x, out),
        Typed::Sequence(items) => {
            assert(v.model()->Sequence_0 =~= data(items@));
            let mut ser = serialize_seq(out);
            let w = write_elements(items, &mut ser, out);
            if let Err(e) = w {
                return Err(e);
            }
            ser.end(out);
            assert(lexemes(out@) =~= start + emit(v.model())->Ok_0);
            Ok(())
        },
        Typed::Mapping(es) => {
            assert(v.model()->Mapping_0 =~= entry_data(es@));
            let mut ser = serialize_map(out);
            let w = write_entries(es, &mut ser, out);
            if let Err(e) = w {
                return Err(e);
            }
            ser.end(out);
            assert(lexemes(out@) =~= start + emit(v.model())->Ok_0);
            Ok(())
        },
        Typed::Struct(fs) => {
            assert(v.model()->Struct_0 =~= field_data(fs@));
            let mut ser = serialize_map(out);
            let w = write_fields(fs, &mut ser, out);
            if let Err(e) = w {
                return Err(e);
            }
            ser.end(out);
            assert(lexemes(out@) =~= start + emit(v.model())->Ok_0);
            Ok(())
        },
        Typed::UnitVariant(n) => {
            serialize_unit_variant(out, n.as_str());
            Ok(())
        },
        Typed::NewtypeVariant(n, x) => {
            begin_newtype_variant(out, n.as_str());
            let w = write_typed(x, out);
            if let Err(e) = w {
                return Err(e);
            }
            end_newtype_variant(out);
            assert(lexemes(out@) =~= start + emit(v.model())->Ok_0);
            Ok(())
        },
        Typed::TupleVariant(n, items) => {
            assert(v.model()->TupleVariant_1 =~= data(items@));
            let mut ser = serialize_tuple_variant(out, n.as_str());
            let w = write_elements(items, &mut ser, out);
            if let Err(e) = w {
                return Err(e);
            }
            ser.end(out);
            assert(lexemes(out@) =~= start + emit(v.model())->Ok_0);
            Ok(())
        },
        Typed::StructVariant(n, fs) => {
            assert(v.model()->StructVariant_1 =~= field_data(fs@));
            let mut ser = serialize_struct_variant(out, n.as_str());
            let w = write_fields(fs, &mut ser, out);
            if let Err(e) = w {
                return Err(e);
            }
            ser.end(out);
            assert(lexemes(out@) =~= start + emit(v.model())->Ok_0);
            Ok(())
        },
    }
}

/// The JSON text of a typed value, as its tokens.
pub fn to_string(value: &Typed) -> (r: Result<Vec<Token>, Error>)
    ensures
        match emit(value.model()) {
            Ok(t) => r matches Ok(ts) && lexemes(ts@) == t,
            Err(e) => r matches Err(e2) && e2 == e,
        },
{
    let mut out: Vec<Token> = Vec::new();
    assert(lexemes(out@) =~= Seq::<Lexeme>::empty());
    match write_typed(value, &mut out) {
        Ok(()) => {
            assert(lexemes(out@) =~= emit(value.model())->Ok_0);
            Ok(out)
        },
        Err(e) => Err(e),
    }
}

/// As `to_string`, into a buffer that starts with room for `capacity` tokens.
pub fn to_string_with_capacity(value: &Typed, capacity: usize) -> (r: Result<Vec<Token>, Error>)
    ensures
        match emit(value.model()) {
            Ok(t) => r matches Ok(ts) && lexemes(ts@) == t,
            Err(e) => r matches Err(e2) && e2 == e,
        },
{
    let mut out: Vec<Token> = Vec::with_capacity(capacity);
    assert(lexemes(out@) =~= Seq::<Lexeme>::empty());
    match write_typed(value, &mut out) {
        Ok(()) => {
            assert(lexemes(out@) =~= emit(value.model())->Ok_0);
            Ok(out)
        },
        Err(e) => Err(e),
    }
}

} // verus!
