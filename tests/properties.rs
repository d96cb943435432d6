use json_bridge::ser::Token;
use json_bridge::{
    element_to_value, from_element, to_string, IntWidth, Node, Number, Shape, Typed, Value,
    VariantShape,
};

fn to_node(v: &serde_json::Value) -> Node {
    match v {
        serde_json::Value::Null => Node::Null,
        serde_json::Value::Bool(b) => Node::Bool(*b),
        serde_json::Value::Number(n) => {
            if let Some(i) = n.as_i64() {
                Node::Int64(i)
            } else if let Some(u) = n.as_u64() {
                Node::UInt64(u)
            } else {
                Node::Double(n.as_f64().unwrap().to_bits())
            }
        }
        serde_json::Value::String(s) => Node::String(s.clone()),
        serde_json::Value::Array(a) => Node::Array(a.iter().map(to_node).collect()),
        serde_json::Value::Object(m) => {
            Node::Object(m.iter().map(|(k, v)| (k.clone(), to_node(v))).collect())
        }
    }
}

fn parse(text: &str) -> Node {
    to_node(&serde_json::from_str(text).unwrap())
}

fn render(tokens: &[Token]) -> String {
    let mut out = String::new();
    for t in tokens {
        match t {
            Token::StartObject => out.push('{'),
            Token::EndObject => out.push('}'),
            Token::StartArray => out.push('['),
            Token::EndArray => out.push(']'),
            Token::Comma => out.push(','),
            Token::Colon => out.push(':'),
            Token::Null => out.push_str("null"),
            Token::Bool(b) => out.push_str(if *b { "true" } else { "false" }),
            Token::I64(i) => out.push_str(&i.to_string()),
            Token::U64(u) => out.push_str(&u.to_string()),
            Token::F64(bits) => out.push_str(&serde_json::to_string(&f64::from_bits(*bits)).unwrap()),
            Token::Str(s) => out.push_str(&serde_json::to_string(s).unwrap()),
        }
    }
    out
}

fn s(v: &str) -> String {
    v.to_string()
}

/// How a dynamically typed value presents itself to the serializer.
fn as_typed(v: &Value) -> Typed {
    match v {
        Value::Null => Typed::Unit,
        Value::Bool(b) => Typed::Bool(*b),
        Value::Number(Number::Signed(i)) => Typed::Int(IntWidth::I64, *i as i128),
        Value::Number(Number::Unsigned(u)) => Typed::Int(IntWidth::U64, *u as i128),
        Value::Number(Number::Float(b)) => Typed::F64(*b),
        Value::String(t) => Typed::Str(t.clone()),
        Value::Array(vs) => Typed::Sequence(vs.iter().map(as_typed).collect()),
        Value::Object(ms) => Typed::Mapping(
            ms.iter().map(|(k, v)| (Typed::Str(k.clone()), as_typed(v))).collect(),
        ),
    }
}

fn figure_shape() -> Shape {
    Shape::Enum(vec![
        (s("Red"), VariantShape::Unit),
        (s("Circle"), VariantShape::Newtype(Shape::F64)),
        (
            s("Rectangle"),
            VariantShape::Struct(vec![(s("width"), Shape::F64), (s("height"), Shape::F64)]),
        ),
    ])
}

#[test]
fn round_trip_via_serde_json() {
    let input = r#"{"name":"test","values":[1,2,3],"nested":{"flag":true,"nothing":null}}"#;
    let value = element_to_value(&parse(input)).unwrap();
    let serialized = render(&to_string(&as_typed(&value)).unwrap());
    assert_eq!(serialized, input);
    let reparsed = element_to_value(&parse(&serialized)).unwrap();
    assert_eq!(value, reparsed);
}

#[test]
fn enum_shapes_reproduce_their_text() {
    for text in [r#""Red""#, r#"{"Circle":3.15}"#, r#"{"Rectangle":{"width":10.0,"height":5.0}}"#] {
        let v = from_element(&parse(text), &figure_shape()).unwrap();
        assert_eq!(render(&to_string(&v).unwrap()), text);
    }
}

#[test]
fn boundary_integers_round_trip() {
    let cases = [
        (IntWidth::I64, i64::MIN as i128, "-9223372036854775808"),
        (IntWidth::I64, i64::MAX as i128, "9223372036854775807"),
        (IntWidth::U64, u64::MAX as i128, "18446744073709551615"),
    ];
    for (w, v, text) in cases {
        let t = Typed::Int(w, v);
        assert_eq!(render(&to_string(&t).unwrap()), text);
        assert_eq!(from_element(&parse(text), &Shape::Int(w)).unwrap(), t);
    }
}

#[test]
fn round_trip_of_every_variant_kind() {
    let shape = Shape::Sequence(Box::new(Shape::Enum(vec![
        (s("Unit"), VariantShape::Unit),
        (s("One"), VariantShape::Newtype(Shape::Optional(Box::new(Shape::Char)))),
        (s("Two"), VariantShape::Tuple(vec![Shape::Int(IntWidth::I16), Shape::Bytes])),
        (s("Named"), VariantShape::Struct(vec![(s("x"), Shape::Int(IntWidth::U8))])),
    ])));
    let value = Typed::Sequence(vec![
        Typed::UnitVariant(s("Unit")),
        Typed::NewtypeVariant(s("One"), Box::new(Typed::Present(Box::new(Typed::Char('z'))))),
        Typed::TupleVariant(s("Two"), vec![Typed::Int(IntWidth::I16, -7), Typed::Bytes(vec![0, 255])]),
        Typed::StructVariant(s("Named"), vec![(s("x"), Typed::Int(IntWidth::U8, 9))]),
    ]);
    let text = render(&to_string(&value).unwrap());
    assert_eq!(
        text,
        r#"["Unit",{"One":"z"},{"Two":[-7,[0,255]]},{"Named":{"x":9}}]"#
    );
    assert_eq!(from_element(&parse(&text), &shape).unwrap(), value);
}
