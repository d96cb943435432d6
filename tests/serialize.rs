use json_bridge::ser::{serialize_f64, Token};
use json_bridge::{from_element, to_string, to_string_with_capacity, IntWidth, Node, Shape, Typed};

fn to_node(v: &serde_json::Value) -> Node {
    match v {
        serde_json::Value::Null => Node::Null,
        serde_json::Value::Bool(b) => Node::Bool(*b),
        serde_json::Value::Number(n) => {
            if let Some(i) = n.as_i64() {
                Node::Int64(i)
            } else if let Some(u) = n.as_u64() {
                Node::UInt64(u)
            } else {
                Node::Double(n.as_f64().unwrap().to_bits())
            }
        }
        serde_json::Value::String(s) => Node::String(s.clone()),
        serde_json::Value::Array(a) => Node::Array(a.iter().map(to_node).collect()),
        serde_json::Value::Object(m) => {
            Node::Object(m.iter().map(|(k, v)| (k.clone(), to_node(v))).collect())
        }
    }
}

fn parse(text: &str) -> Node {
    to_node(&serde_json::from_str(text).unwrap())
}

fn render(tokens: &[Token]) -> String {
    let mut out = String::new();
    for t in tokens {
        match t {
            Token::StartObject => out.push('{'),
            Token::EndObject => out.push('}'),
            Token::StartArray => out.push('['),
            Token::EndArray => out.push(']'),
            Token::Comma => out.push(','),
            Token::Colon => out.push(':'),
            Token::Null => out.push_str("null"),
            Token::Bool(b) => out.push_str(if *b { "true" } else { "false" }),
            Token::I64(i) => out.push_str(&i.to_string()),
            Token::U64(u) => out.push_str(&u.to_string()),
            Token::F64(bits) => out.push_str(&serde_json::to_string(&f64::from_bits(*bits)).unwrap()),
            Token::Str(s) => out.push_str(&serde_json::to_string(s).unwrap()),
        }
    }
    out
}

fn json(v: &Typed) -> String {
    render(&to_string(v).unwrap())
}

fn s(v: &str) -> String {
    v.to_string()
}

fn person(name: &str, age: i128, active: bool) -> Typed {
    Typed::Struct(vec![
        (s("name"), Typed::Str(s(name))),
        (s("age"), Typed::Int(IntWidth::U32, age)),
        (s("active"), Typed::Bool(active)),
    ])
}

fn person_shape() -> Shape {
    Shape::Struct(vec![
        (s("name"), Shape::Str),
        (s("age"), Shape::Int(IntWidth::U32)),
        (s("active"), Shape::Bool),
    ])
}

fn f(v: f64) -> Typed {
    Typed::F64(v.to_bits())
}

fn num(w: IntWidth, v: i128) -> Typed {
    Typed::Int(w, v)
}

#[test]
fn serialize_struct() {
    assert_eq!(json(&person("Bob", 25, true)), r#"{"name":"Bob","age":25,"active":true}"#);
}

#[test]
fn serialize_vec() {
    let v = Typed::Sequence((1..=5).map(|i| num(IntWidth::I32, i)).collect());
    assert_eq!(json(&v), "[1,2,3,4,5]");
}

#[test]
fn serialize_nested() {
    let outer = Typed::Struct(vec![
        (s("inner"), Typed::Sequence(vec![num(IntWidth::I32, 10), num(IntWidth::I32, 20)])),
        (s("flag"), Typed::Bool(false)),
    ]);
    assert_eq!(json(&outer), r#"{"inner":[10,20],"flag":false}"#);
}

#[test]
fn serialize_option_some() {
    let obj = Typed::Struct(vec![(
        s("value"),
        Typed::Present(Box::new(num(IntWidth::I32, 42))),
    )]);
    assert_eq!(json(&obj), r#"{"value":42}"#);
}

#[test]
fn serialize_option_none() {
    let obj = Typed::Struct(vec![(s("value"), Typed::Absent)]);
    assert_eq!(json(&obj), r#"{"value":null}"#);
}

#[test]
fn serialize_tuple() {
    let t = Typed::Sequence(vec![num(IntWidth::I32, 1), Typed::Str(s("two")), f(3.0)]);
    assert_eq!(json(&t), r#"[1,"two",3.0]"#);
}

#[test]
fn serialize_unit_enum() {
    assert_eq!(json(&Typed::UnitVariant(s("Green"))), r#""Green""#);
}

#[test]
fn serialize_newtype_enum() {
    let v = Typed::NewtypeVariant(s("Number"), Box::new(num(IntWidth::I32, 42)));
    assert_eq!(json(&v), r#"{"Number":42}"#);
}

#[test]
fn serialize_struct_enum() {
    let v = Typed::StructVariant(s("Rectangle"), vec![(s("width"), f(10.0)), (s("height"), f(5.0))]);
    assert_eq!(json(&v), r#"{"Rectangle":{"width":10.0,"height":5.0}}"#);
}

#[test]
fn serialize_hashmap() {
    let map = Typed::Mapping(vec![
        (Typed::Str(s("key1")), num(IntWidth::I32, 100)),
        (Typed::Str(s("key2")), num(IntWidth::I32, 200)),
    ]);
    let out = json(&map);
    assert!(
        out == r#"{"key1":100,"key2":200}"# || out == r#"{"key2":200,"key1":100}"#,
        "got: {out}"
    );
}

#[test]
fn serialize_escaped_strings() {
    let obj = Typed::Struct(vec![(s("text"), Typed::Str(s("hello \"world\"\nline2")))]);
    let out = json(&obj);
    assert!(out.contains(r#"\""#), "should escape quotes");
    assert!(out.contains(r#"\n"#), "should escape newlines");
}

#[test]
fn serialize_unicode() {
    let obj = Typed::Struct(vec![(s("emoji"), Typed::Str(s("Hello \u{2764}\u{fe0f}")))]);
    assert!(json(&obj).contains('\u{2764}'), "should preserve unicode");
}

#[test]
fn round_trip_struct() {
    let sent = person("Charlie", 35, false);
    let node = parse(&json(&sent));
    assert_eq!(from_element(&node, &person_shape()).unwrap(), sent);
}

#[test]
fn round_trip_nested() {
    let sent = Typed::Struct(vec![
        (
            s("values"),
            Typed::Sequence(vec![num(IntWidth::I32, 1), num(IntWidth::I32, 2), num(IntWidth::I32, 3)]),
        ),
        (
            s("metadata"),
            Typed::Struct(vec![(s("count"), num(IntWidth::U64, 3)), (s("valid"), Typed::Bool(true))]),
        ),
    ]);
    let shape = Shape::Struct(vec![
        (s("values"), Shape::Sequence(Box::new(Shape::Int(IntWidth::I32)))),
        (
            s("metadata"),
            Shape::Struct(vec![(s("count"), Shape::Int(IntWidth::U64)), (s("valid"), Shape::Bool)]),
        ),
    ]);
    let node = parse(&json(&sent));
    assert_eq!(from_element(&node, &shape).unwrap(), sent);
}

#[test]
fn round_trip_vec() {
    let sent = Typed::Sequence([10, 20, 30, 40, 50].iter().map(|i| num(IntWidth::I32, *i)).collect());
    let node = parse(&json(&sent));
    let shape = Shape::Sequence(Box::new(Shape::Int(IntWidth::I32)));
    assert_eq!(from_element(&node, &shape).unwrap(), sent);
}

#[test]
fn serialize_nan_rejected() {
    assert!(to_string(&f(f64::NAN)).is_err(), "NaN should be rejected");
}

#[test]
fn serialize_infinity_rejected() {
    assert!(to_string(&f(f64::INFINITY)).is_err(), "Infinity should be rejected");
}

#[test]
fn serialize_neg_infinity_rejected() {
    assert!(to_string(&f(f64::NEG_INFINITY)).is_err(), "Negative infinity should be rejected");
}

#[test]
fn serialize_empty_vec() {
    assert_eq!(json(&Typed::Sequence(vec![])), "[]");
}

#[test]
fn serialize_empty_struct() {
    assert_eq!(json(&Typed::Struct(vec![])), "{}");
}

#[test]
fn serialize_unit() {
    assert_eq!(json(&Typed::Unit), "null");
}

#[test]
fn serialize_newtype_struct() {
    let sent = Typed::NewtypeStruct(Box::new(num(IntWidth::I32, 42)));
    let out = json(&sent);
    assert_eq!(out, "42");
    let shape = Shape::NewtypeStruct(Box::new(Shape::Int(IntWidth::I32)));
    assert_eq!(from_element(&parse(&out), &shape).unwrap(), sent);
}

#[test]
fn serialize_char() {
    assert_eq!(json(&Typed::Char('A')), r#""A""#);
}

#[test]
fn serialize_bytes() {
    assert_eq!(json(&Typed::Bytes(vec![1, 2, 3])), "[1,2,3]");
}

#[test]
fn serialize_i64_min_max() {
    assert_eq!(json(&num(IntWidth::I64, i64::MIN as i128)), "-9223372036854775808");
    assert_eq!(json(&num(IntWidth::I64, i64::MAX as i128)), "9223372036854775807");
}

#[test]
fn serialize_u64_max() {
    assert_eq!(json(&num(IntWidth::U64, u64::MAX as i128)), "18446744073709551615");
}

#[test]
fn serialize_with_capacity() {
    let tokens = to_string_with_capacity(&person("Dave", 40, true), 128).unwrap();
    assert_eq!(render(&tokens), r#"{"name":"Dave","age":40,"active":true}"#);
}

#[test]
fn serialize_nan_appends_nothing() {
    let mut out = vec![Token::StartArray];
    assert!(serialize_f64(&mut out, f64::NAN.to_bits()).is_err());
    assert_eq!(out, vec![Token::StartArray]);
}

#[test]
fn serialize_tokens_of_tuple_variant() {
    let v = Typed::TupleVariant(s("Pair"), vec![Typed::Bool(true), Typed::Absent]);
    assert_eq!(
        to_string(&v).unwrap(),
        vec![
            Token::StartObject,
            Token::Str(s("Pair")),
            Token::Colon,
            Token::StartArray,
            Token::Bool(true),
            Token::Comma,
            Token::Null,
            Token::EndArray,
            Token::EndObject,
        ]
    );
}

#[test]
fn serialize_error_names_the_bits() {
    let bits = f64::INFINITY.to_bits();
    let v = Typed::Sequence(vec![f(1.5), Typed::F64(bits)]);
    assert_eq!(to_string(&v), Err(json_bridge::Error::NonFiniteNumber { bits }));
}
