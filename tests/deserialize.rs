use json_bridge::de::{read_enum, read_i8, read_u16, read_u32, read_u8, MapAccessor};
use json_bridge::{
    element_to_value, from_element, EnumShapeError, Error, Expected, IntWidth, Node, NodeKind,
    Number, Shape, Typed, Value, VariantShape,
};

fn to_node(v: &serde_json::Value) -> Node {
    match v {
        serde_json::Value::Null => Node::Null,
        serde_json::Value::Bool(b) => Node::Bool(*b),
        serde_json::Value::Number(n) => {
            if let Some(i) = n.as_i64() {
                Node::Int64(i)
            } else if let Some(u) = n.as_u64() {
                Node::UInt64(u)
            } else {
                Node::Double(n.as_f64().unwrap().to_bits())
            }
        }
        serde_json::Value::String(s) => Node::String(s.clone()),
        serde_json::Value::Array(a) => Node::Array(a.iter().map(to_node).collect()),
        serde_json::Value::Object(m) => {
            Node::Object(m.iter().map(|(k, v)| (k.clone(), to_node(v))).collect())
        }
    }
}

fn parse(text: &str) -> Node {
    to_node(&serde_json::from_str(text).unwrap())
}

fn s(v: &str) -> String {
    v.to_string()
}

fn seq_of(shape: Shape) -> Shape {
    Shape::Sequence(Box::new(shape))
}

fn simple_shape() -> Shape {
    Shape::Struct(vec![
        (s("name"), Shape::Str),
        (s("age"), Shape::Int(IntWidth::U32)),
        (s("active"), Shape::Bool),
    ])
}

fn simple(name: &str, age: i128, active: bool) -> Typed {
    Typed::Struct(vec![
        (s("name"), Typed::Str(s(name))),
        (s("age"), Typed::Int(IntWidth::U32, age)),
        (s("active"), Typed::Bool(active)),
    ])
}

fn color_shape() -> Shape {
    Shape::Enum(vec![
        (s("Red"), VariantShape::Unit),
        (s("Green"), VariantShape::Unit),
        (s("Blue"), VariantShape::Unit),
    ])
}

fn figure_shape() -> Shape {
    Shape::Enum(vec![
        (s("Circle"), VariantShape::Newtype(Shape::F64)),
        (
            s("Rectangle"),
            VariantShape::Struct(vec![(s("width"), Shape::F64), (s("height"), Shape::F64)]),
        ),
    ])
}

fn f(v: f64) -> Typed {
    Typed::F64(v.to_bits())
}

fn member<'a>(v: &'a Value, key: &str) -> &'a Value {
    match v {
        Value::Object(ms) => &ms.iter().find(|(k, _)| k == key).unwrap().1,
        _ => panic!("not an object"),
    }
}

fn nested_objects(depth: usize) -> Node {
    let mut node = Node::Int64(1);
    for _ in 0..depth {
        node = Node::Object(vec![(s("a"), node)]);
    }
    node
}

#[test]
fn deserialize_bool_array() {
    let v = from_element(&parse("[true, false, true]"), &seq_of(Shape::Bool)).unwrap();
    assert_eq!(
        v,
        Typed::Sequence(vec![Typed::Bool(true), Typed::Bool(false), Typed::Bool(true)])
    );
}

#[test]
fn deserialize_integer_array() {
    let v = from_element(&parse("[1, 2, 3]"), &seq_of(Shape::Int(IntWidth::U64))).unwrap();
    assert_eq!(
        v,
        Typed::Sequence((1..=3).map(|i| Typed::Int(IntWidth::U64, i)).collect())
    );
}

#[test]
fn deserialize_signed_integer_array() {
    let v = from_element(&parse("[-1, 0, 42]"), &seq_of(Shape::Int(IntWidth::I64))).unwrap();
    assert_eq!(
        v,
        Typed::Sequence(vec![
            Typed::Int(IntWidth::I64, -1),
            Typed::Int(IntWidth::I64, 0),
            Typed::Int(IntWidth::I64, 42),
        ])
    );
}

#[test]
fn deserialize_float_array() {
    let v = from_element(&parse("[1.5, 2.25, 3.125]"), &seq_of(Shape::F64)).unwrap();
    assert_eq!(v, Typed::Sequence(vec![f(1.5), f(2.25), f(3.125)]));
}

#[test]
fn deserialize_string_array() {
    let v = from_element(&parse(r#"["hello", "world"]"#), &seq_of(Shape::Str)).unwrap();
    assert_eq!(v, Typed::Sequence(vec![Typed::Str(s("hello")), Typed::Str(s("world"))]));
}

#[test]
fn deserialize_struct() {
    let node = parse(r#"{"name": "Alice", "age": 30, "active": true}"#);
    assert_eq!(from_element(&node, &simple_shape()).unwrap(), simple("Alice", 30, true));
}

#[test]
fn deserialize_nested_struct() {
    let node = parse(
        r#"{"inner": {"name": "Bob", "age": 25, "active": false}, "tags": ["rust", "json"]}"#,
    );
    let shape = Shape::Struct(vec![(s("inner"), simple_shape()), (s("tags"), seq_of(Shape::Str))]);
    assert_eq!(
        from_element(&node, &shape).unwrap(),
        Typed::Struct(vec![
            (s("inner"), simple("Bob", 25, false)),
            (s("tags"), Typed::Sequence(vec![Typed::Str(s("rust")), Typed::Str(s("json"))])),
        ])
    );
}

fn with_optional_shape() -> Shape {
    Shape::Struct(vec![
        (s("required"), Shape::Str),
        (s("optional"), Shape::Optional(Box::new(Shape::Int(IntWidth::I64)))),
    ])
}

#[test]
fn deserialize_option_some() {
    let node = parse(r#"{"required": "yes", "optional": 42}"#);
    assert_eq!(
        from_element(&node, &with_optional_shape()).unwrap(),
        Typed::Struct(vec![
            (s("required"), Typed::Str(s("yes"))),
            (s("optional"), Typed::Present(Box::new(Typed::Int(IntWidth::I64, 42)))),
        ])
    );
}

#[test]
fn deserialize_option_null() {
    let node = parse(r#"{"required": "yes", "optional": null}"#);
    assert_eq!(
        from_element(&node, &with_optional_shape()).unwrap(),
        Typed::Struct(vec![(s("required"), Typed::Str(s("yes"))), (s("optional"), Typed::Absent)])
    );
}

#[test]
fn deserialize_unit_enum() {
    let v = from_element(&parse(r#""Red""#), &color_shape()).unwrap();
    assert_eq!(v, Typed::UnitVariant(s("Red")));
}

#[test]
fn deserialize_newtype_enum() {
    let v = from_element(&parse(r#"{"Circle": 3.15}"#), &figure_shape()).unwrap();
    assert_eq!(v, Typed::NewtypeVariant(s("Circle"), Box::new(f(3.15))));
}

#[test]
fn deserialize_struct_enum() {
    let node = parse(r#"{"Rectangle": {"width": 10.0, "height": 5.0}}"#);
    assert_eq!(
        from_element(&node, &figure_shape()).unwrap(),
        Typed::StructVariant(s("Rectangle"), vec![(s("width"), f(10.0)), (s("height"), f(5.0))])
    );
}

#[test]
fn deserialize_null() {
    assert_eq!(from_element(&parse("null"), &Shape::Unit).unwrap(), Typed::Unit);
}

#[test]
fn deserialize_tuple() {
    let shape = Shape::Tuple(vec![Shape::Int(IntWidth::U64), Shape::Str, Shape::F64]);
    assert_eq!(
        from_element(&parse(r#"[1, "two", 3.0]"#), &shape).unwrap(),
        Typed::Sequence(vec![Typed::Int(IntWidth::U64, 1), Typed::Str(s("two")), f(3.0)])
    );
}

#[test]
fn deserialize_hashmap() {
    let shape = Shape::Mapping(Box::new(Shape::Int(IntWidth::U64)));
    let m = match from_element(&parse(r#"{"a": 1, "b": 2}"#), &shape).unwrap() {
        Typed::Mapping(m) => m,
        other => panic!("not a map: {other:?}"),
    };
    let get = |k: &str| m.iter().find(|(key, _)| *key == Typed::Str(s(k))).map(|(_, v)| v);
    assert_eq!(get("a"), Some(&Typed::Int(IntWidth::U64, 1)));
    assert_eq!(get("b"), Some(&Typed::Int(IntWidth::U64, 2)));
    assert_eq!(m.len(), 2);
}

#[test]
fn element_to_value_scalars() {
    assert_eq!(element_to_value(&parse("42")).unwrap(), Value::Number(Number::Signed(42)));
    assert_eq!(element_to_value(&parse("true")).unwrap(), Value::Bool(true));
    assert_eq!(element_to_value(&parse("null")).unwrap(), Value::Null);
    assert_eq!(element_to_value(&parse(r#""hello""#)).unwrap(), Value::String(s("hello")));
}

#[test]
fn element_to_value_nested() {
    let v = element_to_value(&parse(r#"{"key": [1, 2, {"nested": true}]}"#)).unwrap();
    assert_eq!(
        v,
        Value::Object(vec![(
            s("key"),
            Value::Array(vec![
                Value::Number(Number::Signed(1)),
                Value::Number(Number::Signed(2)),
                Value::Object(vec![(s("nested"), Value::Bool(true))]),
            ]),
        )])
    );
}

#[test]
fn overflow_u8() {
    let result = from_element(&parse("256"), &Shape::Int(IntWidth::U8));
    assert!(result.is_err(), "256 should not fit in u8");
    assert_eq!(read_u8(&parse("256")), Err(Error::NumericOverflow { value: 256, target: IntWidth::U8 }));
}

#[test]
fn overflow_i8() {
    let result = from_element(&parse("128"), &Shape::Int(IntWidth::I8));
    assert!(result.is_err(), "128 should not fit in i8");
}

#[test]
fn overflow_i8_negative() {
    let result = from_element(&parse("-129"), &Shape::Int(IntWidth::I8));
    assert!(result.is_err(), "-129 should not fit in i8");
    assert_eq!(read_i8(&parse("-128")), Ok(-128));
}

#[test]
fn overflow_u16() {
    let result = from_element(&parse("65536"), &Shape::Int(IntWidth::U16));
    assert!(result.is_err(), "65536 should not fit in u16");
    assert_eq!(read_u16(&parse("65535")), Ok(65535));
}

#[test]
fn overflow_u32() {
    let result = from_element(&parse("4294967296"), &Shape::Int(IntWidth::U32));
    assert!(result.is_err(), "4294967296 should not fit in u32");
    assert_eq!(read_u32(&parse("4294967295")), Ok(4294967295));
}

#[test]
fn overflow_i32() {
    let result = from_element(&parse("2147483648"), &Shape::Int(IntWidth::I32));
    assert!(result.is_err(), "2147483648 should not fit in i32");
}

#[test]
fn deep_nesting_protection() {
    let depth = 200;
    let result = element_to_value(&nested_objects(depth));
    assert!(result.is_err(), "nesting depth of {depth} should exceed the limit");
}

#[test]
fn escaped_strings() {
    let v = element_to_value(&parse(r#"{"msg": "hello \"world\"\nline2"}"#)).unwrap();
    let text = match member(&v, "msg") {
        Value::String(t) => t.clone(),
        other => panic!("not a string: {other:?}"),
    };
    assert!(text.contains('"'), "should contain literal quote");
    assert!(text.contains('\n'), "should contain literal newline");
}

#[test]
fn unicode_strings() {
    let v = element_to_value(&parse(r#"{"emoji": "Hello ❤️"}"#)).unwrap();
    let text = match member(&v, "emoji") {
        Value::String(t) => t.clone(),
        other => panic!("not a string: {other:?}"),
    };
    assert!(text.contains('\u{2764}'), "should contain heart emoji");
}

#[test]
fn type_mismatch_string_as_int() {
    let result = from_element(&parse(r#""not_a_number""#), &Shape::Int(IntWidth::I64));
    assert!(result.is_err());
    assert_eq!(
        result,
        Err(Error::TypeMismatch { expected: Expected::Integer, actual: NodeKind::String })
    );
}

#[test]
fn type_mismatch_int_as_string() {
    let result = from_element(&parse("42"), &Shape::Str);
    assert!(result.is_err());
}

#[test]
fn type_mismatch_array_as_struct() {
    let result = from_element(&parse("[1, 2, 3]"), &simple_shape());
    assert!(result.is_err());
}

#[test]
fn empty_array() {
    let v = from_element(&parse("[]"), &seq_of(Shape::Int(IntWidth::I64))).unwrap();
    assert_eq!(v, Typed::Sequence(vec![]));
}

#[test]
fn empty_object() {
    let v = from_element(&parse("{}"), &Shape::Mapping(Box::new(Shape::Any))).unwrap();
    assert_eq!(v, Typed::Mapping(vec![]));
}

#[test]
fn max_u64() {
    let v = from_element(&parse("18446744073709551615"), &Shape::Int(IntWidth::U64)).unwrap();
    assert_eq!(v, Typed::Int(IntWidth::U64, u64::MAX as i128));
}

#[test]
fn min_i64() {
    let v = from_element(&parse("-9223372036854775808"), &Shape::Int(IntWidth::I64)).unwrap();
    assert_eq!(v, Typed::Int(IntWidth::I64, i64::MIN as i128));
}

#[test]
fn max_i64() {
    let v = from_element(&parse("9223372036854775807"), &Shape::Int(IntWidth::I64)).unwrap();
    assert_eq!(v, Typed::Int(IntWidth::I64, i64::MAX as i128));
}

#[test]
fn deserialize_char_single() {
    assert_eq!(from_element(&parse(r#""A""#), &Shape::Char).unwrap(), Typed::Char('A'));
}

#[test]
fn deserialize_char_multi_rejects() {
    let result = from_element(&parse(r#""AB""#), &Shape::Char);
    assert!(result.is_err(), "multi-char string should fail for char");
    assert_eq!(result, Err(Error::InvalidCharacter));
}

#[test]
fn deserialize_newtype_struct() {
    let shape = Shape::NewtypeStruct(Box::new(Shape::Int(IntWidth::U64)));
    assert_eq!(
        from_element(&parse("42"), &shape).unwrap(),
        Typed::NewtypeStruct(Box::new(Typed::Int(IntWidth::U64, 42)))
    );
}

#[test]
fn nesting_at_the_bound_is_accepted() {
    assert!(element_to_value(&nested_objects(128)).is_ok());
    assert_eq!(element_to_value(&nested_objects(129)), Err(Error::DepthExceeded));
}

#[test]
fn non_finite_double_is_refused_by_the_converter() {
    let bits = f64::NAN.to_bits();
    let node = Node::Array(vec![Node::Double(1.5f64.to_bits()), Node::Double(bits)]);
    assert_eq!(element_to_value(&node), Err(Error::NonFiniteNumber { bits }));
}

#[test]
fn enum_object_with_two_keys_is_refused() {
    let node = parse(r#"{"Circle": 1.0, "Rectangle": {}}"#);
    assert_eq!(
        from_element(&node, &figure_shape()),
        Err(Error::InvalidEnumShape(EnumShapeError::NotSingleKey))
    );
    assert_eq!(
        from_element(&parse("{}"), &figure_shape()),
        Err(Error::InvalidEnumShape(EnumShapeError::NotSingleKey))
    );
}

#[test]
fn enum_from_a_number_is_refused() {
    assert_eq!(
        from_element(&parse("3"), &color_shape()),
        Err(Error::InvalidEnumShape(EnumShapeError::NotStringOrObject))
    );
}

#[test]
fn unit_variant_as_object_key_is_refused() {
    assert_eq!(
        from_element(&parse(r#"{"Red": null}"#), &color_shape()),
        Err(Error::InvalidEnumShape(EnumShapeError::UnitVariantAsObjectKey))
    );
}

#[test]
fn payload_variant_as_string_is_refused() {
    assert_eq!(
        from_element(&parse(r#""Circle""#), &figure_shape()),
        Err(Error::InvalidEnumShape(EnumShapeError::MissingPayload))
    );
}

#[test]
fn unknown_variant_is_refused() {
    assert_eq!(from_element(&parse(r#""Purple""#), &color_shape()), Err(Error::UnknownVariant));
}

#[test]
fn missing_field_is_refused_and_unknown_members_are_passed_over() {
    let node = parse(r#"{"name": "Eve", "extra": 1, "active": true}"#);
    assert_eq!(from_element(&node, &simple_shape()), Err(Error::MissingField { index: 1 }));
    let node = parse(r#"{"extra": [1], "required": "no"}"#);
    assert_eq!(
        from_element(&node, &with_optional_shape()).unwrap(),
        Typed::Struct(vec![(s("required"), Typed::Str(s("no"))), (s("optional"), Typed::Absent)])
    );
}

#[test]
fn tuple_of_wrong_length_is_refused() {
    let shape = Shape::Tuple(vec![Shape::Bool, Shape::Bool]);
    assert_eq!(
        from_element(&parse("[true]"), &shape),
        Err(Error::InvalidLength { wanted: 2, found: 1 })
    );
}

#[test]
fn value_before_key_is_refused() {
    let entries = vec![(s("k"), Node::Bool(true))];
    let mut acc = MapAccessor::new(&entries);
    assert_eq!(acc.next_value(), Err(Error::ValueBeforeKey));
    assert_eq!(acc.next_key(), Some(&s("k")));
    assert_eq!(acc.next_value(), Ok(&Node::Bool(true)));
    assert_eq!(acc.next_value(), Err(Error::ValueBeforeKey));
    assert_eq!(acc.next_key(), None);
}

#[test]
fn enum_access_exposes_name_and_payload() {
    let node = parse(r#"{"Circle": 2.5}"#);
    let d = read_enum(&node).unwrap();
    assert_eq!(d.variant, "Circle");
    assert_eq!(d.newtype_variant(), Ok(&Node::Double(2.5f64.to_bits())));
    assert_eq!(
        d.unit_variant(),
        Err(Error::InvalidEnumShape(EnumShapeError::UnitVariantAsObjectKey))
    );
}

#[test]
fn any_shape_reads_by_type_tag() {
    let node = parse(r#"[null, 7, "x", {"k": false}]"#);
    assert_eq!(
        from_element(&node, &Shape::Any).unwrap(),
        Typed::Sequence(vec![
            Typed::Unit,
            Typed::Int(IntWidth::I64, 7),
            Typed::Str(s("x")),
            Typed::Mapping(vec![(Typed::Str(s("k")), Typed::Bool(false))]),
        ])
    );
}
