use json_bridge::tape::decode_document;
use json_bridge::{Error, Node};

fn word(tag: u8, payload: u64) -> u64 {
    ((tag as u64) << 56) | payload
}

#[test]
fn decodes_an_array_of_a_number_and_a_string() {
    // [1,"a"]
    let tape = vec![
        word(b'r', 6),
        word(b'[', 6 | (2 << 32)),
        word(b'l', 0),
        1,
        word(b'"', 0),
        word(b']', 1),
    ];
    let strings = vec![1, 0, 0, 0, b'a', 0];
    assert_eq!(
        decode_document(&tape, &strings),
        Ok(Node::Array(vec![Node::Int64(1), Node::String("a".to_string())]))
    );
}

#[test]
fn decodes_an_object_with_scalars() {
    // {"k":true,"d":-0.5,"u":18446744073709551615,"n":null}
    let tape = vec![
        word(b'r', 13),
        word(b'{', 13 | (4 << 32)),
        word(b'"', 0),
        word(b't', 0),
        word(b'"', 6),
        word(b'd', 0),
        (-0.5f64).to_bits(),
        word(b'"', 12),
        word(b'u', 0),
        u64::MAX,
        word(b'"', 18),
        word(b'n', 0),
        word(b'}', 1),
    ];
    let mut strings = Vec::new();
    for key in ["k", "d", "u", "n"] {
        strings.extend_from_slice(&[1, 0, 0, 0]);
        strings.extend_from_slice(key.as_bytes());
        strings.push(0);
    }
    assert_eq!(
        decode_document(&tape, &strings),
        Ok(Node::Object(vec![
            ("k".to_string(), Node::Bool(true)),
            ("d".to_string(), Node::Double((-0.5f64).to_bits())),
            ("u".to_string(), Node::UInt64(u64::MAX)),
            ("n".to_string(), Node::Null),
        ]))
    );
}

#[test]
fn decodes_a_negative_integer_and_an_empty_array() {
    let tape = vec![word(b'r', 4), word(b'l', 0), (-7i64) as u64, word(b'f', 0)];
    assert_eq!(decode_document(&tape, &[]), Err(Error::InvalidTape));
    let tape = vec![word(b'r', 3), word(b'l', 0), (-7i64) as u64];
    assert_eq!(decode_document(&tape, &[]), Ok(Node::Int64(-7)));
    let tape = vec![word(b'r', 3), word(b'[', 3), word(b']', 1)];
    assert_eq!(decode_document(&tape, &[]), Ok(Node::Array(vec![])));
}

#[test]
fn refuses_malformed_tapes() {
    assert_eq!(decode_document(&[], &[]), Err(Error::InvalidTape));
    // a string whose length runs past the buffer
    let tape = vec![word(b'r', 2), word(b'"', 0)];
    assert_eq!(decode_document(&tape, &[9, 0, 0, 0, b'a']), Err(Error::InvalidTape));
    // bytes that are not UTF-8
    assert_eq!(decode_document(&tape, &[1, 0, 0, 0, 0xff]), Err(Error::InvalidTape));
    // an array whose closing word is missing
    let tape = vec![word(b'r', 3), word(b'[', 3), word(b'n', 0)];
    assert_eq!(decode_document(&tape, &[]), Err(Error::InvalidTape));
}
