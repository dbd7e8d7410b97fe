use evgen::{double_bits, Kind, Node, Value};

fn leaf(kind: Kind, text: &str) -> Node {
    Node { kind, text: text.to_string(), decimal: None, children: Vec::new() }
}

fn branch(kind: Kind, text: &str, children: Vec<Node>) -> Node {
    Node { kind, text: text.to_string(), decimal: None, children }
}

/// A decimal leaf as the grammar engine's adapter builds it: the literal is
/// read as a double there.
fn decimal(text: &str) -> Node {
    Node {
        kind: Kind::NumberDecimal,
        text: text.to_string(),
        decimal: text.parse::<f64>().ok().map(f64::to_bits),
        children: Vec::new(),
    }
}

fn number(digits: Node) -> Node {
    let text = digits.text.clone();
    branch(Kind::Number, &text, vec![digits])
}

fn string(inner: &str) -> Node {
    branch(Kind::String, &format!("\"{}\"", inner), vec![leaf(Kind::StringInner, inner)])
}

fn boolean(value: bool) -> Node {
    if value {
        branch(Kind::Boolean, "true", vec![leaf(Kind::BooleanTrue, "true")])
    } else {
        branch(Kind::Boolean, "false", vec![leaf(Kind::BooleanFalse, "false")])
    }
}

/// A value as the grammar nests it: `value` around `literal` or
/// `collection` around the value itself.
fn wrapped(inner: Node) -> Node {
    let layer = match inner.kind {
        Kind::Array | Kind::Mapping => Kind::Collection,
        _ => Kind::Literal,
    };
    let text = inner.text.clone();
    branch(Kind::Value, &text, vec![branch(layer, &text, vec![inner])])
}

fn pair(key: Node, value: Node) -> Node {
    branch(Kind::MapPair, "", vec![branch(Kind::Other, "", vec![key]), value])
}

fn num(x: f64) -> Value {
    Value::Number(x.to_bits())
}

#[test]
fn binary_literal_is_a_double() {
    let node = number(leaf(Kind::NumberBin, "101"));
    assert_eq!(Value::from_pair(&node), Some(num(5.0)));
}

#[test]
fn hexadecimal_literal_is_a_double() {
    let node = number(leaf(Kind::NumberHex, "1A"));
    assert_eq!(Value::from_pair(&node), Some(num(26.0)));
    let lower = number(leaf(Kind::NumberHex, "ff"));
    assert_eq!(Value::from_pair(&lower), Some(num(255.0)));
}

#[test]
fn decimal_literal_is_a_double() {
    let node = number(decimal("3.5"));
    assert_eq!(Value::from_pair(&node), Some(num(3.5)));
    let exponent = number(decimal("-2.5e3"));
    assert_eq!(Value::from_pair(&exponent), Some(num(-2500.0)));
}

#[test]
fn malformed_decimal_literal_fails() {
    let node = number(decimal("3.5.1"));
    assert_eq!(Value::from_pair(&node), None);
    let empty = number(decimal(""));
    assert_eq!(Value::from_pair(&empty), None);
}

#[test]
fn radix_literal_takes_a_sign() {
    assert_eq!(Value::from_pair(&number(leaf(Kind::NumberBin, "-101"))), Some(num(-5.0)));
    assert_eq!(Value::from_pair(&number(leaf(Kind::NumberHex, "+1a"))), Some(num(26.0)));
    assert_eq!(Value::from_pair(&number(leaf(Kind::NumberHex, "-0"))), Some(num(0.0)));
    assert_eq!(Value::from_pair(&number(leaf(Kind::NumberBin, "0000000000000000000000000000000000000000011"))), Some(num(3.0)));
}

#[test]
fn radix_literal_outside_i32_fails() {
    assert_eq!(Value::from_pair(&number(leaf(Kind::NumberHex, "7fffffff"))), Some(num(2147483647.0)));
    assert_eq!(Value::from_pair(&number(leaf(Kind::NumberHex, "80000000"))), None);
    assert_eq!(Value::from_pair(&number(leaf(Kind::NumberHex, "-80000000"))), Some(num(-2147483648.0)));
    assert_eq!(Value::from_pair(&number(leaf(Kind::NumberHex, "-80000001"))), None);
    assert_eq!(
        Value::from_pair(&number(leaf(Kind::NumberBin, "1111111111111111111111111111111"))),
        Some(num(2147483647.0))
    );
    assert_eq!(Value::from_pair(&number(leaf(Kind::NumberBin, "10000000000000000000000000000000"))), None);
}

#[test]
fn radix_literal_with_a_wrong_digit_fails() {
    assert_eq!(Value::from_pair(&number(leaf(Kind::NumberBin, "102"))), None);
    assert_eq!(Value::from_pair(&number(leaf(Kind::NumberHex, "1G"))), None);
    assert_eq!(Value::from_pair(&number(leaf(Kind::NumberHex, ""))), None);
    assert_eq!(Value::from_pair(&number(leaf(Kind::NumberHex, "+"))), None);
    assert_eq!(Value::from_pair(&number(leaf(Kind::NumberHex, "-"))), None);
    assert_eq!(Value::from_pair(&number(leaf(Kind::NumberHex, "+-1"))), None);
    assert_eq!(Value::from_pair(&number(leaf(Kind::NumberHex, " 1"))), None);
    assert_eq!(Value::from_pair(&number(leaf(Kind::NumberHex, "1_0"))), None);
    assert_eq!(Value::from_pair(&number(leaf(Kind::NumberHex, "0x10"))), None);
    assert_eq!(Value::from_pair(&number(leaf(Kind::NumberBin, "1\u{661}"))), None);
}

#[test]
fn number_without_a_radix_child_fails() {
    assert_eq!(Value::from_pair(&branch(Kind::Number, "1", vec![])), None);
    assert_eq!(Value::from_pair(&number(leaf(Kind::Identifier, "1"))), None);
    assert_eq!(Value::from_pair(&number(leaf(Kind::StringInner, "1"))), None);
}

#[test]
fn decimal_field_is_read_on_decimal_leaves_only() {
    let mut digits = leaf(Kind::NumberBin, "11");
    digits.decimal = Some(7.0f64.to_bits());
    assert_eq!(Value::from_pair(&number(digits)), Some(num(3.0)));
}

#[test]
fn double_bits_agrees_with_the_machine() {
    let samples: [i32; 24] = [
        0, 1, -1, 2, -2, 3, 5, 7, 8, 26, 255, 256, 257, 1000, -1000, 65535, 65536, 1 << 24,
        (1 << 24) + 1, 123456789, -123456789, i32::MAX, i32::MIN, i32::MIN + 1,
    ];
    for v in samples {
        assert_eq!(double_bits(v), (v as f64).to_bits(), "for {}", v);
    }
    let mut v: i64 = i32::MIN as i64;
    while v <= i32::MAX as i64 {
        assert_eq!(double_bits(v as i32), (v as f64).to_bits(), "for {}", v);
        v += 7919 * 131;
    }
}

#[test]
fn double_bits_of_small_integers() {
    assert_eq!(double_bits(0), 0);
    assert_eq!(double_bits(1), 0x3FF0_0000_0000_0000);
    assert_eq!(double_bits(-2), 0xC000_0000_0000_0000);
    assert_eq!(double_bits(3), 0x4008_0000_0000_0000);
}

#[test]
fn booleans() {
    assert_eq!(Value::from_pair(&boolean(true)), Some(Value::Boolean(true)));
    assert_eq!(Value::from_pair(&boolean(false)), Some(Value::Boolean(false)));
    assert_eq!(Value::from_pair(&branch(Kind::Boolean, "", vec![])), None);
    assert_eq!(Value::from_pair(&branch(Kind::Boolean, "", vec![leaf(Kind::Other, "true")])), None);
}

#[test]
fn boolean_reads_its_first_child() {
    let node = branch(
        Kind::Boolean,
        "",
        vec![leaf(Kind::BooleanFalse, "false"), leaf(Kind::BooleanTrue, "true")],
    );
    assert_eq!(Value::from_pair(&node), Some(Value::Boolean(false)));
}

#[test]
fn string_is_taken_verbatim() {
    assert_eq!(Value::from_pair(&string("a\\nb c")), Some(Value::String("a\\nb c".to_string())));
    assert_eq!(Value::from_pair(&string("")), Some(Value::String(String::new())));
    assert_eq!(Value::from_pair(&branch(Kind::String, "", vec![])), None);
    assert_eq!(Value::from_pair(&branch(Kind::String, "", vec![leaf(Kind::Identifier, "x")])), None);
}

#[test]
fn wrappers_are_unwrapped() {
    assert_eq!(Value::from_pair(&wrapped(boolean(true))), Some(Value::Boolean(true)));
    let literal = branch(Kind::Literal, "", vec![string("x")]);
    assert_eq!(Value::from_pair(&literal), Some(Value::String("x".to_string())));
    let collection = branch(Kind::Collection, "", vec![branch(Kind::Array, "", vec![])]);
    assert_eq!(Value::from_pair(&collection), Some(Value::Array(vec![])));
    assert_eq!(Value::from_pair(&branch(Kind::Value, "", vec![])), None);
    assert_eq!(Value::from_pair(&branch(Kind::Literal, "", vec![])), None);
    assert_eq!(Value::from_pair(&branch(Kind::Collection, "", vec![])), None);
}

#[test]
fn other_kinds_are_no_value() {
    for kind in [
        Kind::Document,
        Kind::EndOfInput,
        Kind::Statement,
        Kind::Block,
        Kind::Identifier,
        Kind::BooleanTrue,
        Kind::BooleanFalse,
        Kind::NumberBin,
        Kind::NumberHex,
        Kind::NumberDecimal,
        Kind::StringInner,
        Kind::MapPair,
        Kind::Other,
    ] {
        assert_eq!(Value::from_pair(&branch(kind, "1", vec![boolean(true)])), None);
    }
    let inside = branch(Kind::Value, "", vec![branch(Kind::Statement, "", vec![boolean(true)])]);
    assert_eq!(Value::from_pair(&inside), None);
}

#[test]
fn array_keeps_order() {
    let node = branch(
        Kind::Array,
        "",
        vec![wrapped(number(decimal("1"))), wrapped(string("x")), wrapped(boolean(false))],
    );
    assert_eq!(
        Value::from_pair(&node),
        Some(Value::Array(vec![num(1.0), Value::String("x".to_string()), Value::Boolean(false)]))
    );
}

#[test]
fn array_fails_with_one_item() {
    let node = branch(
        Kind::Array,
        "",
        vec![wrapped(number(decimal("1"))), wrapped(number(leaf(Kind::NumberBin, "2"))), wrapped(boolean(false))],
    );
    assert_eq!(Value::from_pair(&node), None);
    let nested = branch(Kind::Array, "", vec![wrapped(branch(Kind::Array, "", vec![leaf(Kind::Other, "")]))]);
    assert_eq!(Value::from_pair(&nested), None);
}

#[test]
fn mapping_keys_are_strings() {
    let bare = branch(Kind::Mapping, "", vec![pair(leaf(Kind::Identifier, "k"), wrapped(number(decimal("1"))))]);
    let quoted = branch(Kind::Mapping, "", vec![pair(string("k"), wrapped(number(decimal("1"))))]);
    let expected = Some(Value::Mapping(vec![("k".to_string(), num(1.0))]));
    assert_eq!(Value::from_pair(&bare), expected);
    assert_eq!(Value::from_pair(&quoted), expected);
}

#[test]
fn mapping_last_write_wins() {
    let node = branch(
        Kind::Mapping,
        "",
        vec![
            pair(leaf(Kind::Identifier, "a"), wrapped(number(decimal("1")))),
            pair(leaf(Kind::Identifier, "b"), wrapped(number(decimal("2")))),
            pair(string("a"), wrapped(number(decimal("3")))),
        ],
    );
    assert_eq!(
        Value::from_pair(&node),
        Some(Value::Mapping(vec![("a".to_string(), num(3.0)), ("b".to_string(), num(2.0))]))
    );
}

#[test]
fn mapping_passes_over_other_children() {
    let node = branch(
        Kind::Mapping,
        "",
        vec![
            leaf(Kind::Other, ","),
            pair(leaf(Kind::Identifier, "a"), wrapped(boolean(true))),
            leaf(Kind::NumberBin, "2"),
        ],
    );
    assert_eq!(Value::from_pair(&node), Some(Value::Mapping(vec![("a".to_string(), Value::Boolean(true))])));
    assert_eq!(Value::from_pair(&branch(Kind::Mapping, "", vec![])), Some(Value::Mapping(vec![])));
}

#[test]
fn mapping_fails_with_one_pair() {
    let good = pair(leaf(Kind::Identifier, "a"), wrapped(boolean(true)));
    let no_value = branch(Kind::MapPair, "", vec![branch(Kind::Other, "", vec![leaf(Kind::Identifier, "b")])]);
    let no_key = branch(Kind::MapPair, "", vec![branch(Kind::Other, "", vec![]), wrapped(boolean(true))]);
    let empty = branch(Kind::MapPair, "", vec![]);
    let number_key = pair(number(decimal("1")), wrapped(boolean(true)));
    let broken_string_key = pair(branch(Kind::String, "", vec![]), wrapped(boolean(true)));
    let bad_value = pair(leaf(Kind::Identifier, "c"), wrapped(number(leaf(Kind::NumberHex, "zz"))));
    for bad in [no_value, no_key, empty, number_key, broken_string_key, bad_value] {
        let node = branch(Kind::Mapping, "", vec![pair(leaf(Kind::Identifier, "a"), wrapped(boolean(true))), bad]);
        assert_eq!(Value::from_pair(&node), None);
    }
    assert!(Value::from_pair(&branch(Kind::Mapping, "", vec![good])).is_some());
}

#[test]
fn mapping_key_node_is_taken_without_its_wrapper_being_read() {
    let node = branch(
        Kind::Mapping,
        "",
        vec![branch(
            Kind::MapPair,
            "",
            vec![branch(Kind::Statement, "", vec![leaf(Kind::Identifier, "k")]), boolean(true)],
        )],
    );
    assert_eq!(Value::from_pair(&node), Some(Value::Mapping(vec![("k".to_string(), Value::Boolean(true))])));
}

#[test]
fn conversion_is_repeatable() {
    let node = branch(
        Kind::Mapping,
        "",
        vec![
            pair(leaf(Kind::Identifier, "z"), wrapped(number(decimal("1")))),
            pair(leaf(Kind::Identifier, "a"), wrapped(number(decimal("2")))),
            pair(leaf(Kind::Identifier, "m"), wrapped(number(decimal("3")))),
        ],
    );
    let first = Value::from_pair(&node).map(|v| v.serialize());
    for _ in 0..20 {
        assert_eq!(Value::from_pair(&node).map(|v| v.serialize()), first);
    }
}
