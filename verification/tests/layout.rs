//! Exact expected texts: scenario outputs of the encoder, scalar
//! formatting, escaping, and the folding layout.

use cyrly::{CurlySerializer, FloatRepr, Value};

fn encode_oneline(v: &Value) -> String {
    let mut ser = CurlySerializer::new().oneline();
    ser.serialize_value(v).unwrap();
    ser.into_string()
}

#[test]
fn sequence_multiline() {
    let v = Value::Sequence(vec![Value::Int(1), Value::Int(2), Value::Int(3)]);
    assert_eq!(cyrly::to_string(&v).unwrap(), "[\n  1,\n  2,\n  3,\n]");
}

#[test]
fn sequence_oneline() {
    let v = Value::Sequence(vec![Value::Int(1), Value::Int(2), Value::Int(3)]);
    assert_eq!(encode_oneline(&v), "[ 1, 2, 3 ]");
}

#[test]
fn empty_containers() {
    assert_eq!(cyrly::to_string(&Value::Sequence(vec![])).unwrap(), "[]");
    assert_eq!(cyrly::to_string(&Value::Mapping(vec![])).unwrap(), "{}");
    assert_eq!(encode_oneline(&Value::Sequence(vec![])), "[]");
    assert_eq!(encode_oneline(&Value::Mapping(vec![])), "{}");
}

#[test]
fn bare_and_quoted_strings() {
    let bare = Value::Text(String::from("hello_world"));
    assert_eq!(cyrly::to_string(&bare).unwrap(), "hello_world");
    let yes = Value::Text(String::from("yes"));
    assert_eq!(cyrly::to_string(&yes).unwrap(), "\"yes\"");
    let null = Value::Text(String::from("null"));
    assert_eq!(cyrly::to_string(&null).unwrap(), "\"null\"");
    let upper = Value::Text(String::from("NO"));
    assert_eq!(cyrly::to_string(&upper).unwrap(), "\"NO\"");
}

#[test]
fn scalar_key_inlined() {
    let v = Value::Mapping(vec![(Value::Bool(true), Value::Bool(false))]);
    assert_eq!(cyrly::to_string(&v).unwrap(), "{\n  true: false,\n}");
}

#[test]
fn variant_tag_percent_encoded() {
    let v = Value::Variant(
        String::from("My Variant"),
        cyrly::Payload::Single(Box::new(Value::Int(42))),
    );
    assert_eq!(cyrly::to_string(&v).unwrap(), "!My%20Variant 42");
}

#[test]
fn float_sentinels() {
    let nan = Value::Float(FloatRepr::nan());
    assert_eq!(cyrly::to_string(&nan).unwrap(), ".nan");
    assert_eq!(FloatRepr::nan().bits, f64::NAN.to_bits());
    let neg_inf = Value::Float(FloatRepr::neg_infinity());
    assert_eq!(cyrly::to_string(&neg_inf).unwrap(), "-.inf");
    assert_eq!(FloatRepr::neg_infinity().bits, f64::NEG_INFINITY.to_bits());
    let inf = Value::Float(FloatRepr::infinity());
    assert_eq!(cyrly::to_string(&inf).unwrap(), ".inf");
    assert_eq!(FloatRepr::infinity().bits, f64::INFINITY.to_bits());
}

#[test]
fn float_finite() {
    let mut buf = ryu::Buffer::new();
    let f = FloatRepr::new(2.5f64.to_bits(), buf.format_finite(2.5f64).to_string());
    assert_eq!(cyrly::to_string(&Value::Float(f)).unwrap(), "2.5");
}

#[test]
fn long_string_folds() {
    let v = Value::Text("a".repeat(100));
    let expected = format!(
        "\"\\\n  {}\\\n  {}\\\n\"",
        "a".repeat(80),
        "a".repeat(20)
    );
    assert_eq!(cyrly::to_string(&v).unwrap(), expected);
}

#[test]
fn long_string_wraps_at_spaces() {
    // two words of 45 characters: the second does not fit the 80-column
    // budget, so the spacing between them becomes an early break
    let word = "w".repeat(45);
    let v = Value::Text(format!("{word} {word}"));
    let expected = format!("\"\\\n  {word}\n  {word}\\\n\"");
    assert_eq!(cyrly::to_string(&v).unwrap(), expected);
}

#[test]
fn int_extremes() {
    assert_eq!(
        cyrly::to_string(&Value::Int(i64::MIN)).unwrap(),
        "-9223372036854775808"
    );
    assert_eq!(
        cyrly::to_string(&Value::Int(i64::MAX)).unwrap(),
        "9223372036854775807"
    );
    assert_eq!(
        cyrly::to_string(&Value::UInt(u64::MAX)).unwrap(),
        "18446744073709551615"
    );
    assert_eq!(cyrly::to_string(&Value::Int(0)).unwrap(), "0");
    assert_eq!(cyrly::to_string(&Value::Int(-1)).unwrap(), "-1");
}

#[test]
fn escapes() {
    let space = Value::Text(String::from("a b"));
    assert_eq!(cyrly::to_string(&space).unwrap(), "\"a b\"");
    let tab = Value::Text(String::from("tab\there"));
    assert_eq!(cyrly::to_string(&tab).unwrap(), "\"tab\\u0009here\"");
    let quote = Value::Text(String::from("say \"hi\"\\"));
    assert_eq!(cyrly::to_string(&quote).unwrap(), "\"say \\\"hi\\\"\\\\\"");
    let crlf = Value::Text(String::from("a\r\nb"));
    assert_eq!(cyrly::to_string(&crlf).unwrap(), "\"a\\r\\nb\"");
    let emoji = Value::Text(String::from("\u{1f600}"));
    assert_eq!(cyrly::to_string(&emoji).unwrap(), "\"\\U0001f600\"");
    let accent = Value::Text(String::from("caf\u{e9}"));
    assert_eq!(cyrly::to_string(&accent).unwrap(), "\"caf\u{e9}\"");
    let nul = Value::Text(String::from("\0"));
    assert_eq!(cyrly::to_string(&nul).unwrap(), "\"\\0\"");
}

#[test]
fn classification_helpers() {
    assert!(cyrly::text::is_yaml_benign_str("hello_world2"));
    assert!(!cyrly::text::is_yaml_benign_str("2cool"));
    assert!(!cyrly::text::is_yaml_benign_str(""));
    assert!(!cyrly::text::is_yaml_benign_str("a b"));
    assert!(cyrly::text::is_yaml_special_str("Yes"));
    assert!(cyrly::text::is_yaml_special_str("NaN"));
    assert!(cyrly::text::is_yaml_special_str("off"));
    assert!(!cyrly::text::is_yaml_special_str("yess"));
}

#[test]
fn depth_limit() {
    let mut v = Value::Int(1);
    for _ in 0..1000 {
        v = Value::Sequence(vec![v]);
    }
    assert!(cyrly::to_string(&v).is_ok());
    let mut w = Value::Int(1);
    for _ in 0..1001 {
        w = Value::Sequence(vec![w]);
    }
    assert_eq!(cyrly::to_string(&w), Err(cyrly::EncodeError::DepthLimit));
}
