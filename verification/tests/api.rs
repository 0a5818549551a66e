//! The push-style API: sequence and map builders, the speculative
//! short-form renderer, keys behind the `? ` block marker, and the
//! per-type scalar calls.

use cyrly::{CurlySerializer, Value};

#[test]
fn seq_builder_oneline() {
    let ser = CurlySerializer::new().oneline();
    let mut seq = ser.serialize_seq();
    seq.serialize_element(&Value::Int(1)).unwrap();
    seq.serialize_element(&Value::Int(2)).unwrap();
    let ser = seq.end();
    assert_eq!(ser.into_string(), "[ 1, 2 ]");
}

#[test]
fn seq_builder_multiline() {
    let ser = CurlySerializer::new();
    let mut seq = ser.serialize_seq();
    seq.serialize_element(&Value::Bool(true)).unwrap();
    let ser = seq.end();
    assert_eq!(ser.into_string(), "[\n  true,\n]");
}

#[test]
fn map_builder_fills_missing_value() {
    let ser = CurlySerializer::new();
    let mut map = ser.serialize_map();
    map.serialize_key(&Value::Text(String::from("a"))).unwrap();
    map.serialize_key(&Value::Text(String::from("b"))).unwrap();
    map.serialize_value(&Value::Int(1)).unwrap();
    let ser = map.end();
    assert_eq!(ser.into_string(), "{\n  a: null,\n  b: 1,\n}");
}

#[test]
fn map_builder_fills_missing_key() {
    let ser = CurlySerializer::new();
    let mut map = ser.serialize_map();
    map.serialize_value(&Value::Int(5)).unwrap();
    let ser = map.end();
    assert_eq!(ser.into_string(), "{\n  null: 5,\n}");
}

#[test]
fn map_builder_oneline() {
    let ser = CurlySerializer::new().oneline();
    let mut map = ser.serialize_map();
    map.serialize_key(&Value::Text(String::from("a"))).unwrap();
    map.serialize_value(&Value::Int(1)).unwrap();
    map.serialize_key(&Value::Text(String::from("b"))).unwrap();
    map.serialize_value(&Value::Int(2)).unwrap();
    let ser = map.end();
    assert_eq!(ser.into_string(), "{ a: 1, b: 2 }");
}

#[test]
fn short_form_within_budget() {
    let ser = CurlySerializer::new();
    let v = Value::Text(String::from("aaaaaaaaaa"));
    assert_eq!(
        ser.serialize_short(&v, 10).unwrap(),
        Some(String::from("aaaaaaaaaa"))
    );
    assert_eq!(ser.serialize_short(&v, 9).unwrap(), None);
}

#[test]
fn short_form_matches_full_oneline_encoding() {
    let v = Value::Mapping(vec![
        (
            Value::Sequence(vec![Value::Int(1), Value::Int(2)]),
            Value::Text(String::from("two words")),
        ),
        (Value::Bool(false), Value::Null),
    ]);
    let mut ser = CurlySerializer::new().oneline();
    let short = ser.serialize_short(&v, 512).unwrap().unwrap();
    ser.serialize_value(&v).unwrap();
    let full = ser.into_string();
    assert_eq!(short, full);
    assert!(short.len() <= 512);
    assert!(!short.contains('\n'));
}

#[test]
fn long_key_block_form_oneline() {
    let key = Value::Text("x".repeat(600));
    let v = Value::Mapping(vec![(key, Value::Int(1))]);
    let mut ser = CurlySerializer::new().oneline();
    ser.serialize_value(&v).unwrap();
    let out = ser.into_string();
    assert_eq!(out, format!("{{ ? {}: 1 }}", "x".repeat(600)));
}

#[test]
fn long_key_block_form_multiline() {
    let key = Value::Text("a".repeat(100));
    let v = Value::Mapping(vec![(key, Value::Int(1))]);
    let out = cyrly::to_string(&v).unwrap();
    let expected = format!(
        "{{\n  ? \"\\\n    {}\\\n    {}\\\n  \"\n  : 1,\n}}",
        "a".repeat(80),
        "a".repeat(20)
    );
    assert_eq!(out, expected);
}

#[test]
fn scalar_calls() {
    let mut ser = CurlySerializer::new();
    ser.serialize_bool(true);
    ser.serialize_i8(-5);
    ser.serialize_i16(-300);
    ser.serialize_i32(70000);
    ser.serialize_i64(-1);
    ser.serialize_u8(255);
    ser.serialize_u16(65535);
    ser.serialize_u32(7);
    ser.serialize_u64(8);
    ser.serialize_none();
    ser.serialize_unit();
    assert_eq!(ser.into_string(), "true-5-30070000-12556553578nullnull");
}

#[test]
fn char_and_str_calls() {
    let mut ser = CurlySerializer::new();
    ser.serialize_char('x');
    ser.serialize_char(' ');
    ser.serialize_str("on");
    assert_eq!(ser.into_string(), "x\" \"\"on\"");
}

#[test]
fn bytes_call() {
    let mut ser = CurlySerializer::new().oneline();
    ser.serialize_bytes(&[0u8, 17, 255]).unwrap();
    assert_eq!(ser.into_string(), "[ 0, 17, 255 ]");
}

#[test]
fn variant_calls() {
    let mut ser = CurlySerializer::new();
    ser.serialize_unit_variant("Bsdf");
    assert_eq!(ser.into_string(), "Bsdf");

    let mut ser = CurlySerializer::new();
    ser.serialize_newtype_variant("A B", &Value::Int(9)).unwrap();
    assert_eq!(ser.into_string(), "!A%20B 9");
}

#[test]
fn mode_switch_builders() {
    let ser = CurlySerializer::new().oneline().multiline();
    let mut seq = ser.serialize_seq();
    seq.serialize_element(&Value::Int(1)).unwrap();
    assert_eq!(seq.end().into_string(), "[\n  1,\n]");
}
