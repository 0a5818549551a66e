//! Round trips: text produced by the encoder is read back by a standard
//! YAML parser as an equal value.

use cyrly::{CurlySerializer, FloatRepr, Payload, Value};

fn float_value(f: f64) -> Value {
    let text = if f.is_finite() {
        let mut buf = ryu::Buffer::new();
        buf.format_finite(f).to_string()
    } else {
        String::new()
    };
    Value::Float(FloatRepr::new(f.to_bits(), text))
}

fn encode_oneline(v: &Value) -> String {
    let mut ser = CurlySerializer::new().oneline();
    ser.serialize_value(v).unwrap();
    ser.into_string()
}

#[test]
fn first() {
    let v = Value::Sequence(vec![Value::Int(1), Value::Int(2), Value::Int(3)]);
    let out = cyrly::to_string(&v).unwrap();
    let de: serde_yaml::Value = serde_yaml::from_str(&out).unwrap();
    let expected = serde_yaml::Value::Sequence(vec![1i64.into(), 2i64.into(), 3i64.into()]);
    assert_eq!(de, expected);
}

#[test]
fn second() {
    let asdf = Value::Variant(
        String::from("this can't be an ident?"),
        Payload::Record(vec![
            (String::from("a"), Value::Int(42)),
            (String::from("b"), Value::Int(13)),
        ]),
    );
    let foo = Value::Mapping(vec![
        (Value::Text(String::from("foo")), Value::Null),
        (Value::Text(String::from("bar")), Value::Null),
        (Value::Text(String::from("asdf")), asdf),
        (Value::Text(String::from("newtype")), Value::Int(0)),
        (Value::Text(String::from("c")), Value::Text(String::from("\0"))),
    ]);
    let out = cyrly::to_string(&foo).unwrap();
    let de: serde_yaml::Value = serde_yaml::from_str(&out).unwrap();

    let mut inner = serde_yaml::Mapping::new();
    inner.insert("a".into(), 42i64.into());
    inner.insert("b".into(), 13i64.into());
    let tagged = serde_yaml::Value::Tagged(Box::new(serde_yaml::value::TaggedValue {
        tag: serde_yaml::value::Tag::new("this can't be an ident?"),
        value: serde_yaml::Value::Mapping(inner),
    }));
    let mut m = serde_yaml::Mapping::new();
    m.insert("foo".into(), serde_yaml::Value::Null);
    m.insert("bar".into(), serde_yaml::Value::Null);
    m.insert("asdf".into(), tagged);
    m.insert("newtype".into(), 0i64.into());
    m.insert("c".into(), "\0".into());
    assert_eq!(de, serde_yaml::Value::Mapping(m));
}

#[test]
fn and_i_quote_null() {
    let v = Value::Text(String::from("null"));
    let out = cyrly::to_string(&v).unwrap();
    let de: serde_yaml::Value = serde_yaml::from_str(&out).unwrap();
    assert_eq!(de, serde_yaml::Value::String(String::from("null")));
}

fn composite() -> (Value, serde_yaml::Value) {
    let v = Value::Mapping(vec![
        (
            Value::Text(String::from("list")),
            Value::Sequence(vec![
                Value::Int(-7),
                Value::Bool(true),
                Value::Text(String::from("two words")),
                float_value(2.5),
            ]),
        ),
        (Value::Bool(false), Value::Null),
        (
            Value::Text(String::from("nested")),
            Value::Mapping(vec![(Value::Int(1), Value::UInt(u64::MAX))]),
        ),
    ]);

    let mut inner = serde_yaml::Mapping::new();
    inner.insert(1i64.into(), u64::MAX.into());
    let mut m = serde_yaml::Mapping::new();
    m.insert(
        "list".into(),
        serde_yaml::Value::Sequence(vec![
            (-7i64).into(),
            true.into(),
            "two words".into(),
            2.5f64.into(),
        ]),
    );
    m.insert(false.into(), serde_yaml::Value::Null);
    m.insert("nested".into(), serde_yaml::Value::Mapping(inner));
    (v, serde_yaml::Value::Mapping(m))
}

#[test]
fn composite_roundtrip_multiline() {
    let (v, expected) = composite();
    let out = cyrly::to_string(&v).unwrap();
    let de: serde_yaml::Value = serde_yaml::from_str(&out).unwrap();
    assert_eq!(de, expected);
}

#[test]
fn mode_independence() {
    let (v, expected) = composite();
    let ml = cyrly::to_string(&v).unwrap();
    let one = encode_oneline(&v);
    assert_ne!(ml, one);
    let de_ml: serde_yaml::Value = serde_yaml::from_str(&ml).unwrap();
    let de_one: serde_yaml::Value = serde_yaml::from_str(&one).unwrap();
    assert_eq!(de_ml, de_one);
    assert_eq!(de_one, expected);
}

#[test]
fn folded_string_roundtrip() {
    let text = "the quick brown fox jumps over the lazy dog and keeps on running well past \
                the eightieth column of the line, with  doubled  spaces,\nline breaks,\n\nand a \
                supercalifragilisticexpialidociously_overlong_single_word_that_never_wraps_early";
    let v = Value::Text(String::from(text));
    let out = cyrly::to_string(&v).unwrap();
    let de: serde_yaml::Value = serde_yaml::from_str(&out).unwrap();
    assert_eq!(de, serde_yaml::Value::String(String::from(text)));
}

#[test]
fn unit_variant_roundtrip() {
    let v = Value::Variant(String::from("Bsdf"), Payload::Unit);
    let out = cyrly::to_string(&v).unwrap();
    let de: serde_yaml::Value = serde_yaml::from_str(&out).unwrap();
    assert_eq!(de, serde_yaml::Value::String(String::from("Bsdf")));
}

#[test]
fn tuple_variant_roundtrip() {
    let v = Value::Variant(
        String::from("Pair"),
        Payload::Tuple(vec![Value::Int(1), Value::Int(2)]),
    );
    let out = cyrly::to_string(&v).unwrap();
    let de: serde_yaml::Value = serde_yaml::from_str(&out).unwrap();
    let tagged = serde_yaml::Value::Tagged(Box::new(serde_yaml::value::TaggedValue {
        tag: serde_yaml::value::Tag::new("Pair"),
        value: serde_yaml::Value::Sequence(vec![1i64.into(), 2i64.into()]),
    }));
    assert_eq!(de, tagged);
}
