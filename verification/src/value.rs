//! The value model that the encoder walks.

use vstd::prelude::*;
use crate::float::FloatRepr;

verus! {

/// A structured value, the input of the encoder.
///
/// Floats are carried as [`FloatRepr`]: the raw bits of an IEEE-754
/// double plus the decimal text of a finite one, so that the encoder's
/// decisions about them are plain integer and string logic.
#[derive(Debug)]
pub enum Value {
    Null,
    Bool(bool),
    Int(i64),
    UInt(u64),
    Float(FloatRepr),
    Text(String),
    Sequence(Vec<Value>),
    Mapping(Vec<(Value, Value)>),
    Variant(String, Payload),
}

/// The payload carried by a tagged variant value.
#[derive(Debug)]
pub enum Payload {
    Unit,
    Single(Box<Value>),
    Tuple(Vec<Value>),
    Record(Vec<(String, Value)>),
}

} // verus!
