//! A verified encoder for a compact flow-style YAML dialect.
//!
//! The crate turns an in-memory [`value::Value`] (nulls, booleans, integers,
//! floats given by their IEEE-754 bits, strings, sequences, order-preserving
//! maps and tagged variants) into deterministic, human-writable text that a
//! conventional YAML parser reads back as an equal value.
//!
//! The exact text produced is pinned down by spec functions ([`encode::enc_one`]
//! for the single-line form, [`encode::enc_ml`] for the multi-line form), and
//! every executable function is verified to emit exactly that text.

use vstd::prelude::*;

pub mod value;
pub mod text;
pub mod float;
pub mod wrap;
pub mod encode;

pub use encode::CurlyMap;
pub use encode::CurlySeq;
pub use encode::CurlySerializer;
pub use encode::EncodeError;
pub use encode::MapNext;
pub use encode::to_string;
pub use float::FloatRepr;
pub use value::Payload;
pub use value::Value;

verus! {

} // verus!
