//! Formatting of doubles.
//!
//! A double enters the library as [`FloatRepr`]: its raw IEEE-754 bits
//! together with the decimal text to use when the bits are finite. The
//! class decisions (NaN, infinities) are plain bit logic and are verified
//! here; producing the shortest round-trip decimal of a finite double is
//! floating-point work that the library cannot hold, so the caller
//! supplies that text when it builds the value (see the crate's front
//! end, which fills it in with ryu).

use vstd::prelude::*;
use vstd::string::StringExecFns;

verus! {

/// Bits of positive infinity.
pub const F64_INF_BITS: u64 = 0x7ff0000000000000;

/// Bits of negative infinity.
pub const F64_NEG_INF_BITS: u64 = 0xfff0000000000000;

/// The double with these bits is a NaN: exponent all ones, fraction nonzero.
pub open spec fn f64_is_nan_bits(bits: u64) -> bool {
    (bits >> 52) & 0x7ff == 0x7ff && bits & 0xfffffffffffff != 0
}

/// The double with these bits is finite: exponent not all ones.
pub open spec fn f64_is_finite_bits(bits: u64) -> bool {
    (bits >> 52) & 0x7ff != 0x7ff
}

/// A double, as the encoder sees it: its raw bits, and the decimal text
/// that stands for it when it is finite (ignored otherwise).
#[derive(Debug)]
pub struct FloatRepr {
    pub bits: u64,
    pub text: String,
}

impl FloatRepr {
    /// A finite (or any) double from its bits and its decimal text.
    pub fn new(bits: u64, text: String) -> (r: FloatRepr)
        ensures
            r.bits == bits,
            r.text == text,
    {
        FloatRepr { bits, text }
    }

    /// The quiet NaN that `f64::NAN` carries.
    pub fn nan() -> (r: FloatRepr)
        ensures
            r.bits == 0x7ff8000000000000u64,
    {
        FloatRepr { bits: 0x7ff8000000000000, text: String::new() }
    }

    /// Positive infinity.
    pub fn infinity() -> (r: FloatRepr)
        ensures
            r.bits == F64_INF_BITS,
    {
        FloatRepr { bits: F64_INF_BITS, text: String::new() }
    }

    /// Negative infinity.
    pub fn neg_infinity() -> (r: FloatRepr)
        ensures
            r.bits == F64_NEG_INF_BITS,
    {
        FloatRepr { bits: F64_NEG_INF_BITS, text: String::new() }
    }
}

/// The text of a double: `.nan`, `.inf` and `-.inf` as exact lowercase
/// sentinels, the carried decimal text otherwise.
pub open spec fn float_text(f: FloatRepr) -> Seq<char> {
    if f64_is_nan_bits(f.bits) {
        ".nan"@
    } else if f.bits == F64_INF_BITS {
        ".inf"@
    } else if f.bits == F64_NEG_INF_BITS {
        "-.inf"@
    } else {
        f.text@
    }
}

/// The sentinel spelling of a non-finite double holds no line break.
pub proof fn lemma_float_sentinel_no_newline(f: FloatRepr)
    requires
        !f64_is_finite_bits(f.bits),
    ensures
        crate::text::no_newline(float_text(f)),
{
    reveal_strlit(".nan");
    reveal_strlit(".inf");
    reveal_strlit("-.inf");
    let b = f.bits;
    assert((b >> 52) & 0x7ff == 0x7ff && !(b & 0xfffffffffffff != 0) ==> b == 0x7ff0000000000000
        || b == 0xfff0000000000000) by (bit_vector);
}

/// Appends the text of a double.
pub fn write_float(out: &mut String, f: &FloatRepr)
    ensures
        final(out)@ == old(out)@ + float_text(*f),
{
    let bits = f.bits;
    if (bits >> 52) & 0x7ff == 0x7ff && bits & 0xfffffffffffff != 0 {
        out.append(".nan");
    } else if bits == F64_INF_BITS {
        out.append(".inf");
    } else if bits == F64_NEG_INF_BITS {
        out.append("-.inf");
    } else {
        out.append(f.text.as_str());
    }
}

} // verus!
