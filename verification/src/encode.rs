//! The traversal engine: layout of sequences, maps and variants, the
//! speculative single-line renderer, and the push-style serializer API.

use vstd::prelude::*;
use vstd::string::StrSliceExecFns;
use vstd::string::StringExecFns;
use crate::value::Value;
use crate::value::Payload;
use crate::float::float_text;
use crate::float::f64_is_finite_bits;
use crate::float::write_float;
use crate::text::str_flow;
use crate::text::is_special_str;
use crate::text::int_text;
use crate::text::dec_u64_text;
use crate::text::str_chars;
use crate::text::is_yaml_special_chars;
use crate::text::write_string_flow_chars;
use crate::text::write_string_flow;
use crate::text::push_i64_decimal;
use crate::text::no_newline;
use crate::text::lemma_no_newline_concat;
use crate::text::push_u64_decimal;
use crate::wrap::indent_text;
use crate::wrap::str_folded;
use crate::wrap::write_folded;
use crate::wrap::write_indent_ml;

verus! {

/// Nesting ceiling: a value nested deeper than this is refused instead of
/// letting the recursive descent exhaust the call stack.
pub const MAX_DEPTH: usize = 1000;

/// Width budget for the speculative single-line attempt in multi-line
/// mode.
pub const SHORT_BUDGET_ML: usize = 80;

/// Width budget for map keys in single-line mode; flow keys much longer
/// than this would need the explicit `?` block form anyway.
pub const SHORT_BUDGET_ONE: usize = 512;

/// The encoder's only error: the value nests deeper than [`MAX_DEPTH`].
#[derive(Debug, PartialEq, Eq, Structural)]
pub enum EncodeError {
    DepthLimit,
}

// ---------------------------------------------------------------------------
// percent-encoded variant tags
// ---------------------------------------------------------------------------

/// The percent-encoding of a string: every byte of its UTF-8 form except
/// ASCII alphanumerics and `-`, `_`, `.`, `~` becomes `%` and two
/// uppercase hex digits.
pub uninterp spec fn pct_encoded(s: Seq<char>) -> Seq<char>;

/// Relies on urlencoding::encode, which percent-encodes exactly as
/// [`pct_encoded`] describes; the result depends on the string alone.
#[verifier::external_body]
fn percent_encode(s: &str) -> (r: String)
    ensures
        r@ == pct_encoded(s@),
{
    urlencoding::encode(s).into_owned()
}

/// The tag that introduces a variant: `!`, the percent-encoded name, one
/// space.
pub open spec fn tag_text(name: Seq<char>) -> Seq<char> {
    "!"@ + pct_encoded(name) + " "@
}

fn write_tag(out: &mut String, name: &str)
    ensures
        final(out)@ == old(out)@ + tag_text(name@),
{
    out.append("!");
    let e = percent_encode(name);
    out.append(e.as_str());
    out.append(" ");
    proof {
        assert(final(out)@ =~= old(out)@ + tag_text(name@));
    }
}

// ---------------------------------------------------------------------------
// which values fit the depth ceiling
// ---------------------------------------------------------------------------

/// Whether a value can be encoded at the given nesting level: every
/// bracketed construct below it must open at a level under [`MAX_DEPTH`].
pub open spec fn can_encode(v: Value, level: nat) -> bool
    decreases v,
{
    match v {
        Value::Sequence(es) => level < MAX_DEPTH && (forall|i: int|
            0 <= i < es@.len() ==> can_encode(#[trigger] es@[i], level + 1)),
        Value::Mapping(ps) => level < MAX_DEPTH && (forall|i: int|
            0 <= i < ps@.len() ==> can_encode(#[trigger] ps@[i].0, level + 1) && can_encode(
                ps@[i].1,
                level + 1,
            )),
        Value::Variant(_, p) => match p {
            Payload::Unit => true,
            Payload::Single(b) => can_encode(*b, level),
            Payload::Tuple(es) => level < MAX_DEPTH && (forall|i: int|
                0 <= i < es@.len() ==> can_encode(#[trigger] es@[i], level + 1)),
            Payload::Record(fs) => level < MAX_DEPTH && (forall|i: int|
                0 <= i < fs@.len() ==> can_encode(#[trigger] fs@[i].1, level + 1)),
        },
        _ => true,
    }
}

// ---------------------------------------------------------------------------
// the single-line (flow) text
// ---------------------------------------------------------------------------

/// Single-line text of a value. Nesting level plays no part in it.
pub open spec fn enc_one(v: Value) -> Seq<char>
    decreases v, 0int,
{
    match v {
        Value::Null => "null"@,
        Value::Bool(b) => if b {
            "true"@
        } else {
            "false"@
        },
        Value::Int(i) => int_text(i as int),
        Value::UInt(u) => dec_u64_text(u as nat),
        Value::Float(f) => float_text(f),
        Value::Text(s) => str_flow(s@),
        Value::Sequence(es) => one_seq_text(es@),
        Value::Mapping(ps) => one_map_text(ps@),
        Value::Variant(n, p) => match p {
            Payload::Unit => str_flow(n@),
            Payload::Single(b) => tag_text(n@) + enc_one(*b),
            Payload::Tuple(es) => tag_text(n@) + one_seq_text(es@),
            Payload::Record(fs) => tag_text(n@) + one_rec_text(fs@),
        },
    }
}

/// A map key in single-line mode: spliced inline when its flow text fits
/// the key budget, behind the `? ` marker otherwise.
pub open spec fn key_one(k: Value) -> Seq<char>
    decreases k, 1int,
{
    if enc_one(k).len() <= SHORT_BUDGET_ONE {
        enc_one(k)
    } else {
        "? "@ + enc_one(k)
    }
}

/// A record field name in single-line mode, laid out as the key it is.
pub open spec fn rec_key_one(name: Seq<char>) -> Seq<char> {
    if str_flow(name).len() <= SHORT_BUDGET_ONE {
        str_flow(name)
    } else {
        "? "@ + str_flow(name)
    }
}

/// The elements of a single-line sequence, comma-separated.
pub open spec fn enc_one_seq(es: Seq<Value>) -> Seq<char>
    decreases es, 0int,
{
    if es.len() == 0 {
        Seq::<char>::empty()
    } else {
        enc_one_seq(es.drop_last()) + (if es.len() > 1 {
            ","@
        } else {
            Seq::<char>::empty()
        }) + " "@ + enc_one(es.last())
    }
}

/// The entries of a single-line map.
pub open spec fn enc_one_map(ps: Seq<(Value, Value)>) -> Seq<char>
    decreases ps, 0int,
{
    if ps.len() == 0 {
        Seq::<char>::empty()
    } else {
        enc_one_map(ps.drop_last()) + (if ps.len() > 1 {
            ","@
        } else {
            Seq::<char>::empty()
        }) + " "@ + key_one(ps.last().0) + ": "@ + enc_one(ps.last().1)
    }
}

/// The fields of a single-line record.
pub open spec fn enc_one_rec(fs: Seq<(String, Value)>) -> Seq<char>
    decreases fs, 0int,
{
    if fs.len() == 0 {
        Seq::<char>::empty()
    } else {
        enc_one_rec(fs.drop_last()) + (if fs.len() > 1 {
            ","@
        } else {
            Seq::<char>::empty()
        }) + " "@ + rec_key_one(fs.last().0@) + ": "@ + enc_one(fs.last().1)
    }
}

/// A bracketed single-line sequence.
pub open spec fn one_seq_text(es: Seq<Value>) -> Seq<char>
    decreases es, 1int,
{
    "["@ + enc_one_seq(es) + (if es.len() > 0 {
        " "@
    } else {
        Seq::<char>::empty()
    }) + "]"@
}

/// A braced single-line map.
pub open spec fn one_map_text(ps: Seq<(Value, Value)>) -> Seq<char>
    decreases ps, 1int,
{
    "{"@ + enc_one_map(ps) + (if ps.len() > 0 {
        " "@
    } else {
        Seq::<char>::empty()
    }) + "}"@
}

/// A braced single-line record.
pub open spec fn one_rec_text(fs: Seq<(String, Value)>) -> Seq<char>
    decreases fs, 1int,
{
    "{"@ + enc_one_rec(fs) + (if fs.len() > 0 {
        " "@
    } else {
        Seq::<char>::empty()
    }) + "}"@
}

// ---------------------------------------------------------------------------
// the single-line renderer
// ---------------------------------------------------------------------------

/// Appends the single-line text of the value; refuses values nested
/// beyond the depth ceiling.
#[verifier::loop_isolation(false)]
pub fn write_one(out: &mut String, v: &Value, level: usize) -> (r: Result<(), EncodeError>)
    ensures
        r is Ok <==> can_encode(*v, level as nat),
        r is Ok ==> final(out)@ == old(out)@ + enc_one(*v),
    decreases *v, 1int,
{
    match v {
        Value::Null => {
            out.append("null");
            Ok(())
        },
        Value::Bool(b) => {
            if *b {
                out.append("true");
            } else {
                out.append("false");
            }
            Ok(())
        },
        Value::Int(i) => {
            push_i64_decimal(out, *i);
            Ok(())
        },
        Value::UInt(u) => {
            push_u64_decimal(out, *u);
            Ok(())
        },
        Value::Float(f) => {
            write_float(out, f);
            Ok(())
        },
        Value::Text(s) => {
            write_string_flow(out, s.as_str());
            Ok(())
        },
        Value::Sequence(es) => write_one_seq(out, es, level),
        Value::Mapping(ps) => write_one_map(out, ps, level),
        Value::Variant(n, p) => match p {
            Payload::Unit => {
                write_string_flow(out, n.as_str());
                Ok(())
            },
            Payload::Single(b) => {
                write_tag(out, n.as_str());
                let r = write_one(out, &**b, level);
                proof {
                    if r is Ok {
                        assert(final(out)@ =~= old(out)@ + enc_one(*v));
                    }
                }
                r
            },
            Payload::Tuple(es) => {
                write_tag(out, n.as_str());
                let r = write_one_seq(out, es, level);
                proof {
                    if r is Ok {
                        assert(final(out)@ =~= old(out)@ + enc_one(*v));
                    }
                }
                r
            },
            Payload::Record(fs) => {
                write_tag(out, n.as_str());
                let r = write_one_rec(out, fs, level);
                proof {
                    if r is Ok {
                        assert(final(out)@ =~= old(out)@ + enc_one(*v));
                    }
                }
                r
            },
        },
    }
}

/// Appends a bracketed single-line sequence.
#[verifier::loop_isolation(false)]
fn write_one_seq(out: &mut String, es: &Vec<Value>, level: usize) -> (r: Result<
    (),
    EncodeError,
>)
    ensures
        r is Ok <==> (level as nat) < MAX_DEPTH && (forall|i: int|
            0 <= i < es@.len() ==> can_encode(#[trigger] es@[i], level as nat + 1)),
        r is Ok ==> final(out)@ == old(out)@ + one_seq_text(es@),
    decreases es@, 0int,
{
    if level >= MAX_DEPTH {
        return Err(EncodeError::DepthLimit);
    }
    out.append("[");
    let ghost base = out@;
    for i in 0..es.len()
        invariant
            out@ == base + enc_one_seq(es@.take(i as int)),
            forall|j: int| 0 <= j < i ==> can_encode(#[trigger] es@[j], level as nat + 1),
    {
        if i > 0 {
            out.append(",");
        }
        out.append(" ");
        match write_one(out, &es[i], level + 1) {
            Ok(()) => {},
            Err(e) => {
                return Err(e);
            },
        }
        proof {
            assert(es@.take(i + 1).drop_last() =~= es@.take(i as int));
            assert(es@.take(i + 1).last() == es@[i as int]);
            assert(out@ =~= base + enc_one_seq(es@.take(i + 1)));
        }
    }
    if es.len() > 0 {
        out.append(" ");
    }
    out.append("]");
    proof {
        assert(es@.take(es@.len() as int) =~= es@);
        assert(final(out)@ =~= old(out)@ + one_seq_text(es@));
    }
    Ok(())
}

/// Appends one single-line map key: the flow text when it fits the key
/// budget, behind the `? ` marker otherwise.
fn write_one_key(out: &mut String, k: &Value, level: usize) -> (r: Result<(), EncodeError>)
    requires
        level < MAX_DEPTH,
    ensures
        r is Ok <==> can_encode(*k, level as nat + 1),
        r is Ok ==> final(out)@ == old(out)@ + key_one(*k),
    decreases *k, 2int,
{
    let mut key_text = String::new();
    match write_one(&mut key_text, k, level + 1) {
        Ok(()) => {},
        Err(e) => {
            return Err(e);
        },
    }
    proof {
        assert(key_text@ =~= enc_one(*k));
    }
    if key_text.as_str().unicode_len() > SHORT_BUDGET_ONE {
        out.append("? ");
    }
    out.append(key_text.as_str());
    proof {
        assert(final(out)@ =~= old(out)@ + key_one(*k));
    }
    Ok(())
}



proof fn lemma_can_encode_extend(ps: Seq<(Value, Value)>, i: int, level: nat)
    requires
        0 <= i < ps.len(),
        forall|j: int|
            0 <= j < i ==> can_encode(#[trigger] ps[j].0, level + 1) && can_encode(
                ps[j].1,
                level + 1,
            ),
        can_encode(ps[i].0, level + 1),
        can_encode(ps[i].1, level + 1),
    ensures
        forall|j: int|
            0 <= j < i + 1 ==> can_encode(#[trigger] ps[j].0, level + 1) && can_encode(
                ps[j].1,
                level + 1,
            ),
{
}

/// Appends one full single-line map entry: separator, space, the key,
/// `: `, the value.
fn write_one_map_entry(
    out: &mut String,
    p: &(Value, Value),
    level: usize,
    first: bool,
) -> (r: Result<(), EncodeError>)
    requires
        level < MAX_DEPTH,
    ensures
        r is Ok <==> can_encode(p.0, level as nat + 1) && can_encode(p.1, level as nat + 1),
        r is Ok ==> final(out)@ == old(out)@ + (if first {
            Seq::<char>::empty()
        } else {
            ","@
        }) + " "@ + key_one(p.0) + ": "@ + enc_one(p.1),
    decreases *p, 3int,
{
    if !first {
        out.append(",");
    }
    out.append(" ");
    match write_one_key(out, &p.0, level) {
        Ok(()) => {},
        Err(e) => {
            return Err(e);
        },
    }
    out.append(": ");
    match write_one(out, &p.1, level + 1) {
        Ok(()) => {},
        Err(e) => {
            return Err(e);
        },
    }
    proof {
        assert(final(out)@ =~= old(out)@ + (if first {
            Seq::<char>::empty()
        } else {
            ","@
        }) + " "@ + key_one(p.0) + ": "@ + enc_one(p.1));
    }
    Ok(())
}

/// Appends a braced single-line map: each key is rendered apart, spliced
/// inline when it fits the key budget and put behind `? ` otherwise.
#[verifier::loop_isolation(false)]
#[verifier::rlimit(100)]
fn write_one_map(out: &mut String, ps: &Vec<(Value, Value)>, level: usize) -> (r: Result<
    (),
    EncodeError,
>)
    ensures
        r is Ok <==> (level as nat) < MAX_DEPTH && (forall|i: int|
            0 <= i < ps@.len() ==> can_encode(#[trigger] ps@[i].0, level as nat + 1) && can_encode(
                ps@[i].1,
                level as nat + 1,
            )),
        r is Ok ==> final(out)@ == old(out)@ + one_map_text(ps@),
    decreases ps@, 0int,
{
    if level >= MAX_DEPTH {
        return Err(EncodeError::DepthLimit);
    }
    out.append("{");
    let ghost base = out@;
    for i in 0..ps.len()
        invariant
            out@ == base + enc_one_map(ps@.take(i as int)),
            forall|j: int|
                0 <= j < i ==> can_encode(#[trigger] ps@[j].0, level as nat + 1) && can_encode(
                    ps@[j].1,
                    level as nat + 1,
                ),
    {
        match write_one_map_entry(out, &ps[i], level, i == 0) {
            Ok(()) => {},
            Err(e) => {
                return Err(e);
            },
        }
        proof {
            let k = ps@[i as int].0;
            let entry_val = ps@[i as int].1;
            assert(can_encode(k, level as nat + 1));
            assert(can_encode(entry_val, level as nat + 1));
            lemma_can_encode_extend(ps@, i as int, level as nat);
            assert(ps@.take(i + 1).drop_last() =~= ps@.take(i as int));
            assert(ps@.take(i + 1).last() == ps@[i as int]);
            assert(enc_one_map(ps@.take(i + 1)) =~= enc_one_map(ps@.take(i as int)) + (if i > 0 {
                ","@
            } else {
                Seq::<char>::empty()
            }) + " "@ + key_one(k) + ": "@ + enc_one(entry_val));
            assert(out@ =~= base + enc_one_map(ps@.take(i + 1)));
        }
    }
    if ps.len() > 0 {
        out.append(" ");
    }
    out.append("}");
    proof {
        assert(ps@.take(ps@.len() as int) =~= ps@);
        assert(final(out)@ =~= old(out)@ + one_map_text(ps@));
    }
    Ok(())
}


/// Appends one single-line record key: the flow text of the field name
/// when it fits the key budget, behind the `? ` marker otherwise.
fn write_one_rec_key(out: &mut String, name: &str)
    ensures
        final(out)@ == old(out)@ + rec_key_one(name@),
{
    let mut key_text = String::new();
    write_string_flow(&mut key_text, name);
    proof {
        assert(key_text@ =~= str_flow(name@));
    }
    if key_text.as_str().unicode_len() > SHORT_BUDGET_ONE {
        out.append("? ");
    }
    out.append(key_text.as_str());
    proof {
        assert(final(out)@ =~= old(out)@ + rec_key_one(name@));
    }
}

/// Appends one full single-line record entry: separator, space, the
/// field-name key, `: `, the value.
fn write_one_rec_entry(
    out: &mut String,
    name: &str,
    val: &Value,
    level: usize,
    first: bool,
) -> (r: Result<(), EncodeError>)
    requires
        level < MAX_DEPTH,
    ensures
        r is Ok <==> can_encode(*val, level as nat + 1),
        r is Ok ==> final(out)@ == old(out)@ + (if first {
            Seq::<char>::empty()
        } else {
            ","@
        }) + " "@ + rec_key_one(name@) + ": "@ + enc_one(*val),
    decreases *val, 2int,
{
    if !first {
        out.append(",");
    }
    out.append(" ");
    write_one_rec_key(out, name);
    out.append(": ");
    match write_one(out, val, level + 1) {
        Ok(()) => {},
        Err(e) => {
            return Err(e);
        },
    }
    proof {
        assert(final(out)@ =~= old(out)@ + (if first {
            Seq::<char>::empty()
        } else {
            ","@
        }) + " "@ + rec_key_one(name@) + ": "@ + enc_one(*val));
    }
    Ok(())
}

/// Appends a braced single-line record, its field names laid out as keys.
#[verifier::loop_isolation(false)]
#[verifier::rlimit(100)]
fn write_one_rec(out: &mut String, fs: &Vec<(String, Value)>, level: usize) -> (r: Result<
    (),
    EncodeError,
>)
    ensures
        r is Ok <==> (level as nat) < MAX_DEPTH && (forall|i: int|
            0 <= i < fs@.len() ==> can_encode(#[trigger] fs@[i].1, level as nat + 1)),
        r is Ok ==> final(out)@ == old(out)@ + one_rec_text(fs@),
    decreases fs@, 0int,
{
    if level >= MAX_DEPTH {
        return Err(EncodeError::DepthLimit);
    }
    out.append("{");
    let ghost base = out@;
    for i in 0..fs.len()
        invariant
            out@ == base + enc_one_rec(fs@.take(i as int)),
            forall|j: int| 0 <= j < i ==> can_encode(#[trigger] fs@[j].1, level as nat + 1),
    {
        match write_one_rec_entry(out, fs[i].0.as_str(), &fs[i].1, level, i == 0) {
            Ok(()) => {},
            Err(e) => {
                return Err(e);
            },
        }
        proof {
            assert(can_encode(fs@[i as int].1, level as nat + 1));
            assert(fs@.take(i + 1).drop_last() =~= fs@.take(i as int));
            assert(fs@.take(i + 1).last() == fs@[i as int]);
            assert(out@ =~= base + enc_one_rec(fs@.take(i + 1)));
        }
    }
    if fs.len() > 0 {
        out.append(" ");
    }
    out.append("}");
    proof {
        assert(fs@.take(fs@.len() as int) =~= fs@);
        assert(final(out)@ =~= old(out)@ + one_rec_text(fs@));
    }
    Ok(())
}

// ---------------------------------------------------------------------------
// the multi-line text
// ---------------------------------------------------------------------------

/// Multi-line text of a string scalar: reserved words are quoted
/// verbatim; a string whose flow text fits the line budget keeps it; a
/// longer one is folded across lines.
pub open spec fn str_ml(s: Seq<char>, level: nat) -> Seq<char> {
    if is_special_str(s) {
        "\""@ + s + "\""@
    } else if str_flow(s).len() <= SHORT_BUDGET_ML {
        str_flow(s)
    } else {
        str_folded(s, level)
    }
}

/// Multi-line text of a value at a nesting level.
pub open spec fn enc_ml(v: Value, level: nat) -> Seq<char>
    decreases v, 0int,
{
    match v {
        Value::Null => "null"@,
        Value::Bool(b) => if b {
            "true"@
        } else {
            "false"@
        },
        Value::Int(i) => int_text(i as int),
        Value::UInt(u) => dec_u64_text(u as nat),
        Value::Float(f) => float_text(f),
        Value::Text(s) => str_ml(s@, level),
        Value::Sequence(es) => ml_seq_text(es@, level),
        Value::Mapping(ps) => ml_map_text(ps@, level),
        Value::Variant(n, p) => match p {
            Payload::Unit => str_ml(n@, level),
            Payload::Single(b) => tag_text(n@) + enc_ml(*b, level),
            Payload::Tuple(es) => tag_text(n@) + ml_seq_text(es@, level),
            Payload::Record(fs) => tag_text(n@) + ml_rec_text(fs@, level),
        },
    }
}

/// A map key in multi-line mode: its single-line text is spliced when it
/// fits the line budget; otherwise the key stands in `? ` block form,
/// rendered multi-line one level deeper, and the `: ` follows on a fresh
/// indented line.
pub open spec fn key_ml(k: Value, level: nat) -> Seq<char>
    decreases k, 1int,
{
    if enc_one(k).len() <= SHORT_BUDGET_ML {
        enc_one(k)
    } else {
        "? "@ + enc_ml(k, level + 1) + indent_text(level, true)
    }
}

/// A record field name in multi-line mode, laid out as the key it is.
pub open spec fn rec_key_ml(name: Seq<char>, level: nat) -> Seq<char> {
    if str_flow(name).len() <= SHORT_BUDGET_ML {
        str_flow(name)
    } else {
        "? "@ + str_ml(name, level + 1) + indent_text(level, true)
    }
}

/// The elements of a multi-line sequence: each on its own line one level
/// deeper, every one followed by a comma.
pub open spec fn enc_ml_seq(es: Seq<Value>, level: nat) -> Seq<char>
    decreases es, 0int,
{
    if es.len() == 0 {
        Seq::<char>::empty()
    } else {
        enc_ml_seq(es.drop_last(), level) + indent_text(level, true) + enc_ml(
            es.last(),
            level + 1,
        ) + ","@
    }
}

/// The entries of a multi-line map.
pub open spec fn enc_ml_map(ps: Seq<(Value, Value)>, level: nat) -> Seq<char>
    decreases ps, 0int,
{
    if ps.len() == 0 {
        Seq::<char>::empty()
    } else {
        enc_ml_map(ps.drop_last(), level) + indent_text(level, true) + key_ml(ps.last().0, level)
            + ": "@ + enc_ml(ps.last().1, level + 1) + ","@
    }
}

/// The fields of a multi-line record.
pub open spec fn enc_ml_rec(fs: Seq<(String, Value)>, level: nat) -> Seq<char>
    decreases fs, 0int,
{
    if fs.len() == 0 {
        Seq::<char>::empty()
    } else {
        enc_ml_rec(fs.drop_last(), level) + indent_text(level, true) + rec_key_ml(
            fs.last().0@,
            level,
        ) + ": "@ + enc_ml(fs.last().1, level + 1) + ","@
    }
}

/// A bracketed multi-line sequence; a nonempty one closes on a fresh line
/// at the opening level.
pub open spec fn ml_seq_text(es: Seq<Value>, level: nat) -> Seq<char>
    decreases es, 1int,
{
    "["@ + enc_ml_seq(es, level) + (if es.len() > 0 {
        indent_text(level, false)
    } else {
        Seq::<char>::empty()
    }) + "]"@
}

/// A braced multi-line map.
pub open spec fn ml_map_text(ps: Seq<(Value, Value)>, level: nat) -> Seq<char>
    decreases ps, 1int,
{
    "{"@ + enc_ml_map(ps, level) + (if ps.len() > 0 {
        indent_text(level, false)
    } else {
        Seq::<char>::empty()
    }) + "}"@
}

/// A braced multi-line record.
pub open spec fn ml_rec_text(fs: Seq<(String, Value)>, level: nat) -> Seq<char>
    decreases fs, 1int,
{
    "{"@ + enc_ml_rec(fs, level) + (if fs.len() > 0 {
        indent_text(level, false)
    } else {
        Seq::<char>::empty()
    }) + "}"@
}

// ---------------------------------------------------------------------------
// the multi-line renderer
// ---------------------------------------------------------------------------

/// Appends the multi-line text of a string scalar: the flow text when a
/// speculative render of it fits the line budget, the folded form
/// otherwise.
pub fn write_string_ml(out: &mut String, s: &str, level: usize)
    ensures
        final(out)@ == old(out)@ + str_ml(s@, level as nat),
{
    let cs = str_chars(s);
    if is_yaml_special_chars(&cs) {
        write_string_flow_chars(out, &cs);
    } else {
        let mut short = String::new();
        write_string_flow_chars(&mut short, &cs);
        proof {
            assert(short@ =~= str_flow(s@));
        }
        if short.as_str().unicode_len() <= SHORT_BUDGET_ML {
            out.append(short.as_str());
        } else {
            write_folded(out, &cs, level);
        }
    }
}

/// Appends the multi-line text of the value; refuses values nested
/// beyond the depth ceiling.
#[verifier::loop_isolation(false)]
pub fn write_ml(out: &mut String, v: &Value, level: usize) -> (r: Result<(), EncodeError>)
    ensures
        r is Ok <==> can_encode(*v, level as nat),
        r is Ok ==> final(out)@ == old(out)@ + enc_ml(*v, level as nat),
    decreases *v, 1int,
{
    match v {
        Value::Null => {
            out.append("null");
            Ok(())
        },
        Value::Bool(b) => {
            if *b {
                out.append("true");
            } else {
                out.append("false");
            }
            Ok(())
        },
        Value::Int(i) => {
            push_i64_decimal(out, *i);
            Ok(())
        },
        Value::UInt(u) => {
            push_u64_decimal(out, *u);
            Ok(())
        },
        Value::Float(f) => {
            write_float(out, f);
            Ok(())
        },
        Value::Text(s) => {
            write_string_ml(out, s.as_str(), level);
            Ok(())
        },
        Value::Sequence(es) => write_ml_seq(out, es, level),
        Value::Mapping(ps) => write_ml_map(out, ps, level),
        Value::Variant(n, p) => match p {
            Payload::Unit => {
                write_string_ml(out, n.as_str(), level);
                Ok(())
            },
            Payload::Single(b) => {
                write_tag(out, n.as_str());
                let r = write_ml(out, &**b, level);
                proof {
                    if r is Ok {
                        assert(final(out)@ =~= old(out)@ + enc_ml(*v, level as nat));
                    }
                }
                r
            },
            Payload::Tuple(es) => {
                write_tag(out, n.as_str());
                let r = write_ml_seq(out, es, level);
                proof {
                    if r is Ok {
                        assert(final(out)@ =~= old(out)@ + enc_ml(*v, level as nat));
                    }
                }
                r
            },
            Payload::Record(fs) => {
                write_tag(out, n.as_str());
                let r = write_ml_rec(out, fs, level);
                proof {
                    if r is Ok {
                        assert(final(out)@ =~= old(out)@ + enc_ml(*v, level as nat));
                    }
                }
                r
            },
        },
    }
}

/// Appends a bracketed multi-line sequence.
#[verifier::loop_isolation(false)]
#[verifier::rlimit(100)]
fn write_ml_seq(out: &mut String, es: &Vec<Value>, level: usize) -> (r: Result<(), EncodeError>)
    ensures
        r is Ok <==> (level as nat) < MAX_DEPTH && (forall|i: int|
            0 <= i < es@.len() ==> can_encode(#[trigger] es@[i], level as nat + 1)),
        r is Ok ==> final(out)@ == old(out)@ + ml_seq_text(es@, level as nat),
    decreases es@, 0int,
{
    if level >= MAX_DEPTH {
        return Err(EncodeError::DepthLimit);
    }
    out.append("[");
    let ghost base = out@;
    for i in 0..es.len()
        invariant
            out@ == base + enc_ml_seq(es@.take(i as int), level as nat),
            forall|j: int| 0 <= j < i ==> can_encode(#[trigger] es@[j], level as nat + 1),
    {
        write_indent_ml(out, level, true);
        match write_ml(out, &es[i], level + 1) {
            Ok(()) => {},
            Err(e) => {
                return Err(e);
            },
        }
        out.append(",");
        proof {
            assert(es@.take(i + 1).drop_last() =~= es@.take(i as int));
            assert(es@.take(i + 1).last() == es@[i as int]);
            assert(out@ =~= base + enc_ml_seq(es@.take(i + 1), level as nat));
        }
    }
    if es.len() > 0 {
        write_indent_ml(out, level, false);
    }
    out.append("]");
    proof {
        assert(es@.take(es@.len() as int) =~= es@);
        assert(final(out)@ =~= old(out)@ + ml_seq_text(es@, level as nat));
    }
    Ok(())
}


/// Appends one multi-line map key: the single-line text when it fits the
/// budget, the `? ` block form otherwise.
#[verifier::loop_isolation(false)]
fn write_ml_map_key(out: &mut String, k: &Value, level: usize) -> (r: Result<(), EncodeError>)
    requires
        level < MAX_DEPTH,
    ensures
        r is Ok <==> can_encode(*k, level as nat + 1),
        r is Ok ==> final(out)@ == old(out)@ + key_ml(*k, level as nat),
    decreases *k, 2int,
{
    let mut key_text = String::new();
    match write_one(&mut key_text, k, level + 1) {
        Ok(()) => {},
        Err(e) => {
            return Err(e);
        },
    }
    proof {
        assert(key_text@ =~= enc_one(*k));
    }
    if key_text.as_str().unicode_len() <= SHORT_BUDGET_ML {
        out.append(key_text.as_str());
    } else {
        out.append("? ");
        match write_ml(out, k, level + 1) {
            Ok(()) => {},
            Err(e) => {
                return Err(e);
            },
        }
        write_indent_ml(out, level, true);
        proof {
            assert(final(out)@ =~= old(out)@ + key_ml(*k, level as nat));
        }
    }
    Ok(())
}

/// Appends one multi-line record key: the flow text of the field name
/// when it fits the budget, the `? ` block form otherwise.
fn write_ml_rec_key(out: &mut String, name: &str, level: usize)
    requires
        level < MAX_DEPTH,
    ensures
        final(out)@ == old(out)@ + rec_key_ml(name@, level as nat),
{
    let mut key_text = String::new();
    write_string_flow(&mut key_text, name);
    proof {
        assert(key_text@ =~= str_flow(name@));
    }
    if key_text.as_str().unicode_len() <= SHORT_BUDGET_ML {
        out.append(key_text.as_str());
    } else {
        out.append("? ");
        write_string_ml(out, name, level + 1);
        write_indent_ml(out, level, true);
        proof {
            assert(final(out)@ =~= old(out)@ + rec_key_ml(name@, level as nat));
        }
    }
}


/// Appends one full map entry: indentation, the key, `: `, the value,
/// and the trailing comma.
#[verifier::loop_isolation(false)]
fn write_ml_map_entry(out: &mut String, p: &(Value, Value), level: usize) -> (r: Result<
    (),
    EncodeError,
>)
    requires
        level < MAX_DEPTH,
    ensures
        r is Ok <==> can_encode(p.0, level as nat + 1) && can_encode(p.1, level as nat + 1),
        r is Ok ==> final(out)@ == old(out)@ + indent_text(level as nat, true) + key_ml(
            p.0,
            level as nat,
        ) + ": "@ + enc_ml(p.1, level as nat + 1) + ","@,
    decreases *p, 3int,
{
    write_indent_ml(out, level, true);
    match write_ml_map_key(out, &p.0, level) {
        Ok(()) => {},
        Err(e) => {
            return Err(e);
        },
    }
    out.append(": ");
    match write_ml(out, &p.1, level + 1) {
        Ok(()) => {},
        Err(e) => {
            return Err(e);
        },
    }
    out.append(",");
    proof {
        assert(final(out)@ =~= old(out)@ + indent_text(level as nat, true) + key_ml(
            p.0,
            level as nat,
        ) + ": "@ + enc_ml(p.1, level as nat + 1) + ","@);
    }
    Ok(())
}

/// Appends a braced multi-line map: each key is first rendered on a
/// single line apart; the text is spliced when it fits the line budget,
/// and the key falls back to multi-line `? ` block form otherwise.
#[verifier::loop_isolation(false)]
#[verifier::rlimit(100)]
fn write_ml_map(out: &mut String, ps: &Vec<(Value, Value)>, level: usize) -> (r: Result<
    (),
    EncodeError,
>)
    ensures
        r is Ok <==> (level as nat) < MAX_DEPTH && (forall|i: int|
            0 <= i < ps@.len() ==> can_encode(#[trigger] ps@[i].0, level as nat + 1) && can_encode(
                ps@[i].1,
                level as nat + 1,
            )),
        r is Ok ==> final(out)@ == old(out)@ + ml_map_text(ps@, level as nat),
    decreases ps@, 0int,
{
    if level >= MAX_DEPTH {
        return Err(EncodeError::DepthLimit);
    }
    out.append("{");
    let ghost base = out@;
    for i in 0..ps.len()
        invariant
            out@ == base + enc_ml_map(ps@.take(i as int), level as nat),
            forall|j: int|
                0 <= j < i ==> can_encode(#[trigger] ps@[j].0, level as nat + 1) && can_encode(
                    ps@[j].1,
                    level as nat + 1,
                ),
    {
        match write_ml_map_entry(out, &ps[i], level) {
            Ok(()) => {},
            Err(e) => {
                return Err(e);
            },
        }
        proof {
            let k = ps@[i as int].0;
            let entry_val = ps@[i as int].1;
            assert(can_encode(k, level as nat + 1));
            assert(can_encode(entry_val, level as nat + 1));
            lemma_can_encode_extend(ps@, i as int, level as nat);
            assert(ps@.take(i + 1).drop_last() =~= ps@.take(i as int));
            assert(ps@.take(i + 1).last() == ps@[i as int]);
            assert(enc_ml_map(ps@.take(i + 1), level as nat) =~= enc_ml_map(
                ps@.take(i as int),
                level as nat,
            ) + indent_text(level as nat, true) + key_ml(k, level as nat) + ": "@ + enc_ml(
                entry_val,
                level as nat + 1,
            ) + ","@);
            assert(out@ =~= base + enc_ml_map(ps@.take(i + 1), level as nat));
        }
    }
    if ps.len() > 0 {
        write_indent_ml(out, level, false);
    }
    out.append("}");
    proof {
        assert(ps@.take(ps@.len() as int) =~= ps@);
        assert(final(out)@ =~= old(out)@ + ml_map_text(ps@, level as nat));
    }
    Ok(())
}

/// Appends one full record entry: indentation, the field-name key,
/// `: `, the value, and the trailing comma.
#[verifier::loop_isolation(false)]
fn write_ml_rec_entry(out: &mut String, name: &str, val: &Value, level: usize) -> (r: Result<
    (),
    EncodeError,
>)
    requires
        level < MAX_DEPTH,
    ensures
        r is Ok <==> can_encode(*val, level as nat + 1),
        r is Ok ==> final(out)@ == old(out)@ + indent_text(level as nat, true) + rec_key_ml(
            name@,
            level as nat,
        ) + ": "@ + enc_ml(*val, level as nat + 1) + ","@,
    decreases *val, 2int,
{
    write_indent_ml(out, level, true);
    write_ml_rec_key(out, name, level);
    out.append(": ");
    match write_ml(out, val, level + 1) {
        Ok(()) => {},
        Err(e) => {
            return Err(e);
        },
    }
    out.append(",");
    proof {
        assert(final(out)@ =~= old(out)@ + indent_text(level as nat, true) + rec_key_ml(
            name@,
            level as nat,
        ) + ": "@ + enc_ml(*val, level as nat + 1) + ","@);
    }
    Ok(())
}

/// Appends a braced multi-line record, its field names laid out as keys.
#[verifier::loop_isolation(false)]
#[verifier::rlimit(100)]
#[verifier::spinoff_prover]
fn write_ml_rec(out: &mut String, fs: &Vec<(String, Value)>, level: usize) -> (r: Result<
    (),
    EncodeError,
>)
    ensures
        r is Ok <==> (level as nat) < MAX_DEPTH && (forall|i: int|
            0 <= i < fs@.len() ==> can_encode(#[trigger] fs@[i].1, level as nat + 1)),
        r is Ok ==> final(out)@ == old(out)@ + ml_rec_text(fs@, level as nat),
    decreases fs@, 0int,
{
    if level >= MAX_DEPTH {
        return Err(EncodeError::DepthLimit);
    }
    out.append("{");
    let ghost base = out@;
    for i in 0..fs.len()
        invariant
            out@ == base + enc_ml_rec(fs@.take(i as int), level as nat),
            forall|j: int| 0 <= j < i ==> can_encode(#[trigger] fs@[j].1, level as nat + 1),
    {
        match write_ml_rec_entry(out, fs[i].0.as_str(), &fs[i].1, level) {
            Ok(()) => {},
            Err(e) => {
                return Err(e);
            },
        }
        proof {
            let kname = fs@[i as int].0@;
            let entry_val = fs@[i as int].1;
            assert(can_encode(entry_val, level as nat + 1));
            assert(fs@.take(i + 1).drop_last() =~= fs@.take(i as int));
            assert(fs@.take(i + 1).last() == fs@[i as int]);
            assert(enc_ml_rec(fs@.take(i + 1), level as nat) =~= enc_ml_rec(
                fs@.take(i as int),
                level as nat,
            ) + indent_text(level as nat, true) + rec_key_ml(kname, level as nat) + ": "@ + enc_ml(
                entry_val,
                level as nat + 1,
            ) + ","@);
            assert(out@ =~= base + enc_ml_rec(fs@.take(i + 1), level as nat));
        }
    }
    if fs.len() > 0 {
        write_indent_ml(out, level, false);
    }
    out.append("}");
    proof {
        assert(fs@.take(fs@.len() as int) =~= fs@);
        assert(final(out)@ =~= old(out)@ + ml_rec_text(fs@, level as nat));
    }
    Ok(())
}

// ---------------------------------------------------------------------------
// the serializer
// ---------------------------------------------------------------------------

/// Encodes a value as a complete multi-line document.
pub fn to_string(v: &Value) -> (r: Result<String, EncodeError>)
    ensures
        r is Ok <==> can_encode(*v, 0),
        r matches Ok(s) ==> s@ == enc_ml(*v, 0),
{
    let mut out = String::new();
    match write_ml(&mut out, v, 0) {
        Ok(()) => {
            proof {
                assert(out@ =~= enc_ml(*v, 0));
            }
            Ok(out)
        },
        Err(e) => Err(e),
    }
}

/// The encoding engine: appends the text of values to an owned output
/// buffer, in multi-line or single-line mode.
pub struct CurlySerializer {
    multiline: bool,
    level: usize,
    glut: String,
}

impl CurlySerializer {
    /// The text collected so far.
    pub closed spec fn output(&self) -> Seq<char> {
        self.glut@
    }

    /// Whether the serializer lays values out over several lines.
    pub closed spec fn spec_multiline(&self) -> bool {
        self.multiline
    }

    /// The current nesting level (zero at the top of a document).
    pub closed spec fn spec_level(&self) -> nat {
        self.level as nat
    }

    /// A fresh serializer: multi-line, top level, empty output.
    pub fn new() -> (s: CurlySerializer)
        ensures
            s.spec_multiline(),
            s.spec_level() == 0,
            s.output() == Seq::<char>::empty(),
    {
        CurlySerializer { multiline: true, level: 0, glut: String::new() }
    }

    /// Switches to multi-line layout.
    pub fn multiline(self) -> (s: CurlySerializer)
        ensures
            s.spec_multiline(),
            s.spec_level() == self.spec_level(),
            s.output() == self.output(),
    {
        CurlySerializer { multiline: true, ..self }
    }

    /// Switches to single-line layout.
    pub fn oneline(self) -> (s: CurlySerializer)
        ensures
            !s.spec_multiline(),
            s.spec_level() == self.spec_level(),
            s.output() == self.output(),
    {
        CurlySerializer { multiline: false, ..self }
    }

    /// The collected text.
    pub fn into_string(self) -> (r: String)
        ensures
            r@ == self.output(),
    {
        self.glut
    }

    /// Encodes a whole value in the serializer's mode.
    pub fn serialize_value(&mut self, v: &Value) -> (r: Result<(), EncodeError>)
        ensures
            final(self).spec_multiline() == old(self).spec_multiline(),
            final(self).spec_level() == old(self).spec_level(),
            r is Ok <==> can_encode(*v, old(self).spec_level()),
            r is Ok ==> final(self).output() == old(self).output() + mode_text(*v, old(self).spec_multiline(), old(self).spec_level()),
    {
        if self.multiline {
            write_ml(&mut self.glut, v, self.level)
        } else {
            write_one(&mut self.glut, v, self.level)
        }
    }

    /// Speculative short-form rendering: the value's single-line text when
    /// it fits the budget. It never hands back more than `max_len`
    /// characters, and what it hands back is exactly the full single-line
    /// encoding of the value.
    pub fn serialize_short(&self, v: &Value, max_len: usize) -> (r: Result<
        Option<String>,
        EncodeError,
    >)
        ensures
            r is Ok <==> can_encode(*v, self.spec_level()),
            r matches Ok(o) ==> ((o is Some) <==> enc_one(*v).len() <= max_len as nat),
            r matches Ok(Some(s)) ==> s@ == enc_one(*v) && s@.len() <= max_len as nat,
    {
        let mut short = String::new();
        match write_one(&mut short, v, self.level) {
            Ok(()) => {},
            Err(e) => {
                return Err(e);
            },
        }
        proof {
            assert(short@ =~= enc_one(*v));
        }
        if short.as_str().unicode_len() <= max_len {
            Ok(Some(short))
        } else {
            Ok(None)
        }
    }

    /// Encodes a boolean.
    pub fn serialize_bool(&mut self, v: bool)
        ensures
            final(self).spec_multiline() == old(self).spec_multiline(),
            final(self).spec_level() == old(self).spec_level(),
            final(self).output() == old(self).output() + mode_text(Value::Bool(v), old(self).spec_multiline(), old(self).spec_level()),
    {
        if v {
            self.glut.append("true");
        } else {
            self.glut.append("false");
        }
    }

    /// Encodes a signed integer.
    pub fn serialize_i64(&mut self, v: i64)
        ensures
            final(self).spec_multiline() == old(self).spec_multiline(),
            final(self).spec_level() == old(self).spec_level(),
            final(self).output() == old(self).output() + mode_text(Value::Int(v), old(self).spec_multiline(), old(self).spec_level()),
    {
        push_i64_decimal(&mut self.glut, v);
    }

    /// Encodes an unsigned integer.
    pub fn serialize_u64(&mut self, v: u64)
        ensures
            final(self).spec_multiline() == old(self).spec_multiline(),
            final(self).spec_level() == old(self).spec_level(),
            final(self).output() == old(self).output() + mode_text(Value::UInt(v), old(self).spec_multiline(), old(self).spec_level()),
    {
        push_u64_decimal(&mut self.glut, v);
    }

    /// Encodes an 8-bit signed integer.
    pub fn serialize_i8(&mut self, v: i8)
        ensures
            final(self).spec_multiline() == old(self).spec_multiline(),
            final(self).spec_level() == old(self).spec_level(),
            final(self).output() == old(self).output() + int_text(v as int),
    {
        push_i64_decimal(&mut self.glut, v as i64);
    }

    /// Encodes a 16-bit signed integer.
    pub fn serialize_i16(&mut self, v: i16)
        ensures
            final(self).spec_multiline() == old(self).spec_multiline(),
            final(self).spec_level() == old(self).spec_level(),
            final(self).output() == old(self).output() + int_text(v as int),
    {
        push_i64_decimal(&mut self.glut, v as i64);
    }

    /// Encodes a 32-bit signed integer.
    pub fn serialize_i32(&mut self, v: i32)
        ensures
            final(self).spec_multiline() == old(self).spec_multiline(),
            final(self).spec_level() == old(self).spec_level(),
            final(self).output() == old(self).output() + int_text(v as int),
    {
        push_i64_decimal(&mut self.glut, v as i64);
    }

    /// Encodes an 8-bit unsigned integer.
    pub fn serialize_u8(&mut self, v: u8)
        ensures
            final(self).spec_multiline() == old(self).spec_multiline(),
            final(self).spec_level() == old(self).spec_level(),
            final(self).output() == old(self).output() + dec_u64_text(v as nat),
    {
        push_u64_decimal(&mut self.glut, v as u64);
    }

    /// Encodes a 16-bit unsigned integer.
    pub fn serialize_u16(&mut self, v: u16)
        ensures
            final(self).spec_multiline() == old(self).spec_multiline(),
            final(self).spec_level() == old(self).spec_level(),
            final(self).output() == old(self).output() + dec_u64_text(v as nat),
    {
        push_u64_decimal(&mut self.glut, v as u64);
    }

    /// Encodes a 32-bit unsigned integer.
    pub fn serialize_u32(&mut self, v: u32)
        ensures
            final(self).spec_multiline() == old(self).spec_multiline(),
            final(self).spec_level() == old(self).spec_level(),
            final(self).output() == old(self).output() + dec_u64_text(v as nat),
    {
        push_u64_decimal(&mut self.glut, v as u64);
    }

    /// Encodes a double given as bits plus finite text.
    pub fn serialize_float(&mut self, v: &crate::float::FloatRepr)
        ensures
            final(self).spec_multiline() == old(self).spec_multiline(),
            final(self).spec_level() == old(self).spec_level(),
            final(self).output() == old(self).output() + float_text(*v),
    {
        write_float(&mut self.glut, v);
    }

    /// Encodes a string scalar.
    pub fn serialize_str(&mut self, v: &str)
        ensures
            final(self).spec_multiline() == old(self).spec_multiline(),
            final(self).spec_level() == old(self).spec_level(),
            final(self).output() == old(self).output() + if old(self).spec_multiline() {
                str_ml(v@, old(self).spec_level())
            } else {
                str_flow(v@)
            },
    {
        if self.multiline {
            write_string_ml(&mut self.glut, v, self.level);
        } else {
            write_string_flow(&mut self.glut, v);
        }
    }

    /// Encodes a character, as the one-character string.
    pub fn serialize_char(&mut self, v: char)
        ensures
            final(self).spec_multiline() == old(self).spec_multiline(),
            final(self).spec_level() == old(self).spec_level(),
            final(self).output() == old(self).output() + if old(self).spec_multiline() {
                str_ml(seq![v], old(self).spec_level())
            } else {
                str_flow(seq![v])
            },
    {
        let mut t = String::new();
        crate::text::push_char(&mut t, v);
        proof {
            assert(t@ =~= seq![v]);
        }
        self.serialize_str(t.as_str());
    }

    /// Encodes a missing value as `null`.
    pub fn serialize_none(&mut self)
        ensures
            final(self).spec_multiline() == old(self).spec_multiline(),
            final(self).spec_level() == old(self).spec_level(),
            final(self).output() == old(self).output() + mode_text(Value::Null, old(self).spec_multiline(), old(self).spec_level()),
    {
        self.glut.append("null");
    }

    /// Encodes the unit value as `null`.
    pub fn serialize_unit(&mut self)
        ensures
            final(self).spec_multiline() == old(self).spec_multiline(),
            final(self).spec_level() == old(self).spec_level(),
            final(self).output() == old(self).output() + mode_text(Value::Null, old(self).spec_multiline(), old(self).spec_level()),
    {
        self.serialize_none();
    }

    /// Encodes a unit variant as its bare tag name, a string scalar.
    pub fn serialize_unit_variant(&mut self, variant: &str)
        ensures
            final(self).spec_multiline() == old(self).spec_multiline(),
            final(self).spec_level() == old(self).spec_level(),
            final(self).output() == old(self).output() + if old(self).spec_multiline() {
                str_ml(variant@, old(self).spec_level())
            } else {
                str_flow(variant@)
            },
    {
        self.serialize_str(variant);
    }

    /// Emits the tag of a variant: `!`, the percent-encoded name, a space.
    pub fn serialize_variant_name(&mut self, variant: &str)
        ensures
            final(self).spec_multiline() == old(self).spec_multiline(),
            final(self).spec_level() == old(self).spec_level(),
            final(self).output() == old(self).output() + tag_text(variant@),
    {
        write_tag(&mut self.glut, variant);
    }

    /// Encodes a newtype variant: the tag, then the payload.
    pub fn serialize_newtype_variant(&mut self, variant: &str, v: &Value) -> (r: Result<
        (),
        EncodeError,
    >)
        ensures
            final(self).spec_multiline() == old(self).spec_multiline(),
            final(self).spec_level() == old(self).spec_level(),
            r is Ok <==> can_encode(*v, old(self).spec_level()),
            r is Ok ==> final(self).output() == old(self).output() + tag_text(variant@)
                + mode_text(*v, old(self).spec_multiline(), old(self).spec_level()),
    {
        self.serialize_variant_name(variant);
        self.serialize_value(v)
    }

    /// Encodes a byte slice as a sequence of integers.
    #[verifier::loop_isolation(false)]
    pub fn serialize_bytes(&mut self, v: &[u8]) -> (r: Result<(), EncodeError>)
        ensures
            final(self).spec_multiline() == old(self).spec_multiline(),
            final(self).spec_level() == old(self).spec_level(),
            r is Ok <==> old(self).spec_level() < MAX_DEPTH,
            r is Ok ==> final(self).output() == old(self).output() + (if old(self).spec_multiline() {
                ml_seq_text(
                    Seq::new(v@.len(), |i: int| Value::UInt(v@[i] as u64)),
                    old(self).spec_level(),
                )
            } else {
                one_seq_text(Seq::new(v@.len(), |i: int| Value::UInt(v@[i] as u64)))
            }),
    {
        let ghost target = Seq::new(v@.len(), |i: int| Value::UInt(v@[i] as u64));
        proof {
            assert(target.len() == v@.len());
        }
        let mut es: Vec<Value> = Vec::new();
        for i in 0..v.len()
            invariant
                es@ =~= target.take(i as int),
        {
            es.push(Value::UInt(v[i] as u64));
            proof {
                assert(target[i as int] == Value::UInt(v@[i as int] as u64));
                assert(es@ =~= target.take(i + 1));
            }
        }
        proof {
            assert(es@ =~= target);
            assert(forall|i: int|
                0 <= i < target.len() ==> can_encode(#[trigger] target[i], old(self).spec_level()
                    + 1));
        }
        self.serialize_value(&Value::Sequence(es))
    }

    /// Emits a line break and indentation in multi-line mode, a single
    /// space in single-line mode.
    pub fn indent(&mut self, extra: bool)
        ensures
            final(self).spec_multiline() == old(self).spec_multiline(),
            final(self).spec_level() == old(self).spec_level(),
            final(self).output() == old(self).output() + if old(self).spec_multiline() {
                indent_text(old(self).spec_level(), extra)
            } else {
                " "@
            },
    {
        if self.multiline {
            write_indent_ml(&mut self.glut, self.level, extra);
        } else {
            self.glut.append(" ");
        }
    }

    /// Opens a bracketed construct.
    fn start(&mut self, start: &str)
        ensures
            final(self).spec_multiline() == old(self).spec_multiline(),
            final(self).spec_level() == old(self).spec_level(),
            final(self).output() == old(self).output() + start@,
    {
        self.glut.append(start);
    }

    /// Closes a bracketed construct: directly after an empty one, on a
    /// fresh line (or after a space, in single-line mode) otherwise.
    fn end(&mut self, arg: &str, empty: bool)
        ensures
            final(self).spec_multiline() == old(self).spec_multiline(),
            final(self).spec_level() == old(self).spec_level(),
            final(self).output() == old(self).output() + close_text(
                empty,
                old(self).spec_multiline(),
                old(self).spec_level(),
                arg@,
            ),
    {
        if !empty {
            self.indent(false);
        }
        self.glut.append(arg);
        proof {
            assert(final(self).output() =~= old(self).output() + close_text(
                empty,
                old(self).spec_multiline(),
                old(self).spec_level(),
                arg@,
            ));
        }
    }

    /// Starts a sequence; elements are pushed through the returned state.
    pub fn serialize_seq(self) -> (s: CurlySeq)
        ensures
            s.spec_multiline() == self.spec_multiline(),
            s.spec_level() == self.spec_level(),
            s.spec_first(),
            s.output() == self.output() + "["@,
    {
        let mut ser = self;
        ser.start("[");
        CurlySeq { first: true, ser }
    }

    /// Starts a map; keys and values are pushed through the returned
    /// state.
    pub fn serialize_map(self) -> (m: CurlyMap)
        ensures
            m.spec_multiline() == self.spec_multiline(),
            m.spec_level() == self.spec_level(),
            m.spec_first(),
            m.spec_next() == MapNext::Key,
            m.output() == self.output() + "{"@,
    {
        let mut ser = self;
        ser.start("{");
        CurlyMap { first: true, next: MapNext::Key, ser }
    }
}

/// The text that encoding a value appends in the given mode at the given
/// level.
pub open spec fn mode_text(v: Value, multiline: bool, level: nat) -> Seq<char> {
    if multiline {
        enc_ml(v, level)
    } else {
        enc_one(v)
    }
}

/// What closes a bracketed construct.
pub open spec fn close_text(empty: bool, multiline: bool, level: nat, arg: Seq<char>) -> Seq<
    char,
> {
    if empty {
        arg
    } else {
        (if multiline {
            indent_text(level, false)
        } else {
            " "@
        }) + arg
    }
}

/// What one sequence element adds to the output.
pub open spec fn seq_elem_text(v: Value, multiline: bool, level: nat, first: bool) -> Seq<char> {
    if multiline {
        indent_text(level, true) + enc_ml(v, level + 1) + ","@
    } else {
        (if first {
            Seq::<char>::empty()
        } else {
            ","@
        }) + " "@ + enc_one(v)
    }
}

/// What one map key adds to the output.
pub open spec fn map_key_text(k: Value, multiline: bool, level: nat, first: bool) -> Seq<char> {
    if multiline {
        indent_text(level, true) + key_ml(k, level)
    } else {
        (if first {
            Seq::<char>::empty()
        } else {
            ","@
        }) + " "@ + key_one(k)
    }
}

/// What one map value adds to the output.
pub open spec fn map_val_text(v: Value, multiline: bool, level: nat) -> Seq<char> {
    ": "@ + (if multiline {
        enc_ml(v, level + 1) + ","@
    } else {
        enc_one(v)
    })
}

/// An open sequence under construction.
pub struct CurlySeq {
    first: bool,
    ser: CurlySerializer,
}

impl CurlySeq {
    /// The text collected so far.
    pub closed spec fn output(&self) -> Seq<char> {
        self.ser.output()
    }

    /// Whether no element has been pushed yet.
    pub closed spec fn spec_first(&self) -> bool {
        self.first
    }

    /// The sequence's nesting level.
    pub closed spec fn spec_level(&self) -> nat {
        self.ser.spec_level()
    }

    /// The mode the sequence is rendered in.
    pub closed spec fn spec_multiline(&self) -> bool {
        self.ser.multiline
    }

    /// Appends one element.
    pub fn serialize_element(&mut self, v: &Value) -> (r: Result<(), EncodeError>)
        requires
            old(self).spec_level() < MAX_DEPTH,
        ensures
            final(self).spec_multiline() == old(self).spec_multiline(),
            final(self).spec_level() == old(self).spec_level(),
            !final(self).spec_first(),
            r is Ok <==> can_encode(*v, old(self).spec_level() + 1),
            r is Ok ==> final(self).output() == old(self).output() + seq_elem_text(
                *v,
                old(self).spec_multiline(),
                old(self).spec_level(),
                old(self).spec_first(),
            ),
    {
        if self.ser.multiline || self.first {
            self.first = false;
        } else {
            self.ser.glut.append(",");
        }
        self.ser.indent(true);
        let r = if self.ser.multiline {
            write_ml(&mut self.ser.glut, v, self.ser.level + 1)
        } else {
            write_one(&mut self.ser.glut, v, self.ser.level + 1)
        };
        match r {
            Ok(()) => {},
            Err(e) => {
                return Err(e);
            },
        }
        if self.ser.multiline {
            self.ser.glut.append(",");
        }
        proof {
            assert(final(self).output() =~= old(self).output() + seq_elem_text(
                *v,
                old(self).spec_multiline(),
                old(self).spec_level(),
                old(self).spec_first(),
            ));
        }
        Ok(())
    }

    /// Closes the sequence and hands the serializer back.
    pub fn end(self) -> (ser: CurlySerializer)
        ensures
            ser.spec_multiline() == self.spec_multiline(),
            ser.spec_level() == self.spec_level(),
            ser.output() == self.output() + close_text(
                self.spec_first(),
                self.spec_multiline(),
                self.spec_level(),
                "]"@,
            ),
    {
        let CurlySeq { first, ser } = self;
        let mut ser = ser;
        ser.end("]", first);
        ser
    }
}

/// Which half of a map entry is expected next.
#[derive(Debug, PartialEq, Eq, Structural, Clone, Copy)]
pub enum MapNext {
    Key,
    Value,
}

/// An open map under construction. Keys and values alternate; a call out
/// of turn fills the missing half of the entry with `null`, as a lenient
/// writer should.
pub struct CurlyMap {
    next: MapNext,
    first: bool,
    ser: CurlySerializer,
}

impl CurlyMap {
    /// The text collected so far.
    pub closed spec fn output(&self) -> Seq<char> {
        self.ser.output()
    }

    /// Whether no key has been pushed yet.
    pub closed spec fn spec_first(&self) -> bool {
        self.first
    }

    /// Which half of an entry is expected next.
    pub closed spec fn spec_next(&self) -> MapNext {
        self.next
    }

    /// The map's nesting level.
    pub closed spec fn spec_level(&self) -> nat {
        self.ser.spec_level()
    }

    /// The mode the map is rendered in.
    pub closed spec fn spec_multiline(&self) -> bool {
        self.ser.multiline
    }

    /// Appends one key, with its separator and layout.
    fn put_key(&mut self, k: &Value) -> (r: Result<(), EncodeError>)
        requires
            old(self).spec_level() < MAX_DEPTH,
        ensures
            final(self).spec_multiline() == old(self).spec_multiline(),
            final(self).spec_level() == old(self).spec_level(),
            final(self).spec_next() == old(self).spec_next(),
            !final(self).spec_first(),
            r is Ok <==> can_encode(*k, old(self).spec_level() + 1),
            r is Ok ==> final(self).output() == old(self).output() + map_key_text(
                *k,
                old(self).spec_multiline(),
                old(self).spec_level(),
                old(self).spec_first(),
            ),
    {
        if self.ser.multiline || self.first {
            self.first = false;
        } else {
            self.ser.glut.append(",");
        }
        self.ser.indent(true);
        let r = if self.ser.multiline {
            write_ml_map_key(&mut self.ser.glut, k, self.ser.level)
        } else {
            write_one_key(&mut self.ser.glut, k, self.ser.level)
        };
        match r {
            Ok(()) => {},
            Err(e) => {
                return Err(e);
            },
        }
        proof {
            assert(final(self).output() =~= old(self).output() + map_key_text(
                *k,
                old(self).spec_multiline(),
                old(self).spec_level(),
                old(self).spec_first(),
            ));
        }
        Ok(())
    }

    /// Appends one value, with its separator and layout.
    fn put_value(&mut self, v: &Value) -> (r: Result<(), EncodeError>)
        requires
            old(self).spec_level() < MAX_DEPTH,
        ensures
            final(self).spec_multiline() == old(self).spec_multiline(),
            final(self).spec_level() == old(self).spec_level(),
            final(self).spec_next() == old(self).spec_next(),
            final(self).spec_first() == old(self).spec_first(),
            r is Ok <==> can_encode(*v, old(self).spec_level() + 1),
            r is Ok ==> final(self).output() == old(self).output() + map_val_text(
                *v,
                old(self).spec_multiline(),
                old(self).spec_level(),
            ),
    {
        self.ser.glut.append(": ");
        let r = if self.ser.multiline {
            write_ml(&mut self.ser.glut, v, self.ser.level + 1)
        } else {
            write_one(&mut self.ser.glut, v, self.ser.level + 1)
        };
        match r {
            Ok(()) => {},
            Err(e) => {
                return Err(e);
            },
        }
        if self.ser.multiline {
            self.ser.glut.append(",");
        }
        proof {
            assert(final(self).output() =~= old(self).output() + map_val_text(
                *v,
                old(self).spec_multiline(),
                old(self).spec_level(),
            ));
        }
        Ok(())
    }

    /// Keeps keys and values alternating: when the caller is out of turn,
    /// the missing half of the entry is filled with `null`.
    pub fn next(&mut self, which: MapNext) -> (r: Result<(), EncodeError>)
        requires
            old(self).spec_level() < MAX_DEPTH,
        ensures
            final(self).spec_multiline() == old(self).spec_multiline(),
            final(self).spec_level() == old(self).spec_level(),
            final(self).spec_next() == (if which == MapNext::Key {
                MapNext::Value
            } else {
                MapNext::Key
            }),
            r is Ok,
            final(self).output() == old(self).output() + auto_fill_text(
                old(self).spec_next(),
                which,
                old(self).spec_multiline(),
                old(self).spec_level(),
                old(self).spec_first(),
            ),
            final(self).spec_first() == (old(self).spec_first() && !(old(self).spec_next()
                == MapNext::Key && which == MapNext::Value)),
    {
        match (self.next, which) {
            (MapNext::Key, MapNext::Value) => {
                match self.put_key(&Value::Null) {
                    Ok(()) => {},
                    Err(e) => {
                        return Err(e);
                    },
                }
            },
            (MapNext::Value, MapNext::Key) => {
                match self.put_value(&Value::Null) {
                    Ok(()) => {},
                    Err(e) => {
                        return Err(e);
                    },
                }
            },
            _ => {},
        }
        match which {
            MapNext::Key => {
                self.next = MapNext::Value;
            },
            MapNext::Value => {
                self.next = MapNext::Key;
            },
        }
        Ok(())
    }

    /// Appends one key; a missing value of the entry before is filled
    /// with `null` first.
    pub fn serialize_key(&mut self, k: &Value) -> (r: Result<(), EncodeError>)
        requires
            old(self).spec_level() < MAX_DEPTH,
        ensures
            final(self).spec_multiline() == old(self).spec_multiline(),
            final(self).spec_level() == old(self).spec_level(),
            final(self).spec_next() == MapNext::Value,
            !final(self).spec_first(),
            r is Ok <==> can_encode(*k, old(self).spec_level() + 1),
            r is Ok ==> final(self).output() == old(self).output() + auto_fill_text(
                old(self).spec_next(),
                MapNext::Key,
                old(self).spec_multiline(),
                old(self).spec_level(),
                old(self).spec_first(),
            ) + map_key_text(
                *k,
                old(self).spec_multiline(),
                old(self).spec_level(),
                old(self).spec_first(),
            ),
    {
        match self.next(MapNext::Key) {
            Ok(()) => {},
            Err(e) => {
                return Err(e);
            },
        }
        let r = self.put_key(k);
        proof {
            if r is Ok {
                assert(final(self).output() =~= old(self).output() + auto_fill_text(
                    old(self).spec_next(),
                    MapNext::Key,
                    old(self).spec_multiline(),
                    old(self).spec_level(),
                    old(self).spec_first(),
                ) + map_key_text(
                    *k,
                    old(self).spec_multiline(),
                    old(self).spec_level(),
                    old(self).spec_first(),
                ));
            }
        }
        r
    }

    /// Appends one value; a missing key of this entry is filled with
    /// `null` first.
    pub fn serialize_value(&mut self, v: &Value) -> (r: Result<(), EncodeError>)
        requires
            old(self).spec_level() < MAX_DEPTH,
        ensures
            final(self).spec_multiline() == old(self).spec_multiline(),
            final(self).spec_level() == old(self).spec_level(),
            final(self).spec_next() == MapNext::Key,
            r is Ok <==> can_encode(*v, old(self).spec_level() + 1),
            r is Ok ==> final(self).output() == old(self).output() + auto_fill_text(
                old(self).spec_next(),
                MapNext::Value,
                old(self).spec_multiline(),
                old(self).spec_level(),
                old(self).spec_first(),
            ) + map_val_text(*v, old(self).spec_multiline(), old(self).spec_level()),
    {
        match self.next(MapNext::Value) {
            Ok(()) => {},
            Err(e) => {
                return Err(e);
            },
        }
        let r = self.put_value(v);
        proof {
            if r is Ok {
                assert(final(self).output() =~= old(self).output() + auto_fill_text(
                    old(self).spec_next(),
                    MapNext::Value,
                    old(self).spec_multiline(),
                    old(self).spec_level(),
                    old(self).spec_first(),
                ) + map_val_text(*v, old(self).spec_multiline(), old(self).spec_level()));
            }
        }
        r
    }

    /// Closes the map and hands the serializer back.
    pub fn end(self) -> (ser: CurlySerializer)
        ensures
            ser.spec_multiline() == self.spec_multiline(),
            ser.spec_level() == self.spec_level(),
            ser.output() == self.output() + close_text(
                self.spec_first(),
                self.spec_multiline(),
                self.spec_level(),
                "}"@,
            ),
    {
        let CurlyMap { next: _, first, ser } = self;
        let mut ser = ser;
        ser.end("}", first);
        ser
    }
}

// ---------------------------------------------------------------------------
// the two modes agree on scalar leaves
// ---------------------------------------------------------------------------

/// A leaf scalar: a value with no layout of its own.
pub open spec fn is_scalar_leaf(v: Value) -> bool {
    v is Null || v is Bool || v is Int || v is UInt || v is Float
}

/// Law: mode changes layout only. A scalar leaf has the same text in
/// multi-line and single-line mode, at every nesting level.
pub proof fn lemma_scalar_mode_agreement(v: Value, level: nat)
    requires
        is_scalar_leaf(v),
    ensures
        enc_ml(v, level) == enc_one(v),
{
}

// ---------------------------------------------------------------------------
// the single-line form never spans lines
// ---------------------------------------------------------------------------

/// A value whose single-line text the library fully determines: no tagged
/// variant with a payload (its percent-encoded tag is an outside call's
/// result) and no finite float (its decimal text is supplied by the
/// caller).
pub open spec fn single_line_value(v: Value) -> bool
    decreases v,
{
    match v {
        Value::Float(f) => !f64_is_finite_bits(f.bits),
        Value::Sequence(es) => forall|i: int|
            0 <= i < es@.len() ==> single_line_value(#[trigger] es@[i]),
        Value::Mapping(ps) => forall|i: int|
            0 <= i < ps@.len() ==> single_line_value((#[trigger] ps@[i]).0) && single_line_value(
                ps@[i].1,
            ),
        Value::Variant(_, p) => p is Unit,
        _ => true,
    }
}

/// Law: the single-line form never spans lines. No character of the
/// single-line text of such a value is a line break, so what the
/// speculative renderer splices stays on the line it is spliced into.
pub proof fn lemma_flow_text_single_line(v: Value)
    requires
        single_line_value(v),
    ensures
        no_newline(enc_one(v)),
    decreases v, 2int,
{
    match v {
        Value::Null => {
            reveal_strlit("null");
            assert(no_newline("null"@));
        },
        Value::Bool(b) => {
            reveal_strlit("true");
            reveal_strlit("false");
            assert(no_newline("true"@));
            assert(no_newline("false"@));
        },
        Value::Int(i) => {
            crate::text::lemma_int_text_no_newline(i as int);
        },
        Value::UInt(u) => {
            crate::text::lemma_dec_u64_no_newline(u as nat);
        },
        Value::Float(f) => {
            crate::float::lemma_float_sentinel_no_newline(f);
        },
        Value::Text(s) => {
            crate::text::lemma_str_flow_no_newline(s@);
        },
        Value::Sequence(es) => {
            lemma_one_seq_text_no_newline(es@);
        },
        Value::Mapping(ps) => {
            lemma_one_map_text_no_newline(ps@);
        },
        Value::Variant(n, _) => {
            crate::text::lemma_str_flow_no_newline(n@);
        },
    }
}

proof fn lemma_enc_one_seq_no_newline(es: Seq<Value>)
    requires
        forall|i: int| 0 <= i < es.len() ==> single_line_value(#[trigger] es[i]),
    ensures
        no_newline(enc_one_seq(es)),
    decreases es, 0int,
{
    reveal_strlit(",");
    reveal_strlit(" ");
    if es.len() > 0 {
        let front = es.drop_last();
        assert(forall|i: int|
            0 <= i < front.len() ==> single_line_value(#[trigger] front[i]) && front[i] == es[i]);
        lemma_enc_one_seq_no_newline(front);
        lemma_flow_text_single_line(es.last());
        let sep: Seq<char> = if es.len() > 1 {
            ","@
        } else {
            Seq::<char>::empty()
        };
        assert(no_newline(sep));
        lemma_no_newline_concat(enc_one_seq(front), sep);
        lemma_no_newline_concat(enc_one_seq(front) + sep, " "@);
        lemma_no_newline_concat(enc_one_seq(front) + sep + " "@, enc_one(es.last()));
    }
}

proof fn lemma_one_seq_text_no_newline(es: Seq<Value>)
    requires
        forall|i: int| 0 <= i < es.len() ==> single_line_value(#[trigger] es[i]),
    ensures
        no_newline(one_seq_text(es)),
    decreases es, 1int,
{
    reveal_strlit("[");
    reveal_strlit("]");
    reveal_strlit(" ");
    lemma_enc_one_seq_no_newline(es);
    let mid: Seq<char> = if es.len() > 0 {
        " "@
    } else {
        Seq::<char>::empty()
    };
    assert(no_newline("["@));
    assert(no_newline("]"@));
    assert(no_newline(mid));
    lemma_no_newline_concat("["@, enc_one_seq(es));
    lemma_no_newline_concat("["@ + enc_one_seq(es), mid);
    lemma_no_newline_concat("["@ + enc_one_seq(es) + mid, "]"@);
}

proof fn lemma_key_one_no_newline(k: Value)
    requires
        single_line_value(k),
    ensures
        no_newline(key_one(k)),
    decreases k, 3int,
{
    reveal_strlit("? ");
    lemma_flow_text_single_line(k);
    assert(no_newline("? "@));
    lemma_no_newline_concat("? "@, enc_one(k));
}

proof fn lemma_enc_one_map_no_newline(ps: Seq<(Value, Value)>)
    requires
        forall|i: int|
            0 <= i < ps.len() ==> single_line_value((#[trigger] ps[i]).0) && single_line_value(
                ps[i].1,
            ),
    ensures
        no_newline(enc_one_map(ps)),
    decreases ps, 0int,
{
    reveal_strlit(",");
    reveal_strlit(" ");
    reveal_strlit(": ");
    if ps.len() > 0 {
        let front = ps.drop_last();
        assert(forall|i: int|
            0 <= i < front.len() ==> #[trigger] front[i] == ps[i] && single_line_value(front[i].0)
                && single_line_value(front[i].1));
        lemma_enc_one_map_no_newline(front);
        lemma_key_one_no_newline(ps.last().0);
        lemma_flow_text_single_line(ps.last().1);
        let sep: Seq<char> = if ps.len() > 1 {
            ","@
        } else {
            Seq::<char>::empty()
        };
        assert(no_newline(sep));
        assert(no_newline(": "@));
        lemma_no_newline_concat(enc_one_map(front), sep);
        lemma_no_newline_concat(enc_one_map(front) + sep, " "@);
        lemma_no_newline_concat(enc_one_map(front) + sep + " "@, key_one(ps.last().0));
        lemma_no_newline_concat(
            enc_one_map(front) + sep + " "@ + key_one(ps.last().0),
            ": "@,
        );
        lemma_no_newline_concat(
            enc_one_map(front) + sep + " "@ + key_one(ps.last().0) + ": "@,
            enc_one(ps.last().1),
        );
    }
}

proof fn lemma_one_map_text_no_newline(ps: Seq<(Value, Value)>)
    requires
        forall|i: int|
            0 <= i < ps.len() ==> single_line_value((#[trigger] ps[i]).0) && single_line_value(
                ps[i].1,
            ),
    ensures
        no_newline(one_map_text(ps)),
    decreases ps, 1int,
{
    reveal_strlit("{");
    reveal_strlit("}");
    reveal_strlit(" ");
    lemma_enc_one_map_no_newline(ps);
    let mid: Seq<char> = if ps.len() > 0 {
        " "@
    } else {
        Seq::<char>::empty()
    };
    assert(no_newline("{"@));
    assert(no_newline("}"@));
    assert(no_newline(mid));
    lemma_no_newline_concat("{"@, enc_one_map(ps));
    lemma_no_newline_concat("{"@ + enc_one_map(ps), mid);
    lemma_no_newline_concat("{"@ + enc_one_map(ps) + mid, "}"@);
}

/// What an out-of-turn call adds before its own chunk: the missing half
/// of the entry before, as `null`.
pub open spec fn auto_fill_text(
    state: MapNext,
    which: MapNext,
    multiline: bool,
    level: nat,
    first: bool,
) -> Seq<char> {
    if state == MapNext::Key && which == MapNext::Value {
        map_key_text(Value::Null, multiline, level, first)
    } else if state == MapNext::Value && which == MapNext::Key {
        map_val_text(Value::Null, multiline, level)
    } else {
        Seq::<char>::empty()
    }
}

} // verus!
