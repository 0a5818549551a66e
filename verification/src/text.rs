//! Scalar and string formatting: character classes of the dialect,
//! decimal and hex digits, character escaping, and the single-line
//! ("flow") rendering of strings.

use vstd::prelude::*;
use vstd::string::StrSliceExecFns;
use vstd::string::StringExecFns;

verus! {

// ---------------------------------------------------------------------------
// trusted items around std
// ---------------------------------------------------------------------------

/// Relies on String::push: appends exactly the given character.
#[verifier::external_body]
pub fn push_char(out: &mut String, c: char)
    ensures
        final(out)@ == old(out)@ + seq![c],
{
    out.push(c);
}

/// Whether a character is alphanumeric in the sense of Unicode
/// (`Alphabetic` or in one of the `Nd`/`Nl`/`No` categories).
pub uninterp spec fn unicode_alphanumeric(c: char) -> bool;

/// Relies on char::is_alphanumeric: a lookup in fixed Unicode tables,
/// so the result depends on the character alone.
#[verifier::external_body]
pub fn char_is_alphanumeric(c: char) -> (r: bool)
    ensures
        r == unicode_alphanumeric(c),
{
    c.is_alphanumeric()
}

// ---------------------------------------------------------------------------
// character vectors
// ---------------------------------------------------------------------------

/// The characters of a string slice as a vector, for indexed processing.
pub fn str_chars(s: &str) -> (r: Vec<char>)
    ensures
        r@ == s@,
{
    let n = s.unicode_len();
    let mut r: Vec<char> = Vec::new();
    for i in 0..n
        invariant
            n == s@.len(),
            r@ == s@.take(i as int),
    {
        r.push(s.get_char(i));
        proof {
            assert(r@ =~= s@.take(i + 1));
        }
    }
    proof {
        assert(r@ =~= s@);
    }
    r
}

// ---------------------------------------------------------------------------
// character classes
// ---------------------------------------------------------------------------

pub open spec fn is_ascii_alpha(c: char) -> bool {
    (65 <= c as u32 && c as u32 <= 90) || (97 <= c as u32 && c as u32 <= 122)
}

pub open spec fn is_ascii_num(c: char) -> bool {
    48 <= c as u32 && c as u32 <= 57
}

/// Characters allowed in a bare (unquoted) string after the first one.
pub open spec fn is_ident_char(c: char) -> bool {
    is_ascii_alpha(c) || is_ascii_num(c) || c == '_'
}

/// Printable ASCII except space.
pub open spec fn is_ascii_graphic_char(c: char) -> bool {
    0x21 <= c as u32 && c as u32 <= 0x7e
}

fn ascii_alpha(c: char) -> (r: bool)
    ensures
        r == is_ascii_alpha(c),
{
    let u = c as u32;
    (65 <= u && u <= 90) || (97 <= u && u <= 122)
}

fn ident_char(c: char) -> (r: bool)
    ensures
        r == is_ident_char(c),
{
    let u = c as u32;
    (65 <= u && u <= 90) || (97 <= u && u <= 122) || (48 <= u && u <= 57) || c == '_'
}

fn ascii_graphic(c: char) -> (r: bool)
    ensures
        r == is_ascii_graphic_char(c),
{
    let u = c as u32;
    0x21 <= u && u <= 0x7e
}

// ---------------------------------------------------------------------------
// bare and reserved strings
// ---------------------------------------------------------------------------

/// A string that may stand bare: it starts with an ASCII letter and
/// holds only ASCII alphanumerics and underscores.
pub open spec fn is_benign_str(s: Seq<char>) -> bool {
    &&& s.len() > 0
    &&& is_ascii_alpha(s[0])
    &&& forall|i: int| 0 <= i < s.len() ==> is_ident_char(#[trigger] s[i])
}

/// Case-insensitive match of a character against a lowercase reference.
pub open spec fn ci_char(c: char, d: char) -> bool {
    c == d || c as u32 + 32 == d as u32
}

/// Case-insensitive equality against a lowercase reference word.
pub open spec fn ci_eq(s: Seq<char>, w: Seq<char>) -> bool {
    s.len() == w.len() && forall|i: int| 0 <= i < s.len() ==> ci_char(#[trigger] s[i], w[i])
}

/// Reserved words of the dialect: a string whose case-insensitive form is
/// one of these must be quoted, or a parser would read it as a scalar of
/// another kind.
pub open spec fn is_special_str(s: Seq<char>) -> bool {
    ||| ci_eq(s, "y"@)
    ||| ci_eq(s, "yes"@)
    ||| ci_eq(s, "n"@)
    ||| ci_eq(s, "no"@)
    ||| ci_eq(s, "true"@)
    ||| ci_eq(s, "false"@)
    ||| ci_eq(s, "on"@)
    ||| ci_eq(s, "off"@)
    ||| ci_eq(s, "null"@)
    ||| ci_eq(s, "nan"@)
    ||| ci_eq(s, "inf"@)
}

fn ci_eq_word(v: &Vec<char>, w: &str) -> (r: bool)
    ensures
        r == ci_eq(v@, w@),
{
    let n = w.unicode_len();
    if v.len() != n {
        return false;
    }
    for i in 0..n
        invariant
            n == w@.len(),
            v@.len() == n,
            forall|j: int| 0 <= j < i ==> ci_char(#[trigger] v@[j], w@[j]),
    {
        let c = v[i];
        let d = w.get_char(i);
        let cu = c as u32;
        let du = d as u32;
        if !(c == d || (cu < du && du - cu == 32)) {
            return false;
        }
    }
    true
}

/// Whether the string's characters match one of the reserved words,
/// case-insensitively.
pub fn is_yaml_special_chars(v: &Vec<char>) -> (r: bool)
    ensures
        r == is_special_str(v@),
{
    ci_eq_word(v, "y") || ci_eq_word(v, "yes") || ci_eq_word(v, "n") || ci_eq_word(v, "no")
        || ci_eq_word(v, "true") || ci_eq_word(v, "false") || ci_eq_word(v, "on")
        || ci_eq_word(v, "off") || ci_eq_word(v, "null") || ci_eq_word(v, "nan")
        || ci_eq_word(v, "inf")
}

/// Whether the string may stand bare.
pub fn is_yaml_benign_chars(v: &Vec<char>) -> (r: bool)
    ensures
        r == is_benign_str(v@),
{
    if v.len() == 0 {
        return false;
    }
    if !ascii_alpha(v[0]) {
        return false;
    }
    for i in 0..v.len()
        invariant
            forall|j: int| 0 <= j < i ==> is_ident_char(#[trigger] v@[j]),
            v@.len() > 0,
            is_ascii_alpha(v@[0]),
    {
        if !ident_char(v[i]) {
            return false;
        }
    }
    true
}

/// Whether a string's case-insensitive form equals one of the reserved
/// words of the dialect.
pub fn is_yaml_special_str(v: &str) -> (r: bool)
    ensures
        r == is_special_str(v@),
{
    let cs = str_chars(v);
    is_yaml_special_chars(&cs)
}

/// Whether a string may be emitted bare: first character an ASCII letter,
/// the rest ASCII alphanumerics or underscores.
pub fn is_yaml_benign_str(v: &str) -> (r: bool)
    ensures
        r == is_benign_str(v@),
{
    let cs = str_chars(v);
    is_yaml_benign_chars(&cs)
}

// ---------------------------------------------------------------------------
// decimal digits
// ---------------------------------------------------------------------------

pub open spec fn dec_digit(d: int) -> char {
    if d == 0 { '0' }
    else if d == 1 { '1' }
    else if d == 2 { '2' }
    else if d == 3 { '3' }
    else if d == 4 { '4' }
    else if d == 5 { '5' }
    else if d == 6 { '6' }
    else if d == 7 { '7' }
    else if d == 8 { '8' }
    else { '9' }
}

/// The exact decimal rendering of an unsigned value, without grouping.
pub open spec fn dec_u64_text(n: nat) -> Seq<char>
    decreases n,
{
    if n < 10 {
        seq![dec_digit(n as int)]
    } else {
        dec_u64_text(n / 10) + seq![dec_digit((n % 10) as int)]
    }
}

/// The exact decimal rendering of a signed value.
pub open spec fn int_text(i: int) -> Seq<char> {
    if i < 0 {
        seq!['-'] + dec_u64_text((-i) as nat)
    } else {
        dec_u64_text(i as nat)
    }
}

fn dec_digit_char(d: u64) -> (c: char)
    requires
        d < 10,
    ensures
        c == dec_digit(d as int),
{
    match d {
        0 => '0',
        1 => '1',
        2 => '2',
        3 => '3',
        4 => '4',
        5 => '5',
        6 => '6',
        7 => '7',
        8 => '8',
        _ => '9',
    }
}

/// Appends the decimal form of an unsigned 64-bit value.
pub fn push_u64_decimal(out: &mut String, v: u64)
    ensures
        final(out)@ == old(out)@ + dec_u64_text(v as nat),
    decreases v,
{
    if v < 10 {
        push_char(out, dec_digit_char(v));
    } else {
        push_u64_decimal(out, v / 10);
        push_char(out, dec_digit_char(v % 10));
        proof {
            assert(final(out)@ =~= old(out)@ + dec_u64_text(v as nat));
        }
    }
}

/// Appends the decimal form of a signed 64-bit value.
pub fn push_i64_decimal(out: &mut String, v: i64)
    ensures
        final(out)@ == old(out)@ + int_text(v as int),
{
    if v < 0 {
        out.append("-");
        let m: u64 = ((-(v + 1)) as u64) + 1;
        assert(m as nat == (-(v as int)) as nat);
        push_u64_decimal(out, m);
        proof {
            reveal_strlit("-");
            assert("-"@ =~= seq!['-']);
            assert(final(out)@ =~= old(out)@ + int_text(v as int));
        }
    } else {
        push_u64_decimal(out, v as u64);
    }
}

// ---------------------------------------------------------------------------
// hex digits
// ---------------------------------------------------------------------------

pub open spec fn hex_digit(d: int) -> char {
    if d == 0 { '0' }
    else if d == 1 { '1' }
    else if d == 2 { '2' }
    else if d == 3 { '3' }
    else if d == 4 { '4' }
    else if d == 5 { '5' }
    else if d == 6 { '6' }
    else if d == 7 { '7' }
    else if d == 8 { '8' }
    else if d == 9 { '9' }
    else if d == 10 { 'a' }
    else if d == 11 { 'b' }
    else if d == 12 { 'c' }
    else if d == 13 { 'd' }
    else if d == 14 { 'e' }
    else { 'f' }
}

/// Four lowercase hex digits of a value below 0x10000.
pub open spec fn hex4(u: int) -> Seq<char> {
    seq![
        hex_digit(u / 0x1000 % 16),
        hex_digit(u / 0x100 % 16),
        hex_digit(u / 0x10 % 16),
        hex_digit(u % 16),
    ]
}

/// Eight lowercase hex digits of a 32-bit value.
pub open spec fn hex8(u: int) -> Seq<char> {
    seq![
        hex_digit(u / 0x10000000 % 16),
        hex_digit(u / 0x1000000 % 16),
        hex_digit(u / 0x100000 % 16),
        hex_digit(u / 0x10000 % 16),
    ] + hex4(u % 0x10000)
}

fn hex_digit_char(d: u32) -> (c: char)
    requires
        d < 16,
    ensures
        c == hex_digit(d as int),
{
    match d {
        0 => '0',
        1 => '1',
        2 => '2',
        3 => '3',
        4 => '4',
        5 => '5',
        6 => '6',
        7 => '7',
        8 => '8',
        9 => '9',
        10 => 'a',
        11 => 'b',
        12 => 'c',
        13 => 'd',
        14 => 'e',
        _ => 'f',
    }
}

fn push_hex4(out: &mut String, u: u32)
    requires
        u < 0x10000,
    ensures
        final(out)@ == old(out)@ + hex4(u as int),
{
    push_char(out, hex_digit_char(u / 0x1000 % 16));
    push_char(out, hex_digit_char(u / 0x100 % 16));
    push_char(out, hex_digit_char(u / 0x10 % 16));
    push_char(out, hex_digit_char(u % 16));
    proof {
        assert(final(out)@ =~= old(out)@ + hex4(u as int));
    }
}

fn push_hex8(out: &mut String, u: u32)
    ensures
        final(out)@ == old(out)@ + hex8(u as int),
{
    push_char(out, hex_digit_char(u / 0x10000000 % 16));
    push_char(out, hex_digit_char(u / 0x1000000 % 16));
    push_char(out, hex_digit_char(u / 0x100000 % 16));
    push_char(out, hex_digit_char(u / 0x10000 % 16));
    push_hex4(out, u % 0x10000);
    proof {
        assert(final(out)@ =~= old(out)@ + hex8(u as int));
    }
}

// ---------------------------------------------------------------------------
// character escaping
// ---------------------------------------------------------------------------

/// The escape of a single character inside a double-quoted string.
pub open spec fn esc_char(c: char) -> Seq<char> {
    if c == '\0' {
        "\\0"@
    } else if c == '\\' {
        "\\\\"@
    } else if c == '"' {
        "\\\""@
    } else if c == '\r' {
        "\\r"@
    } else if c == '\n' {
        "\\n"@
    } else if c == ' ' {
        " "@
    } else if is_ascii_graphic_char(c) || unicode_alphanumeric(c) {
        seq![c]
    } else if (c as u32) < 0x10000 {
        "\\u"@ + hex4(c as u32 as int)
    } else {
        "\\U"@ + hex8(c as u32 as int)
    }
}

/// The escaped body of a double-quoted string.
pub open spec fn esc_str(s: Seq<char>) -> Seq<char>
    decreases s.len(),
{
    if s.len() == 0 {
        Seq::<char>::empty()
    } else {
        esc_str(s.drop_last()) + esc_char(s.last())
    }
}

/// Appends the escape of one character.
pub fn write_escaped_char(out: &mut String, c: char)
    ensures
        final(out)@ == old(out)@ + esc_char(c),
{
    if c == '\0' {
        out.append("\\0");
    } else if c == '\\' {
        out.append("\\\\");
    } else if c == '"' {
        out.append("\\\"");
    } else if c == '\r' {
        out.append("\\r");
    } else if c == '\n' {
        out.append("\\n");
    } else if c == ' ' {
        out.append(" ");
    } else if ascii_graphic(c) || char_is_alphanumeric(c) {
        push_char(out, c);
    } else {
        let u = c as u32;
        if u < 0x10000 {
            out.append("\\u");
            push_hex4(out, u);
            proof {
                assert(final(out)@ =~= old(out)@ + esc_char(c));
            }
        } else {
            out.append("\\U");
            push_hex8(out, u);
            proof {
                assert(final(out)@ =~= old(out)@ + esc_char(c));
            }
        }
    }
}

/// Appends the escaped body of a string.
pub fn write_escaped(out: &mut String, v: &Vec<char>)
    ensures
        final(out)@ == old(out)@ + esc_str(v@),
{
    let ghost base = out@;
    for i in 0..v.len()
        invariant
            out@ == base + esc_str(v@.take(i as int)),
    {
        proof {
            assert(v@.take(i + 1).drop_last() =~= v@.take(i as int));
            assert(v@.take(i + 1).last() == v@[i as int]);
        }
        write_escaped_char(out, v[i]);
    }
    proof {
        assert(v@.take(v@.len() as int) =~= v@);
    }
}

// ---------------------------------------------------------------------------
// flow (single-line) rendering of strings
// ---------------------------------------------------------------------------

/// The single-line text of a string scalar: reserved words are quoted
/// verbatim, bare-safe strings stand unquoted, everything else is quoted
/// with per-character escapes.
pub open spec fn str_flow(s: Seq<char>) -> Seq<char> {
    if is_special_str(s) {
        "\""@ + s + "\""@
    } else if is_benign_str(s) {
        s
    } else {
        "\""@ + esc_str(s) + "\""@
    }
}

/// Appends the single-line text of a string scalar given as characters.
pub fn write_string_flow_chars(out: &mut String, v: &Vec<char>)
    ensures
        final(out)@ == old(out)@ + str_flow(v@),
{
    if is_yaml_special_chars(v) {
        out.append("\"");
        let ghost mid = out@;
        for i in 0..v.len()
            invariant
                out@ == mid + v@.take(i as int),
        {
            proof {
                assert(mid + v@.take(i + 1) =~= (mid + v@.take(i as int)) + seq![v@[i as int]]);
            }
            push_char(out, v[i]);
        }
        out.append("\"");
        proof {
            reveal_strlit("\"");
            assert(v@.take(v@.len() as int) =~= v@);
            assert(final(out)@ =~= old(out)@ + str_flow(v@));
        }
    } else if is_yaml_benign_chars(v) {
        let ghost mid = out@;
        for i in 0..v.len()
            invariant
                out@ == mid + v@.take(i as int),
        {
            proof {
                assert(mid + v@.take(i + 1) =~= (mid + v@.take(i as int)) + seq![v@[i as int]]);
            }
            push_char(out, v[i]);
        }
        proof {
            assert(v@.take(v@.len() as int) =~= v@);
        }
    } else {
        out.append("\"");
        write_escaped(out, v);
        out.append("\"");
        proof {
            reveal_strlit("\"");
            assert(final(out)@ =~= old(out)@ + str_flow(v@));
        }
    }
}

/// Appends the single-line text of a string scalar.
pub fn write_string_flow(out: &mut String, s: &str)
    ensures
        final(out)@ == old(out)@ + str_flow(s@),
{
    let cs = str_chars(s);
    write_string_flow_chars(out, &cs);
}

// ---------------------------------------------------------------------------
// scalar texts stay on one line
// ---------------------------------------------------------------------------

/// No character of a sequence is a line break.
pub open spec fn no_newline(s: Seq<char>) -> bool {
    forall|i: int| 0 <= i < s.len() ==> #[trigger] s[i] != '\n'
}

/// Joining two line-break-free texts keeps them line-break-free.
pub proof fn lemma_no_newline_concat(a: Seq<char>, b: Seq<char>)
    requires
        no_newline(a),
        no_newline(b),
    ensures
        no_newline(a + b),
{
    assert forall|i: int| 0 <= i < (a + b).len() implies #[trigger] (a + b)[i] != '\n' by {
        if i < a.len() {
            assert((a + b)[i] == a[i]);
        } else {
            assert((a + b)[i] == b[i - a.len()]);
        }
    }
}

pub proof fn lemma_dec_u64_no_newline(n: nat)
    ensures
        no_newline(dec_u64_text(n)),
    decreases n,
{
    if n >= 10 {
        lemma_dec_u64_no_newline(n / 10);
    }
}

pub proof fn lemma_int_text_no_newline(i: int)
    ensures
        no_newline(int_text(i)),
{
    if i < 0 {
        lemma_dec_u64_no_newline((-i) as nat);
    } else {
        lemma_dec_u64_no_newline(i as nat);
    }
}

proof fn lemma_hex4_no_newline(u: int)
    ensures
        no_newline(hex4(u)),
{
}

proof fn lemma_hex8_no_newline(u: int)
    ensures
        no_newline(hex8(u)),
{
    lemma_hex4_no_newline(u % 0x10000);
}

proof fn lemma_esc_char_no_newline(c: char)
    ensures
        no_newline(esc_char(c)),
{
    reveal_strlit("\\0");
    reveal_strlit("\\\\");
    reveal_strlit("\\\"");
    reveal_strlit("\\r");
    reveal_strlit("\\n");
    reveal_strlit(" ");
    reveal_strlit("\\u");
    reveal_strlit("\\U");
    if c == '\0' || c == '\\' || c == '"' || c == '\r' || c == '\n' || c == ' ' {
    } else if is_ascii_graphic_char(c) || unicode_alphanumeric(c) {
        if is_ascii_graphic_char(c) {
            assert(c != '\n');
        } else {
            assert(c != '\n');
        }
    } else if (c as u32) < 0x10000 {
        lemma_hex4_no_newline(c as u32 as int);
    } else {
        lemma_hex8_no_newline(c as u32 as int);
    }
}

pub proof fn lemma_esc_str_no_newline(s: Seq<char>)
    ensures
        no_newline(esc_str(s)),
    decreases s.len(),
{
    if s.len() > 0 {
        lemma_esc_str_no_newline(s.drop_last());
        lemma_esc_char_no_newline(s.last());
    }
}

proof fn lemma_ci_word_no_newline(s: Seq<char>, w: Seq<char>)
    requires
        ci_eq(s, w),
        forall|i: int| 0 <= i < w.len() ==> 97 <= #[trigger] w[i] as u32 <= 122,
    ensures
        no_newline(s),
{
    assert forall|i: int| 0 <= i < s.len() implies #[trigger] s[i] != '\n' by {
        assert(ci_char(s[i], w[i]));
        assert('\n' as u32 == 10);
    }
}

proof fn lemma_special_no_newline(s: Seq<char>)
    requires
        is_special_str(s),
    ensures
        no_newline(s),
{
    reveal_strlit("y");
    reveal_strlit("yes");
    reveal_strlit("n");
    reveal_strlit("no");
    reveal_strlit("true");
    reveal_strlit("false");
    reveal_strlit("on");
    reveal_strlit("off");
    reveal_strlit("null");
    reveal_strlit("nan");
    reveal_strlit("inf");
    if ci_eq(s, "y"@) {
        lemma_ci_word_no_newline(s, "y"@);
    } else if ci_eq(s, "yes"@) {
        lemma_ci_word_no_newline(s, "yes"@);
    } else if ci_eq(s, "n"@) {
        lemma_ci_word_no_newline(s, "n"@);
    } else if ci_eq(s, "no"@) {
        lemma_ci_word_no_newline(s, "no"@);
    } else if ci_eq(s, "true"@) {
        lemma_ci_word_no_newline(s, "true"@);
    } else if ci_eq(s, "false"@) {
        lemma_ci_word_no_newline(s, "false"@);
    } else if ci_eq(s, "on"@) {
        lemma_ci_word_no_newline(s, "on"@);
    } else if ci_eq(s, "off"@) {
        lemma_ci_word_no_newline(s, "off"@);
    } else if ci_eq(s, "null"@) {
        lemma_ci_word_no_newline(s, "null"@);
    } else if ci_eq(s, "nan"@) {
        lemma_ci_word_no_newline(s, "nan"@);
    } else {
        lemma_ci_word_no_newline(s, "inf"@);
    }
}

/// The single-line text of any string scalar holds no line break: every
/// line break of the string itself leaves as the two-character escape.
pub proof fn lemma_str_flow_no_newline(s: Seq<char>)
    ensures
        no_newline(str_flow(s)),
{
    reveal_strlit("\"");
    if is_special_str(s) {
        lemma_special_no_newline(s);
    } else if is_benign_str(s) {
        assert forall|i: int| 0 <= i < s.len() implies #[trigger] s[i] != '\n' by {
            assert(is_ident_char(s[i]));
            assert('\n' as u32 == 10);
        }
    } else {
        lemma_esc_str_no_newline(s);
    }
}

} // verus!
