//! Column-aware word wrapping of long quoted strings (multi-line mode).
//!
//! A string that does not fit the single-line budget is folded: its body
//! is split into tokens (each whitespace character alone, maximal runs of
//! non-whitespace as words), and the tokens are laid out against an
//! 80-column counter, breaking lines with trailing-backslash
//! continuations. The exact text is pinned down by [`str_folded`].

use vstd::prelude::*;
use vstd::string::StringExecFns;
use crate::text::esc_char;
use crate::text::write_escaped_char;

verus! {

// ---------------------------------------------------------------------------
// whitespace and tokens
// ---------------------------------------------------------------------------

/// The Unicode `White_Space` characters (the set `char::is_whitespace`
/// tests), written out.
pub open spec fn is_ws(c: char) -> bool {
    let u = c as u32;
    ||| (9 <= u && u <= 13)
    ||| u == 32
    ||| u == 0x85
    ||| u == 0xa0
    ||| u == 0x1680
    ||| (0x2000 <= u && u <= 0x200a)
    ||| u == 0x2028
    ||| u == 0x2029
    ||| u == 0x202f
    ||| u == 0x205f
    ||| u == 0x3000
}

fn ws_char(c: char) -> (r: bool)
    ensures
        r == is_ws(c),
{
    let u = c as u32;
    (9 <= u && u <= 13) || u == 32 || u == 0x85 || u == 0xa0 || u == 0x1680
        || (0x2000 <= u && u <= 0x200a) || u == 0x2028 || u == 0x2029 || u == 0x202f
        || u == 0x205f || u == 0x3000
}

/// Length of the maximal non-whitespace prefix.
pub open spec fn word_len(s: Seq<char>) -> nat
    decreases s.len(),
{
    if s.len() == 0 || is_ws(s[0]) {
        0
    } else {
        1 + word_len(s.drop_first())
    }
}

pub proof fn lemma_word_len_le(s: Seq<char>)
    ensures
        word_len(s) <= s.len(),
    decreases s.len(),
{
    if s.len() != 0 && !is_ws(s[0]) {
        lemma_word_len_le(s.drop_first());
    }
}

proof fn lemma_word_len_exact(s: Seq<char>, k: int)
    requires
        0 <= k <= s.len(),
        forall|m: int| 0 <= m < k ==> !is_ws(#[trigger] s[m]),
        k == s.len() || is_ws(s[k]),
    ensures
        word_len(s) == k,
    decreases k,
{
    if k > 0 {
        assert(!is_ws(s[0]));
        let t = s.drop_first();
        assert(forall|m: int| 0 <= m < k - 1 ==> !is_ws(#[trigger] t[m]));
        lemma_word_len_exact(t, k - 1);
    }
}

/// The token stream of a string: each whitespace character is a token of
/// its own, maximal non-whitespace runs are word tokens.
pub open spec fn tokens(s: Seq<char>) -> Seq<Seq<char>>
    decreases s.len(),
{
    if s.len() == 0 {
        Seq::<Seq<char>>::empty()
    } else if is_ws(s[0]) {
        seq![seq![s[0]]] + tokens(s.drop_first())
    } else {
        let w = {
            proof {
                lemma_word_len_le(s);
            }
            word_len(s)
        };
        seq![s.take(w as int)] + tokens(s.skip(w as int))
    }
}

/// Splits the characters into the token stream that [`tokens`] describes.
pub fn tokenize(v: &Vec<char>) -> (toks: Vec<Vec<char>>)
    ensures
        toks@.len() == tokens(v@).len(),
        forall|t: int| 0 <= t < toks@.len() ==> toks@[t]@ == tokens(v@)[t],
{
    let mut toks: Vec<Vec<char>> = Vec::new();
    let ghost mut done: Seq<Seq<char>> = Seq::empty();
    let mut i: usize = 0;
    proof {
        assert(v@.skip(0) =~= v@);
        assert(done + tokens(v@) =~= tokens(v@));
    }
    while i < v.len()
        invariant
            i <= v.len(),
            done.len() == toks@.len(),
            forall|t: int| 0 <= t < toks@.len() ==> toks@[t]@ == done[t],
            tokens(v@) == done + tokens(v@.skip(i as int)),
        decreases v.len() - i,
    {
        let ghost rest = v@.skip(i as int);
        if ws_char(v[i]) {
            let mut w: Vec<char> = Vec::new();
            w.push(v[i]);
            proof {
                assert(rest[0] == v@[i as int]);
                assert(rest.drop_first() =~= v@.skip(i + 1));
                assert(tokens(rest) == seq![seq![v@[i as int]]] + tokens(v@.skip(i + 1)));
                assert(w@ =~= seq![v@[i as int]]);
                done = done + seq![w@];
                assert(tokens(v@) =~= done + tokens(v@.skip(i + 1)));
            }
            toks.push(w);
            i = i + 1;
        } else {
            let start = i;
            let mut j = i + 1;
            while j < v.len() && !ws_char(v[j])
                invariant
                    start < j <= v.len(),
                    forall|m: int| start <= m < j ==> !is_ws(#[trigger] v@[m]),
                decreases v.len() - j,
            {
                j = j + 1;
            }
            let mut w: Vec<char> = Vec::new();
            let mut m = start;
            while m < j
                invariant
                    start <= m <= j <= v@.len(),
                    w@ == v@.subrange(start as int, m as int),
                decreases j - m,
            {
                w.push(v[m]);
                proof {
                    assert(w@ =~= v@.subrange(start as int, m + 1));
                }
                m = m + 1;
            }
            proof {
                let wl = j - start;
                assert(forall|t: int| 0 <= t < wl ==> rest[t] == v@[start + t]);
                assert(forall|t: int| 0 <= t < wl ==> !is_ws(#[trigger] rest[t]));
                if j < v.len() {
                    assert(is_ws(rest[wl as int]));
                }
                lemma_word_len_exact(rest, wl as int);
                assert(rest.take(wl as int) =~= v@.subrange(start as int, j as int));
                assert(rest.skip(wl as int) =~= v@.skip(j as int));
                assert(tokens(rest) == seq![v@.subrange(start as int, j as int)] + tokens(
                    v@.skip(j as int),
                ));
                done = done + seq![w@];
                assert(tokens(v@) =~= done + tokens(v@.skip(j as int)));
            }
            toks.push(w);
            i = j;
        }
    }
    proof {
        assert(v@.skip(v@.len() as int) =~= Seq::<char>::empty());
        assert(tokens(v@) =~= done);
    }
    toks
}

// ---------------------------------------------------------------------------
// indentation
// ---------------------------------------------------------------------------

/// Two spaces per nesting level.
pub open spec fn spaces2(level: nat) -> Seq<char>
    decreases level,
{
    if level == 0 {
        Seq::<char>::empty()
    } else {
        spaces2((level - 1) as nat) + "  "@
    }
}

/// A line break followed by the indentation of the level, one extra level
/// deep when asked.
pub open spec fn indent_text(level: nat, extra: bool) -> Seq<char> {
    "\n"@ + spaces2(level) + if extra {
        "  "@
    } else {
        Seq::<char>::empty()
    }
}

/// Appends a line break and the indentation of the level.
pub fn write_indent_ml(out: &mut String, level: usize, extra: bool)
    ensures
        final(out)@ == old(out)@ + indent_text(level as nat, extra),
{
    out.append("\n");
    let ghost base = out@;
    for l in 0..level
        invariant
            out@ == base + spaces2(l as nat),
    {
        out.append("  ");
    }
    if extra {
        out.append("  ");
    }
    proof {
        assert(final(out)@ =~= old(out)@ + indent_text(level as nat, extra));
    }
}

// ---------------------------------------------------------------------------
// the folding layout
// ---------------------------------------------------------------------------

/// The column counter starts effectively infinite, so the first token is
/// always laid out on a fresh continuation line.
pub open spec fn wrap_inf() -> nat {
    usize::MAX as nat
}

/// Length of the next token, for the early-break decision: long words
/// (60 characters or more) and a missing next token count as zero.
pub open spec fn peek_len(toks: Seq<Seq<char>>, i: int) -> nat {
    if i + 1 < toks.len() && toks[i + 1].len() < 60 {
        toks[i + 1].len()
    } else {
        0
    }
}

/// Layout of the token stream from token `i` on, with `col` characters
/// already on the current line.
pub open spec fn wrap_step(toks: Seq<Seq<char>>, i: int, col: nat, level: nat) -> Seq<char>
    decreases toks.len() - i, 1int, 0int,
{
    if !(0 <= i < toks.len()) {
        Seq::<char>::empty()
    } else if toks[i] == seq![' '] {
        let nl = peek_len(toks, i);
        if col + nl >= 80 {
            // break early instead of emitting the spacing
            if i + 1 < toks.len() && toks[i + 1] == seq![' '] {
                indent_text(level, false) + " \\ "@ + wrap_step(toks, i + 2, 0, level)
            } else {
                indent_text(level, false) + "  "@ + wrap_step(toks, i + 1, 0, level)
            }
        } else {
            if i + 1 < toks.len() && toks[i + 1] == seq![' '] {
                " "@ + wrap_spaces(toks, i + 1, col, level)
            } else if i + 1 < toks.len() {
                " "@ + wrap_step(toks, i + 1, col, level)
            } else {
                indent_text(level, false)
            }
        }
    } else if toks[i] == seq!['\n'] {
        "\\n"@ + if i + 1 < toks.len() && toks[i + 1] == seq!['\n'] {
            "\\"@ + indent_text(level, true) + wrap_step(toks, i + 1, wrap_inf(), level)
        } else if i + 1 >= toks.len() {
            "\\"@ + indent_text(level, false)
        } else {
            wrap_step(toks, i + 1, wrap_inf(), level)
        }
    } else {
        wrap_word(toks, i, 0, col, level)
    }
}

/// Coalescing of a run of space tokens, inserting a backslash
/// continuation when the run itself overflows the column budget.
pub open spec fn wrap_spaces(toks: Seq<Seq<char>>, j: int, col: nat, level: nat) -> Seq<char>
    decreases toks.len() - j, 2int, 0int,
{
    if 0 <= j < toks.len() && toks[j] == seq![' '] {
        " "@ + if col >= 80 {
            "\\"@ + wrap_step(toks, j, col, level)
        } else {
            wrap_spaces(toks, j + 1, col + 1, level)
        }
    } else {
        wrap_step(toks, j, col, level)
    }
}

/// Layout of the characters of word token `i` from position `k` on,
/// breaking with a trailing backslash whenever the column budget is
/// reached, and closing the body after the final token.
pub open spec fn wrap_word(toks: Seq<Seq<char>>, i: int, k: int, col: nat, level: nat) -> Seq<char>
    decreases toks.len() - i, 0int, toks[i].len() - k,
{
    if !(0 <= i < toks.len()) || !(0 <= k <= toks[i].len()) {
        Seq::<char>::empty()
    } else if k < toks[i].len() {
        if col >= 80 {
            "\\"@ + indent_text(level, true) + esc_char(toks[i][k]) + wrap_word(
                toks,
                i,
                k + 1,
                1,
                level,
            )
        } else {
            esc_char(toks[i][k]) + wrap_word(toks, i, k + 1, col + 1, level)
        }
    } else {
        if i + 1 >= toks.len() {
            "\\"@ + indent_text(level, false)
        } else {
            wrap_step(toks, i + 1, col, level)
        }
    }
}

/// The folded multi-line quoted form of a string: the wrapped body inside
/// double quotes.
pub open spec fn str_folded(s: Seq<char>, level: nat) -> Seq<char> {
    "\""@ + wrap_step(tokens(s), 0, wrap_inf(), level) + "\""@
}

fn is_space_tok(t: &Vec<char>) -> (r: bool)
    ensures
        r == (t@ == seq![' ']),
{
    let r = t.len() == 1 && t[0] == ' ';
    proof {
        if r {
            assert(t@ =~= seq![' ']);
        } else if t@ == seq![' '] {
            assert(t@.len() == 1 && t@[0] == ' ');
        }
    }
    r
}

fn is_newline_tok(t: &Vec<char>) -> (r: bool)
    ensures
        r == (t@ == seq!['\n']),
{
    let r = t.len() == 1 && t[0] == '\n';
    proof {
        if r {
            assert(t@ =~= seq!['\n']);
        } else if t@ == seq!['\n'] {
            assert(t@.len() == 1 && t@[0] == '\n');
        }
    }
    r
}

/// Appends the folded multi-line quoted form of the string.
#[verifier::loop_isolation(false)]
#[verifier::rlimit(100)]
pub fn write_folded(out: &mut String, v: &Vec<char>, level: usize)
    ensures
        final(out)@ == old(out)@ + str_folded(v@, level as nat),
{
    let toks = tokenize(v);
    let ghost tseq = tokens(v@);
    let ghost lv = level as nat;
    out.append("\"");
    let ghost base = out@;
    let ghost total = wrap_step(tseq, 0, wrap_inf(), lv);
    let mut i: usize = 0;
    let mut col: usize = usize::MAX;
    while i < toks.len()
        invariant
            i <= toks.len(),
            col as nat <= 80 || col == usize::MAX,
            out@ + wrap_step(tseq, i as int, col as nat, lv) == base + total,
        decreases toks.len() - i,
    {
        let tok = &toks[i];
        proof {
            assert(tok@ == tseq[i as int]);
        }
        if is_space_tok(tok) {
            let mut nl: usize = 0;
            if i + 1 < toks.len() {
                let l = toks[i + 1].len();
                if l < 60 {
                    nl = l;
                }
            }
            proof {
                assert(nl as nat == peek_len(tseq, i as int));
            }
            let mut next_space = false;
            if i + 1 < toks.len() {
                next_space = is_space_tok(&toks[i + 1]);
            }
            if col >= 80 || col + nl >= 80 {
                write_indent_ml(out, level, false);
                if next_space {
                    out.append(" \\ ");
                    i = i + 2;
                } else {
                    out.append("  ");
                    i = i + 1;
                }
                col = 0;
                proof {
                    assert(out@ + wrap_step(tseq, i as int, 0, lv) =~= base + total);
                }
            } else {
                if next_space {
                    out.append(" ");
                    let mut j = i + 1;
                    let mut run_done = false;
                    proof {
                        assert(out@ + wrap_spaces(tseq, j as int, col as nat, lv) =~= base
                            + total);
                    }
                    while !run_done
                        invariant
                            i < j <= toks.len(),
                            col as nat <= 80,
                            run_done ==> out@ + wrap_step(tseq, j as int, col as nat, lv) == base
                                + total,
                            !run_done ==> out@ + wrap_spaces(tseq, j as int, col as nat, lv) == base
                                + total,
                        decreases 2 * (toks.len() - j) + if run_done {
                            0int
                        } else {
                            1int
                        },
                    {
                        if j < toks.len() && is_space_tok(&toks[j]) {
                            out.append(" ");
                            if col >= 80 {
                                out.append("\\");
                                run_done = true;
                                proof {
                                    assert(out@ + wrap_step(tseq, j as int, col as nat, lv) =~= base
                                        + total);
                                }
                            } else {
                                col = col + 1;
                                j = j + 1;
                                proof {
                                    assert(out@ + wrap_spaces(tseq, j as int, col as nat, lv)
                                        =~= base + total);
                                }
                            }
                        } else {
                            run_done = true;
                            proof {
                                assert(wrap_spaces(tseq, j as int, col as nat, lv) == wrap_step(
                                    tseq,
                                    j as int,
                                    col as nat,
                                    lv,
                                ));
                            }
                        }
                    }
                    i = j;
                } else if i + 1 < toks.len() {
                    out.append(" ");
                    i = i + 1;
                    proof {
                        assert(out@ + wrap_step(tseq, i as int, col as nat, lv) =~= base + total);
                    }
                } else {
                    write_indent_ml(out, level, false);
                    i = i + 1;
                    proof {
                        assert(out@ + wrap_step(tseq, i as int, col as nat, lv) =~= base + total);
                    }
                }
            }
        } else if is_newline_tok(tok) {
            out.append("\\n");
            let mut next_newline = false;
            if i + 1 < toks.len() {
                next_newline = is_newline_tok(&toks[i + 1]);
            }
            if i + 1 >= toks.len() {
                out.append("\\");
                write_indent_ml(out, level, false);
            } else if next_newline {
                out.append("\\");
                write_indent_ml(out, level, true);
            }
            col = usize::MAX;
            i = i + 1;
            proof {
                assert(out@ + wrap_step(tseq, i as int, col as nat, lv) =~= base + total);
            }
        } else {
            let mut k: usize = 0;
            proof {
                assert(wrap_step(tseq, i as int, col as nat, lv) == wrap_word(
                    tseq,
                    i as int,
                    0,
                    col as nat,
                    lv,
                ));
            }
            while k < tok.len()
                invariant
                    k <= tok.len(),
                    col as nat <= 80 || col == usize::MAX,
                    out@ + wrap_word(tseq, i as int, k as int, col as nat, lv) == base + total,
                decreases tok.len() - k,
            {
                if col >= 80 {
                    out.append("\\");
                    write_indent_ml(out, level, true);
                    col = 0;
                }
                write_escaped_char(out, tok[k]);
                col = col + 1;
                k = k + 1;
                proof {
                    assert(out@ + wrap_word(tseq, i as int, k as int, col as nat, lv) =~= base
                        + total);
                }
            }
            if i + 1 >= toks.len() {
                out.append("\\");
                write_indent_ml(out, level, false);
            }
            i = i + 1;
            proof {
                assert(out@ + wrap_step(tseq, i as int, col as nat, lv) =~= base + total);
            }
        }
    }
    out.append("\"");
    proof {
        assert(final(out)@ =~= old(out)@ + str_folded(v@, lv));
    }
}

} // verus!
