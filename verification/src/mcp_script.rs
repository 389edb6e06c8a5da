//! Splitting a tool script into commands, and a command into arguments.
//!
//! A script is a sequence of commands separated by `;` or a newline; a
//! command is a sequence of words separated by whitespace.  Single quotes
//! keep everything up to the next single quote, double quotes keep
//! everything up to the next unescaped double quote, and a backslash keeps
//! the character after it.
use vstd::prelude::*;
use crate::text::{char_is_ws, chars_of, is_ws, string_of, strings_view};

verus! {

/// The quoting context a scanner is in.
#[derive(Clone, Copy, PartialEq, Eq, Structural, Debug)]
pub enum QuoteMode {
    Unquoted,
    Single,
    Double,
}

/// The state of a scanner: the pieces finished so far, the piece being
/// read, the quoting context and whether the previous character was an
/// escaping backslash.
pub struct ScanState {
    pub parts: Seq<Seq<char>>,
    pub buf: Seq<char>,
    pub mode: QuoteMode,
    pub escape: bool,
}

/// The state before the first character.
pub open spec fn scan_start() -> ScanState {
    ScanState { parts: Seq::empty(), buf: Seq::empty(), mode: QuoteMode::Unquoted, escape: false }
}

// ---------------------------------------------------------------------------
// Scripts
// ---------------------------------------------------------------------------

/// One character of a script.  Quotes and backslashes are kept in the
/// command text (the command is tokenized later); an unquoted `;` or
/// newline ends the current command.
pub open spec fn script_step(st: ScanState, ch: char) -> ScanState {
    if st.escape {
        ScanState { buf: st.buf.push(ch), escape: false, ..st }
    } else {
        match st.mode {
            QuoteMode::Unquoted => if ch == '\\' {
                ScanState { buf: st.buf.push(ch), escape: true, ..st }
            } else if ch == '\'' {
                ScanState { buf: st.buf.push(ch), mode: QuoteMode::Single, ..st }
            } else if ch == '"' {
                ScanState { buf: st.buf.push(ch), mode: QuoteMode::Double, ..st }
            } else if ch == ';' || ch == '\n' {
                ScanState { parts: st.parts.push(st.buf), buf: Seq::empty(), ..st }
            } else {
                ScanState { buf: st.buf.push(ch), ..st }
            },
            QuoteMode::Single => if ch == '\'' {
                ScanState { buf: st.buf.push(ch), mode: QuoteMode::Unquoted, ..st }
            } else {
                ScanState { buf: st.buf.push(ch), ..st }
            },
            QuoteMode::Double => if ch == '\\' {
                ScanState { buf: st.buf.push(ch), escape: true, ..st }
            } else if ch == '"' {
                ScanState { buf: st.buf.push(ch), mode: QuoteMode::Unquoted, ..st }
            } else {
                ScanState { buf: st.buf.push(ch), ..st }
            },
        }
    }
}

/// The state after reading all of `s`, from `st`.
pub open spec fn script_run(st: ScanState, s: Seq<char>) -> ScanState
    decreases s.len(),
{
    if s.len() == 0 {
        st
    } else {
        script_run(script_step(st, s[0]), s.drop_first())
    }
}

/// The commands of a script, the last one included even when empty.
pub open spec fn split_script_spec(s: Seq<char>) -> Seq<Seq<char>> {
    let st = script_run(scan_start(), s);
    st.parts.push(st.buf)
}

proof fn lemma_script_run_push(st: ScanState, s: Seq<char>, ch: char)
    ensures
        script_run(st, s.push(ch)) == script_step(script_run(st, s), ch),
    decreases s.len(),
{
    if s.len() > 0 {
        assert(s.push(ch)[0] == s[0]);
        assert(s.push(ch).drop_first() =~= s.drop_first().push(ch));
        lemma_script_run_push(script_step(st, s[0]), s.drop_first(), ch);
    } else {
        let t = script_step(st, ch);
        assert(s.push(ch).drop_first() =~= Seq::<char>::empty());
        assert(script_run(t, Seq::<char>::empty()) == t);
        assert(s.push(ch)[0] == ch);
        assert(script_run(st, s) == st);
    }
}

/// Splits a script into its commands: an unquoted, unescaped `;` or
/// newline separates two commands; the commands keep their quotes and
/// backslashes.
pub fn split_script(script: &str) -> (parts: Vec<String>)
    ensures
        strings_view(parts@) == split_script_spec(script@),
{
    let chars = chars_of(script);
    let mut parts: Vec<String> = Vec::new();
    let mut buf: Vec<char> = Vec::new();
    let mut mode = QuoteMode::Unquoted;
    let mut escape = false;
    let mut i: usize = 0;
    proof {
        assert(chars@.take(0) =~= Seq::<char>::empty());
        assert(strings_view(Seq::<String>::empty()) =~= Seq::<Seq<char>>::empty());
    }
    while i < chars.len()
        invariant
            i <= chars.len(),
            chars@ == script@,
            script_run(scan_start(), chars@.take(i as int)) == (ScanState {
                parts: strings_view(parts@),
                buf: buf@,
                mode: mode,
                escape: escape,
            }),
        decreases chars.len() - i,
    {
        let ch = chars[i];
        proof {
            assert(chars@.take(i + 1) =~= chars@.take(i as int).push(ch));
            lemma_script_run_push(scan_start(), chars@.take(i as int), ch);
        }
        let ghost before = strings_view(parts@);
        if escape {
            buf.push(ch);
            escape = false;
        } else {
            match mode {
                QuoteMode::Unquoted => {
                    if ch == '\\' {
                        buf.push(ch);
                        escape = true;
                    } else if ch == '\'' {
                        mode = QuoteMode::Single;
                        buf.push(ch);
                    } else if ch == '"' {
                        mode = QuoteMode::Double;
                        buf.push(ch);
                    } else if ch == ';' || ch == '\n' {
                        let piece = string_of(buf.as_slice());
                        parts.push(piece);
                        buf = Vec::new();
                        assert(strings_view(parts@) =~= before.push(piece@));
                    } else {
                        buf.push(ch);
                    }
                },
                QuoteMode::Single => {
                    if ch == '\'' {
                        mode = QuoteMode::Unquoted;
                    }
                    buf.push(ch);
                },
                QuoteMode::Double => {
                    if ch == '\\' {
                        buf.push(ch);
                        escape = true;
                    } else if ch == '"' {
                        mode = QuoteMode::Unquoted;
                        buf.push(ch);
                    } else {
                        buf.push(ch);
                    }
                },
            }
        }
        i += 1;
    }
    assert(chars@.take(chars.len() as int) =~= chars@);
    let ghost before = strings_view(parts@);
    let last = string_of(buf.as_slice());
    parts.push(last);
    assert(strings_view(parts@) =~= before.push(last@));
    parts
}

// ---------------------------------------------------------------------------
// Commands
// ---------------------------------------------------------------------------

/// One character of a command.  Quotes and escaping backslashes are
/// removed; unquoted whitespace ends a non-empty word.
pub open spec fn token_step(st: ScanState, ch: char) -> ScanState {
    if st.escape {
        ScanState { buf: st.buf.push(ch), escape: false, ..st }
    } else {
        match st.mode {
            QuoteMode::Unquoted => if is_ws(ch) {
                if st.buf.len() > 0 {
                    ScanState { parts: st.parts.push(st.buf), buf: Seq::empty(), ..st }
                } else {
                    st
                }
            } else if ch == '\\' {
                ScanState { escape: true, ..st }
            } else if ch == '\'' {
                ScanState { mode: QuoteMode::Single, ..st }
            } else if ch == '"' {
                ScanState { mode: QuoteMode::Double, ..st }
            } else {
                ScanState { buf: st.buf.push(ch), ..st }
            },
            QuoteMode::Single => if ch == '\'' {
                ScanState { mode: QuoteMode::Unquoted, ..st }
            } else {
                ScanState { buf: st.buf.push(ch), ..st }
            },
            QuoteMode::Double => if ch == '"' {
                ScanState { mode: QuoteMode::Unquoted, ..st }
            } else if ch == '\\' {
                ScanState { escape: true, ..st }
            } else {
                ScanState { buf: st.buf.push(ch), ..st }
            },
        }
    }
}

/// The state after reading all of `s`, from `st`.
pub open spec fn token_run(st: ScanState, s: Seq<char>) -> ScanState
    decreases s.len(),
{
    if s.len() == 0 {
        st
    } else {
        token_run(token_step(st, s[0]), s.drop_first())
    }
}

/// The words of a command, or the error for a quote left open.  A
/// backslash at the very end is kept as a backslash.
pub open spec fn tokenize_spec(s: Seq<char>) -> Result<Seq<Seq<char>>, Seq<char>> {
    let st = token_run(scan_start(), s);
    let buf = if st.escape { st.buf.push('\\') } else { st.buf };
    if st.mode != QuoteMode::Unquoted {
        Err("unterminated quote"@)
    } else if buf.len() > 0 {
        Ok(st.parts.push(buf))
    } else {
        Ok(st.parts)
    }
}

proof fn lemma_token_run_push(st: ScanState, s: Seq<char>, ch: char)
    ensures
        token_run(st, s.push(ch)) == token_step(token_run(st, s), ch),
    decreases s.len(),
{
    if s.len() > 0 {
        assert(s.push(ch)[0] == s[0]);
        assert(s.push(ch).drop_first() =~= s.drop_first().push(ch));
        lemma_token_run_push(token_step(st, s[0]), s.drop_first(), ch);
    } else {
        let t = token_step(st, ch);
        assert(s.push(ch).drop_first() =~= Seq::<char>::empty());
        assert(token_run(t, Seq::<char>::empty()) == t);
        assert(s.push(ch)[0] == ch);
        assert(token_run(st, s) == st);
    }
}

/// Splits a command into its words, removing quotes and escapes; a quote
/// left open is an error.
pub fn tokenize_command(cmd: &str) -> (r: Result<Vec<String>, String>)
    ensures
        match r {
            Ok(tokens) => tokenize_spec(cmd@) == Ok::<Seq<Seq<char>>, Seq<char>>(
                strings_view(tokens@),
            ),
            Err(e) => tokenize_spec(cmd@) == Err::<Seq<Seq<char>>, Seq<char>>(e@),
        },
{
    let chars = chars_of(cmd);
    let mut tokens: Vec<String> = Vec::new();
    let mut buf: Vec<char> = Vec::new();
    let mut mode = QuoteMode::Unquoted;
    let mut escape = false;
    let mut i: usize = 0;
    proof {
        assert(chars@.take(0) =~= Seq::<char>::empty());
        assert(strings_view(Seq::<String>::empty()) =~= Seq::<Seq<char>>::empty());
    }
    while i < chars.len()
        invariant
            i <= chars.len(),
            chars@ == cmd@,
            token_run(scan_start(), chars@.take(i as int)) == (ScanState {
                parts: strings_view(tokens@),
                buf: buf@,
                mode: mode,
                escape: escape,
            }),
        decreases chars.len() - i,
    {
        let ch = chars[i];
        proof {
            assert(chars@.take(i + 1) =~= chars@.take(i as int).push(ch));
            lemma_token_run_push(scan_start(), chars@.take(i as int), ch);
        }
        let ghost before = strings_view(tokens@);
        if escape {
            buf.push(ch);
            escape = false;
        } else {
            match mode {
                QuoteMode::Unquoted => {
                    if char_is_ws(ch) {
                        if buf.len() > 0 {
                            let piece = string_of(buf.as_slice());
                            tokens.push(piece);
                            buf = Vec::new();
                            assert(strings_view(tokens@) =~= before.push(piece@));
                        }
                    } else if ch == '\\' {
                        escape = true;
                    } else if ch == '\'' {
                        mode = QuoteMode::Single;
                    } else if ch == '"' {
                        mode = QuoteMode::Double;
                    } else {
                        buf.push(ch);
                    }
                },
                QuoteMode::Single => {
                    if ch == '\'' {
                        mode = QuoteMode::Unquoted;
                    } else {
                        buf.push(ch);
                    }
                },
                QuoteMode::Double => {
                    if ch == '"' {
                        mode = QuoteMode::Unquoted;
                    } else if ch == '\\' {
                        escape = true;
                    } else {
                        buf.push(ch);
                    }
                },
            }
        }
        i += 1;
    }
    assert(chars@.take(chars.len() as int) =~= chars@);
    if escape {
        buf.push('\\');
    }
    if mode != QuoteMode::Unquoted {
        return Err(string_of(chars_of("unterminated quote").as_slice()));
    }
    if buf.len() > 0 {
        let ghost before = strings_view(tokens@);
        let last = string_of(buf.as_slice());
        tokens.push(last);
        assert(strings_view(tokens@) =~= before.push(last@));
    }
    Ok(tokens)
}


// ---------------------------------------------------------------------------
// Laws
// ---------------------------------------------------------------------------

proof fn lemma_script_run_no_separator(st: ScanState, s: Seq<char>)
    requires
        forall|i: int| 0 <= i < s.len() ==> #[trigger] s[i] != ';' && s[i] != '\n',
    ensures
        script_run(st, s).parts == st.parts,
        script_run(st, s).buf == st.buf + s,
    decreases s.len(),
{
    if s.len() == 0 {
        assert(st.buf + s =~= st.buf);
    } else {
        let t = script_step(st, s[0]);
        assert(s[0] != ';' && s[0] != '\n');
        assert(t.parts == st.parts && t.buf == st.buf.push(s[0]));
        let rest = s.drop_first();
        assert forall|i: int| 0 <= i < rest.len() implies #[trigger] rest[i] != ';' && rest[i]
            != '\n' by {
            assert(rest[i] == s[i + 1]);
        }
        lemma_script_run_no_separator(t, rest);
        assert(st.buf.push(s[0]) + rest =~= st.buf + s);
    }
}

/// A script with no `;` and no newline is a single command, the whole
/// script, whatever quotes or backslashes it holds.
pub proof fn law_script_without_separators(s: Seq<char>)
    requires
        forall|i: int| 0 <= i < s.len() ==> #[trigger] s[i] != ';' && s[i] != '\n',
    ensures
        split_script_spec(s) == seq![s],
{
    lemma_script_run_no_separator(scan_start(), s);
    assert(Seq::<char>::empty() + s =~= s);
    assert(Seq::<Seq<char>>::empty().push(s) =~= seq![s]);
}

/// A character that a command word holds literally: no whitespace, quote
/// or backslash.
pub open spec fn plain_char(c: char) -> bool {
    !is_ws(c) && c != '\'' && c != '"' && c != '\\'
}

proof fn lemma_token_run_plain(st: ScanState, s: Seq<char>)
    requires
        st.mode == QuoteMode::Unquoted,
        !st.escape,
        forall|i: int| 0 <= i < s.len() ==> plain_char(#[trigger] s[i]),
    ensures
        token_run(st, s) == (ScanState { buf: st.buf + s, ..st }),
    decreases s.len(),
{
    if s.len() == 0 {
        assert(st.buf + s =~= st.buf);
    } else {
        assert(plain_char(s[0]));
        let t = token_step(st, s[0]);
        assert(t == (ScanState { buf: st.buf.push(s[0]), ..st }));
        let rest = s.drop_first();
        assert forall|i: int| 0 <= i < rest.len() implies plain_char(#[trigger] rest[i]) by {
            assert(rest[i] == s[i + 1]);
        }
        lemma_token_run_plain(t, rest);
        assert(st.buf.push(s[0]) + rest =~= st.buf + s);
    }
}

/// A command made only of plain characters is one word, itself (or no
/// word when empty).
pub proof fn law_plain_command_is_one_word(s: Seq<char>)
    requires
        forall|i: int| 0 <= i < s.len() ==> plain_char(#[trigger] s[i]),
    ensures
        tokenize_spec(s) == (if s.len() == 0 {
            Ok::<Seq<Seq<char>>, Seq<char>>(Seq::empty())
        } else {
            Ok::<Seq<Seq<char>>, Seq<char>>(seq![s])
        }),
{
    lemma_token_run_plain(scan_start(), s);
    assert(Seq::<char>::empty() + s =~= s);
    assert(Seq::<Seq<char>>::empty().push(s) =~= seq![s]);
}

proof fn lemma_token_run_double(st: ScanState, s: Seq<char>)
    requires
        st.mode == QuoteMode::Double,
        !st.escape,
        forall|i: int| 0 <= i < s.len() ==> #[trigger] s[i] != '"' && s[i] != '\\',
    ensures
        token_run(st, s) == (ScanState { buf: st.buf + s, ..st }),
    decreases s.len(),
{
    if s.len() == 0 {
        assert(st.buf + s =~= st.buf);
    } else {
        assert(s[0] != '"' && s[0] != '\\');
        let t = token_step(st, s[0]);
        assert(t == (ScanState { buf: st.buf.push(s[0]), ..st }));
        let rest = s.drop_first();
        assert forall|i: int| 0 <= i < rest.len() implies #[trigger] rest[i] != '"' && rest[i]
            != '\\' by {
            assert(rest[i] == s[i + 1]);
        }
        lemma_token_run_double(t, rest);
        assert(st.buf.push(s[0]) + rest =~= st.buf + s);
    }
}

/// Double quotes keep a non-empty text as one word, whitespace and single
/// quotes included, when it holds no double quote and no backslash.
pub proof fn law_double_quoted_word(w: Seq<char>)
    requires
        w.len() > 0,
        forall|i: int| 0 <= i < w.len() ==> #[trigger] w[i] != '"' && w[i] != '\\',
    ensures
        tokenize_spec(seq!['"'] + w + seq!['"']) == Ok::<Seq<Seq<char>>, Seq<char>>(seq![w]),
{
    let s = seq!['"'] + w + seq!['"'];
    let st1 = token_step(scan_start(), '"');
    assert(st1 == (ScanState { mode: QuoteMode::Double, ..scan_start() }));
    lemma_token_run_double(st1, w);
    let st2 = token_run(st1, w);
    assert(Seq::<char>::empty() + w =~= w);
    assert(st2.buf == w && st2.mode == QuoteMode::Double && !st2.escape && st2.parts.len() == 0);
    let st3 = token_step(st2, '"');
    assert(st3 == (ScanState { mode: QuoteMode::Unquoted, ..st2 }));
    // running the whole text
    assert(s[0] == '"');
    assert(s.drop_first() =~= w + seq!['"']);
    lemma_token_run_split(st1, w, seq!['"']);
    assert(token_run(st2, seq!['"']) == st3) by {
        let q = seq!['"'];
        assert(q[0] == '"');
        assert(q.drop_first() =~= Seq::<char>::empty());
        assert(token_run(st3, q.drop_first()) == st3);
    }
    assert(token_run(scan_start(), s) == token_run(st1, s.drop_first()));
    assert(Seq::<Seq<char>>::empty().push(w) =~= seq![w]);
}

proof fn lemma_token_run_split(st: ScanState, a: Seq<char>, b: Seq<char>)
    ensures
        token_run(st, a + b) == token_run(token_run(st, a), b),
    decreases a.len(),
{
    if a.len() == 0 {
        assert(a + b =~= b);
    } else {
        assert((a + b)[0] == a[0]);
        assert((a + b).drop_first() =~= a.drop_first() + b);
        lemma_token_run_split(token_step(st, a[0]), a.drop_first(), b);
    }
}

} // verus!
