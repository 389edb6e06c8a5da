//! Text helpers of the tool server: classifying a failed command, masking
//! secrets in logged arguments, the tail of an error output, the totals and
//! candidates of a search listing, query keys and short identifiers.
use vstd::prelude::*;
use crate::kql::{contains_text, parse_usize, parse_usize_spec, text_contains};
use crate::text::{
    append_chars, ascii_lower_chars, ascii_lower_seq, chars_of, copy_chars, join_chars,
    join_with, lines, lines_exec, seqs_view, split_once, split_once_chars, starts_with_str,
    string_of, strings_view, strip_prefix, strip_prefix_str, trim, trim_chars, trim_end,
    trim_end_chars,
};

verus! {

/// A JSON-RPC error code.
#[derive(Clone, Copy, PartialEq, Eq, Structural, Debug)]
pub struct ErrorCode(pub i32);

// ---------------------------------------------------------------------------
// Shared pieces
// ---------------------------------------------------------------------------

/// Whether `pat` occurs in `s` once both are compared in ASCII lowercase
/// (`pat` is written in lowercase).
fn lower_has(lower: &[char], pat: &str) -> (r: bool)
    ensures
        r == contains_text(lower@, pat@),
{
    let p = chars_of(pat);
    text_contains(lower, p.as_slice())
}

fn text(s: &str) -> (r: String)
    ensures
        r@ == s@,
{
    string_of(chars_of(s).as_slice())
}

/// The pieces joined with the text `sep` between each two.
pub open spec fn join_sep(parts: Seq<Seq<char>>, sep: Seq<char>) -> Seq<char>
    decreases parts.len(),
{
    if parts.len() == 0 {
        Seq::empty()
    } else if parts.len() == 1 {
        parts[0]
    } else {
        join_sep(parts.drop_last(), sep) + sep + parts.last()
    }
}

fn join_text(parts: &Vec<Vec<char>>, sep: &[char]) -> (out: Vec<char>)
    ensures
        out@ == join_sep(seqs_view(parts@), sep@),
{
    let ghost pv = seqs_view(parts@);
    let mut out: Vec<char> = Vec::new();
    let mut i: usize = 0;
    while i < parts.len()
        invariant
            i <= parts.len(),
            pv == seqs_view(parts@),
            out@ == join_sep(pv.take(i as int), sep@),
        decreases parts.len() - i,
    {
        let ghost before = out@;
        if i > 0 {
            append_chars(&mut out, sep);
        }
        append_chars(&mut out, parts[i].as_slice());
        proof {
            let t = pv.take(i + 1);
            assert(t.drop_last() =~= pv.take(i as int));
            assert(t.last() == parts@[i as int]@);
            if i == 0 {
                assert(t.len() == 1);
                assert(before =~= Seq::<char>::empty());
            }
        }
        i += 1;
    }
    assert(pv.take(parts.len() as int) =~= pv);
    out
}

/// The index of the first occurrence of `pat` at or after `i`.
pub open spec fn find_text_from(s: Seq<char>, pat: Seq<char>, i: int) -> Option<int>
    decreases s.len() + 1 - i,
{
    if i < 0 || i + pat.len() > s.len() {
        None
    } else if s.subrange(i, i + pat.len()) == pat {
        Some(i)
    } else {
        find_text_from(s, pat, i + 1)
    }
}

/// The index of the first occurrence of `pat` in `s`.
pub fn find_text_exec(s: &[char], pat: &[char]) -> (r: Option<usize>)
    ensures
        match r {
            Some(i) => find_text_from(s@, pat@, 0) == Some(i as int) && i + pat.len() <= s.len(),
            None => find_text_from(s@, pat@, 0) is None,
        },
{
    if pat.len() > s.len() {
        return None;
    }
    if pat.len() == 0 {
        assert(s@.subrange(0, 0) =~= pat@);
        return Some(0);
    }
    let last = s.len() - pat.len();
    let mut i: usize = 0;
    while i <= last
        invariant
            last == s.len() - pat.len(),
            pat.len() > 0,
            i <= last + 1,
            find_text_from(s@, pat@, 0) == find_text_from(s@, pat@, i as int),
        decreases last + 1 - i,
    {
        let piece = copy_chars(s, i, i + pat.len());
        if crate::text::chars_eq(piece.as_slice(), pat) {
            return Some(i);
        }
        i += 1;
    }
    None
}

/// The index of the last `c` in `s`.
pub open spec fn rfind_char(s: Seq<char>, c: char) -> Option<int>
    decreases s.len(),
{
    if s.len() == 0 {
        None
    } else if s.last() == c {
        Some(s.len() - 1)
    } else {
        rfind_char(s.drop_last(), c)
    }
}

fn rfind_char_exec(s: &[char], c: char) -> (r: Option<usize>)
    ensures
        match r {
            Some(i) => rfind_char(s@, c) == Some(i as int) && i < s.len(),
            None => rfind_char(s@, c) is None,
        },
{
    let mut k: usize = s.len();
    assert(s@.take(k as int) =~= s@);
    while k > 0
        invariant
            k <= s.len(),
            rfind_char(s@, c) == rfind_char(s@.take(k as int), c),
        decreases k,
    {
        assert(s@.take(k as int).drop_last() =~= s@.take(k - 1));
        if s[k - 1] == c {
            return Some(k - 1);
        }
        k -= 1;
    }
    None
}

// ---------------------------------------------------------------------------
// Failed commands
// ---------------------------------------------------------------------------

/// Whether an error output reads as a command-line usage error.
pub open spec fn looks_like_parse_error_spec(m: Seq<char>) -> bool {
    let l = ascii_lower_seq(m);
    ||| contains_text(l, "usage:"@)
    ||| contains_text(l, "for more information, try"@)
    ||| contains_text(l, "unexpected argument"@)
    ||| contains_text(l, "unrecognized subcommand"@)
    ||| contains_text(l, "required arguments were not provided"@)
    ||| contains_text(l, "a value is required"@)
}

/// Whether an error output reads as a refused file access.
pub open spec fn looks_like_permission_error_spec(m: Seq<char>) -> bool {
    let l = ascii_lower_seq(m);
    contains_text(l, "permission denied"@) || contains_text(l, "os error 13"@)
}

/// Whether an error output reads as a command-line usage error.
pub fn looks_like_parse_error(message: &str) -> (r: bool)
    ensures
        r == looks_like_parse_error_spec(message@),
{
    let m = chars_of(message);
    let l = ascii_lower_chars(m.as_slice());
    lower_has(l.as_slice(), "usage:") || lower_has(l.as_slice(), "for more information, try")
        || lower_has(l.as_slice(), "unexpected argument") || lower_has(
        l.as_slice(),
        "unrecognized subcommand",
    ) || lower_has(l.as_slice(), "required arguments were not provided") || lower_has(
        l.as_slice(),
        "a value is required",
    )
}

/// Whether an error output reads as a refused file access.
pub fn looks_like_permission_error(message: &str) -> (r: bool)
    ensures
        r == looks_like_permission_error_spec(message@),
{
    let m = chars_of(message);
    let l = ascii_lower_chars(m.as_slice());
    lower_has(l.as_slice(), "permission denied") || lower_has(l.as_slice(), "os error 13")
}

/// The error code, message, kind and exit code of a failed command: a
/// refused access first, then a usage error, else a plain failure.
pub fn classify_kg_error(message: &str) -> (r: (ErrorCode, &'static str, &'static str, i32))
    ensures
        looks_like_permission_error_spec(message@) ==> r.0.0 == -32012 && r.1@
            == "kg command permission denied"@ && r.2@ == "permission_denied"@ && r.3 == 1,
        !looks_like_permission_error_spec(message@) && looks_like_parse_error_spec(message@)
            ==> r.0.0 == -32011 && r.1@ == "kg command parse error"@ && r.2@
            == "parse_error"@ && r.3 == 2,
        !looks_like_permission_error_spec(message@) && !looks_like_parse_error_spec(message@)
            ==> r.0.0 == -32010 && r.1@ == "kg command failed"@ && r.2@
            == "command_failed"@ && r.3 == 1,
{
    if looks_like_permission_error(message) {
        return (ErrorCode(-32012), "kg command permission denied", "permission_denied", 1);
    }
    if looks_like_parse_error(message) {
        return (ErrorCode(-32011), "kg command parse error", "parse_error", 2);
    }
    (ErrorCode(-32010), "kg command failed", "command_failed", 1)
}

/// The advice shown for a kind of failure.
pub fn error_hint(kind: &str) -> (r: &'static str)
    ensures
        kind@ == "parse_error"@ ==> r@ == "Check command syntax and required arguments."@,
        kind@ == "permission_denied"@ ==> r@ == "Verify file permissions and graph path access."@,
        kind@ != "parse_error"@ && kind@ != "permission_denied"@ ==> r@
            == "Inspect stderr_tail for details."@,
{
    proof {
        reveal_strlit("parse_error");
        reveal_strlit("permission_denied");
        assert("permission_denied"@ != "parse_error"@) by {
            assert("permission_denied"@.len() != "parse_error"@.len());
        }
    }
    if crate::text::str_eq(kind, "parse_error") {
        "Check command syntax and required arguments."
    } else if crate::text::str_eq(kind, "permission_denied") {
        "Verify file permissions and graph path access."
    } else {
        "Inspect stderr_tail for details."
    }
}

/// The last `max_lines` lines of an output, joined by newlines; an output
/// without lines gives its trimmed text, and no lines are asked for gives
/// the empty text.
pub open spec fn last_lines_spec(s: Seq<char>, max_lines: nat) -> Seq<char> {
    if max_lines == 0 {
        Seq::empty()
    } else {
        let ls = lines(s);
        if ls.len() == 0 {
            trim(s)
        } else {
            let start = if ls.len() > max_lines { ls.len() - max_lines } else { 0 };
            join_with(ls.skip(start), '\n')
        }
    }
}

/// The last `max_lines` lines of an output.
pub fn last_lines(input: &str, max_lines: usize) -> (r: String)
    ensures
        r@ == last_lines_spec(input@, max_lines as nat),
{
    if max_lines == 0 {
        return String::new();
    }
    let s = chars_of(input);
    let ls = lines_exec(s.as_slice());
    if ls.len() == 0 {
        let t = trim_chars(s.as_slice());
        return string_of(t.as_slice());
    }
    let start: usize = if ls.len() > max_lines { ls.len() - max_lines } else { 0 };
    let ghost lv = seqs_view(ls@);
    let mut tail: Vec<Vec<char>> = Vec::new();
    let mut j = start;
    while j < ls.len()
        invariant
            start <= j <= ls.len(),
            lv == seqs_view(ls@),
            seqs_view(tail@) == lv.subrange(start as int, j as int),
        decreases ls.len() - j,
    {
        let piece = copy_chars(ls[j].as_slice(), 0, ls[j].len());
        let ghost before = seqs_view(tail@);
        tail.push(piece);
        assert(ls[j as int]@.subrange(0, ls[j as int]@.len() as int) =~= ls[j as int]@);
        assert(seqs_view(tail@) =~= before.push(lv[j as int]));
        assert(lv.subrange(start as int, j + 1) =~= lv.subrange(start as int, j as int).push(
            lv[j as int],
        ));
        j += 1;
    }
    assert(lv.subrange(start as int, ls.len() as int) =~= lv.skip(start as int));
    let joined = join_chars(&tail, '\n');
    string_of(joined.as_slice())
}

// ---------------------------------------------------------------------------
// Flags and query keys
// ---------------------------------------------------------------------------

/// Whether the value of an on/off setting turns it on: `1`, `true`, `yes`
/// or `on`, in any ASCII case, around whitespace.
pub open spec fn flag_enabled_spec(raw: Seq<char>) -> bool {
    let n = ascii_lower_seq(trim(raw));
    n == "1"@ || n == "true"@ || n == "yes"@ || n == "on"@
}

/// Whether the value of an on/off setting turns it on.
pub fn flag_enabled(raw: &str) -> (r: bool)
    ensures
        r == flag_enabled_spec(raw@),
{
    let t = trim_chars(chars_of(raw).as_slice());
    let n = ascii_lower_chars(t.as_slice());
    crate::text::chars_eq_str(n.as_slice(), "1") || crate::text::chars_eq_str(n.as_slice(), "true")
        || crate::text::chars_eq_str(n.as_slice(), "yes") || crate::text::chars_eq_str(
        n.as_slice(),
        "on",
    )
}

/// The queries trimmed and in ASCII lowercase, the empty ones left out.
pub open spec fn query_key_parts(qs: Seq<Seq<char>>) -> Seq<Seq<char>>
    decreases qs.len(),
{
    if qs.len() == 0 {
        Seq::empty()
    } else {
        let k = ascii_lower_seq(trim(qs.last()));
        if k.len() > 0 {
            query_key_parts(qs.drop_last()).push(k)
        } else {
            query_key_parts(qs.drop_last())
        }
    }
}

/// The key under which feedback on a set of queries is counted: the
/// normalised queries joined by ` | `, or none when nothing is left.
pub open spec fn query_key_spec(qs: Seq<Seq<char>>) -> Option<Seq<char>> {
    let key = join_sep(query_key_parts(qs), " | "@);
    if key.len() == 0 {
        None
    } else {
        Some(key)
    }
}

/// The key under which feedback on a set of queries is counted.
pub fn normalize_query_key(queries: &[String]) -> (r: Option<String>)
    ensures
        match r {
            Some(k) => query_key_spec(strings_view(queries@)) == Some(k@),
            None => query_key_spec(strings_view(queries@)) is None,
        },
{
    let ghost qv = strings_view(queries@);
    let mut parts: Vec<Vec<char>> = Vec::new();
    let mut i: usize = 0;
    while i < queries.len()
        invariant
            i <= queries.len(),
            qv == strings_view(queries@),
            seqs_view(parts@) == query_key_parts(qv.take(i as int)),
        decreases queries.len() - i,
    {
        let t = trim_chars(chars_of(queries[i].as_str()).as_slice());
        let k = ascii_lower_chars(t.as_slice());
        proof {
            let tk = qv.take(i + 1);
            assert(tk.drop_last() =~= qv.take(i as int));
            assert(tk.last() == queries@[i as int]@);
        }
        if k.len() > 0 {
            let ghost before = seqs_view(parts@);
            parts.push(k);
            assert(seqs_view(parts@) =~= before.push(k@));
        }
        i += 1;
    }
    assert(qv.take(queries.len() as int) =~= qv);
    let sep = chars_of(" | ");
    let key = join_text(&parts, sep.as_slice());
    if key.len() == 0 {
        None
    } else {
        Some(string_of(key.as_slice()))
    }
}

// ---------------------------------------------------------------------------
// Masking secrets
// ---------------------------------------------------------------------------

/// Whether an option or setting name looks like it holds a secret.
pub open spec fn is_sensitive_key_spec(key: Seq<char>) -> bool {
    let l = ascii_lower_seq(key);
    ||| contains_text(l, "token"@)
    ||| contains_text(l, "secret"@)
    ||| contains_text(l, "password"@)
    ||| contains_text(l, "passwd"@)
    ||| "key"@.is_suffix_of(l)
    ||| contains_text(l, "api_key"@)
}

fn ends_with_key(l: &[char]) -> (r: bool)
    ensures
        r == "key"@.is_suffix_of(l@),
{
    let p = chars_of("key");
    proof {
        reveal_strlit("key");
    }
    if l.len() < 3 {
        return false;
    }
    let n = l.len();
    let tail = copy_chars(l, n - 3, n);
    let r = crate::text::chars_eq(tail.as_slice(), p.as_slice());
    proof {
        if r {
            assert forall|i: int| 0 <= i < 3 implies "key"@[i] == l@[n - 3 + i] by {
                assert(tail@[i] == l@[n - 3 + i]);
            }
        } else {
            if "key"@.is_suffix_of(l@) {
                assert(tail@ =~= p@);
            }
        }
    }
    r
}

/// Whether an option or setting name looks like it holds a secret.
pub fn is_sensitive_key(key: &[char]) -> (r: bool)
    ensures
        r == is_sensitive_key_spec(key@),
{
    let l = ascii_lower_chars(key);
    lower_has(l.as_slice(), "token") || lower_has(l.as_slice(), "secret") || lower_has(
        l.as_slice(),
        "password",
    ) || lower_has(l.as_slice(), "passwd") || ends_with_key(l.as_slice()) || lower_has(
        l.as_slice(),
        "api_key",
    )
}

/// The text before the first `=` of an argument.
pub open spec fn name_before_eq(arg: Seq<char>) -> Seq<char> {
    match split_once(arg, '=') {
        Some((name, _)) => name,
        None => arg,
    }
}

/// One argument of a logged command line, and whether the next one is to
/// be masked: after a masked one it is masked whole; `name=value` with a
/// secret name keeps the name; `--name` with a secret name masks the value
/// after `=` or, without one, the next argument.
pub open spec fn redact_step(arg: Seq<char>, mask: bool) -> (Seq<char>, bool) {
    if mask {
        ("***REDACTED***"@, false)
    } else if split_once(arg, '=') is Some && is_sensitive_key_spec(name_before_eq(arg)) {
        (name_before_eq(arg) + "=***REDACTED***"@, false)
    } else if strip_prefix(arg, "--"@) is Some && is_sensitive_key_spec(
        strip_prefix(arg, "--"@)->0,
    ) {
        if arg.contains('=') {
            ("--"@ + strip_prefix(arg, "--"@)->0 + "=***REDACTED***"@, false)
        } else {
            (arg, true)
        }
    } else {
        (arg, false)
    }
}

/// The arguments masked so far, and whether the next one is to be masked.
pub open spec fn redact_run(args: Seq<Seq<char>>) -> (Seq<Seq<char>>, bool)
    decreases args.len(),
{
    if args.len() == 0 {
        (Seq::empty(), false)
    } else {
        let (out, mask) = redact_run(args.drop_last());
        let (x, next) = redact_step(args.last(), mask);
        (out.push(x), next)
    }
}

/// A command line with the values of secret-looking options masked.
pub fn redact_cli_args(args: &[String]) -> (r: Vec<String>)
    ensures
        strings_view(r@) == redact_run(strings_view(args@)).0,
{
    let ghost av = strings_view(args@);
    let mut out: Vec<String> = Vec::new();
    let mut mask_next = false;
    let mut i: usize = 0;
    while i < args.len()
        invariant
            i <= args.len(),
            av == strings_view(args@),
            (strings_view(out@), mask_next) == redact_run(av.take(i as int)),
        decreases args.len() - i,
    {
        let arg = chars_of(args[i].as_str());
        proof {
            let tk = av.take(i + 1);
            assert(tk.drop_last() =~= av.take(i as int));
            assert(tk.last() == arg@);
        }
        let ghost before = strings_view(out@);
        let ghost mask = mask_next;
        let piece: Vec<char>;
        if mask_next {
            piece = chars_of("***REDACTED***");
            mask_next = false;
        } else {
            let mut done = false;
            let mut p: Vec<char> = Vec::new();
            match split_once_chars(arg.as_slice(), '=') {
                Some((key, _value)) => {
                    if is_sensitive_key(key.as_slice()) {
                        p = key;
                        let suffix = chars_of("=***REDACTED***");
                        append_chars(&mut p, suffix.as_slice());
                        done = true;
                    }
                },
                None => {},
            }
            if !done {
                match strip_prefix_str(arg.as_slice(), "--") {
                    Some(key) => {
                        if is_sensitive_key(key.as_slice()) {
                            if crate::text::contains_char(arg.as_slice(), '=') {
                                p = chars_of("--");
                                append_chars(&mut p, key.as_slice());
                                let suffix = chars_of("=***REDACTED***");
                                append_chars(&mut p, suffix.as_slice());
                            } else {
                                p = copy_chars(arg.as_slice(), 0, arg.len());
                                mask_next = true;
                            }
                            done = true;
                        }
                    },
                    None => {},
                }
            }
            if !done {
                p = copy_chars(arg.as_slice(), 0, arg.len());
            }
            assert(arg@.subrange(0, arg@.len() as int) =~= arg@);
            piece = p;
        }
        assert((piece@, mask_next) == redact_step(arg@, mask));
        let s = string_of(piece.as_slice());
        out.push(s);
        assert(strings_view(out@) =~= before.push(piece@));
        i += 1;
    }
    assert(av.take(args.len() as int) =~= av);
    out
}

// ---------------------------------------------------------------------------
// Short identifiers
// ---------------------------------------------------------------------------

/// The base-36 digit of `d < 36`: `0`-`9`, then `a`-`z`.
pub open spec fn base36_digit(d: nat) -> char {
    if d < 10 {
        ((d + 48) as u32) as char
    } else {
        ((d - 10 + 97) as u32) as char
    }
}

/// `n` written in base 36 with lowercase digits.
pub open spec fn base36(n: nat) -> Seq<char>
    decreases n,
{
    if n < 36 {
        seq![base36_digit(n)]
    } else {
        base36(n / 36).push(base36_digit(n % 36))
    }
}

fn base36_digit_exec(d: u64) -> (c: char)
    requires
        d < 36,
    ensures
        c == base36_digit(d as nat),
{
    if d < 10 {
        crate::text::char_from_ascii((d + 48) as u32)
    } else {
        crate::text::char_from_ascii((d - 10 + 97) as u32)
    }
}

fn base36_chars(n: u64) -> (out: Vec<char>)
    ensures
        out@ == base36(n as nat),
    decreases n,
{
    if n < 36 {
        let mut v: Vec<char> = Vec::new();
        v.push(base36_digit_exec(n));
        assert(v@ =~= seq![base36_digit(n as nat)]);
        v
    } else {
        let mut v = base36_chars(n / 36);
        v.push(base36_digit_exec(n % 36));
        v
    }
}

/// `n` in base 36 with lowercase digits (`0` for zero).
pub fn to_base36(n: u64) -> (r: String)
    ensures
        r@ == base36(n as nat),
{
    let v = base36_chars(n);
    string_of(v.as_slice())
}

// ---------------------------------------------------------------------------
// Search listings
// ---------------------------------------------------------------------------

/// The number of results a header line `? query (N)` or `? query
/// (shown/total)` announces: the total.
pub open spec fn header_total(line: Seq<char>) -> Option<usize> {
    let l = trim_end(line);
    if !"? "@.is_prefix_of(l) {
        None
    } else {
        match (rfind_char(l, '('), rfind_char(l, ')')) {
            (Some(open), Some(close)) => if close <= open + 1 {
                None
            } else {
                let inside = l.subrange(open + 1, close);
                match split_once(inside, '/') {
                    Some((_, total)) => parse_usize_spec(trim(total)),
                    None => parse_usize_spec(trim(inside)),
                }
            },
            _ => None,
        }
    }
}

/// The sum of the totals of the header lines (saturating), and whether any
/// line was a header with a total.
pub open spec fn totals_run(ls: Seq<Seq<char>>) -> (usize, bool)
    decreases ls.len(),
{
    if ls.len() == 0 {
        (0, false)
    } else {
        let (t, any) = totals_run(ls.drop_last());
        match header_total(ls.last()) {
            Some(n) => (if t + n > usize::MAX {
                usize::MAX
            } else {
                (t + n) as usize
            }, true),
            None => (t, any),
        }
    }
}

/// The total number of results a search listing announces in its query
/// headers, or `None` when it has no such header.
pub open spec fn find_total_spec(s: Seq<char>) -> Option<usize> {
    let (t, any) = totals_run(lines(s));
    if any {
        Some(t)
    } else {
        None
    }
}

fn header_total_exec(line: &[char]) -> (r: Option<usize>)
    ensures
        r == header_total(line@),
{
    let l = trim_end_chars(line);
    if !starts_with_str(l.as_slice(), "? ") {
        return None;
    }
    let open = match rfind_char_exec(l.as_slice(), '(') {
        Some(v) => v,
        None => return None,
    };
    let close = match rfind_char_exec(l.as_slice(), ')') {
        Some(v) => v,
        None => return None,
    };
    if close <= open + 1 {
        return None;
    }
    let inside = copy_chars(l.as_slice(), open + 1, close);
    match split_once_chars(inside.as_slice(), '/') {
        Some((_, total)) => {
            let t = trim_chars(total.as_slice());
            parse_usize(t.as_slice())
        },
        None => {
            let t = trim_chars(inside.as_slice());
            parse_usize(t.as_slice())
        },
    }
}

/// The total number of results a search listing announces in its query
/// headers (`? query (N)` or `? query (shown/total)`), summed.
pub fn parse_find_total_results(rendered: &str) -> (r: Option<usize>)
    ensures
        r == find_total_spec(rendered@),
{
    let s = chars_of(rendered);
    let ls = lines_exec(s.as_slice());
    let ghost lv = seqs_view(ls@);
    let mut total: usize = 0;
    let mut any = false;
    let mut i: usize = 0;
    while i < ls.len()
        invariant
            i <= ls.len(),
            lv == seqs_view(ls@),
            lv == lines(rendered@),
            (total, any) == totals_run(lv.take(i as int)),
        decreases ls.len() - i,
    {
        proof {
            let tk = lv.take(i + 1);
            assert(tk.drop_last() =~= lv.take(i as int));
            assert(tk.last() == ls@[i as int]@);
        }
        match header_total_exec(ls[i].as_slice()) {
            Some(n) => {
                total = total.saturating_add(n);
                any = true;
            },
            None => {},
        }
        i += 1;
    }
    assert(lv.take(ls.len() as int) =~= lv);
    if any {
        Some(total)
    } else {
        None
    }
}

/// The node id a result line `# <id> | <name> [<type>]` lists.
pub open spec fn result_line_id(line: Seq<char>) -> Option<Seq<char>> {
    let l = trim_end(line);
    match strip_prefix(l, "# "@) {
        Some(rest) => match find_text_from(rest, " | "@, 0) {
            Some(i) => if 0 <= i <= rest.len() && trim(rest.take(i)).len() > 0 {
                Some(trim(rest.take(i)))
            } else {
                None
            },
            None => None,
        },
        None => None,
    }
}

/// The ids of the result lines, in order.
pub open spec fn candidate_ids_run(ls: Seq<Seq<char>>) -> Seq<Seq<char>>
    decreases ls.len(),
{
    if ls.len() == 0 {
        Seq::empty()
    } else {
        match result_line_id(ls.last()) {
            Some(id) => candidate_ids_run(ls.drop_last()).push(id),
            None => candidate_ids_run(ls.drop_last()),
        }
    }
}

fn result_line_id_exec(line: &[char]) -> (r: Option<Vec<char>>)
    ensures
        match r {
            Some(id) => result_line_id(line@) == Some(id@),
            None => result_line_id(line@) is None,
        },
{
    let l = trim_end_chars(line);
    match strip_prefix_str(l.as_slice(), "# ") {
        Some(rest) => {
            let sep = chars_of(" | ");
            match find_text_exec(rest.as_slice(), sep.as_slice()) {
                Some(i) => {
                    let head = copy_chars(rest.as_slice(), 0, i);
                    assert(head@ =~= rest@.take(i as int));
                    let id = trim_chars(head.as_slice());
                    if id.len() > 0 {
                        Some(id)
                    } else {
                        None
                    }
                },
                None => None,
            }
        },
        None => None,
    }
}

/// The node ids of the result lines of a search listing, in order.
pub fn parse_find_candidate_ids(rendered: &str) -> (r: Vec<String>)
    ensures
        strings_view(r@) == candidate_ids_run(lines(rendered@)),
{
    let s = chars_of(rendered);
    let ls = lines_exec(s.as_slice());
    let ghost lv = seqs_view(ls@);
    let mut ids: Vec<String> = Vec::new();
    let mut i: usize = 0;
    while i < ls.len()
        invariant
            i <= ls.len(),
            lv == seqs_view(ls@),
            strings_view(ids@) == candidate_ids_run(lv.take(i as int)),
        decreases ls.len() - i,
    {
        proof {
            let tk = lv.take(i + 1);
            assert(tk.drop_last() =~= lv.take(i as int));
            assert(tk.last() == ls@[i as int]@);
        }
        match result_line_id_exec(ls[i].as_slice()) {
            Some(id) => {
                let ghost before = strings_view(ids@);
                let sid = string_of(id.as_slice());
                ids.push(sid);
                assert(strings_view(ids@) =~= before.push(id@));
            },
            None => {},
        }
        i += 1;
    }
    assert(lv.take(ls.len() as int) =~= lv);
    ids
}

/// Masking keeps one argument for each argument.
pub proof fn law_redaction_keeps_argument_count(args: Seq<Seq<char>>)
    ensures
        redact_run(args).0.len() == args.len(),
    decreases args.len(),
{
    if args.len() > 0 {
        law_redaction_keeps_argument_count(args.drop_last());
    }
}

/// An argument list without secret-looking names is logged unchanged.
pub proof fn law_redaction_without_secrets_is_identity(args: Seq<Seq<char>>)
    requires
        forall|i: int| 0 <= i < args.len() ==> {
            &&& (split_once(#[trigger] args[i], '=') is Some ==> !is_sensitive_key_spec(name_before_eq(args[i])))
            &&& (strip_prefix(args[i], "--"@) is Some ==> !is_sensitive_key_spec(strip_prefix(args[i], "--"@)->0))
        },
    ensures
        redact_run(args) == (args, false),
    decreases args.len(),
{
    if args.len() > 0 {
        let init = args.drop_last();
        assert forall|i: int| 0 <= i < init.len() implies {
            &&& (split_once(#[trigger] init[i], '=') is Some ==> !is_sensitive_key_spec(name_before_eq(init[i])))
            &&& (strip_prefix(init[i], "--"@) is Some ==> !is_sensitive_key_spec(strip_prefix(init[i], "--"@)->0))
        } by {
            assert(init[i] == args[i]);
        }
        law_redaction_without_secrets_is_identity(init);
        let last = args[args.len() - 1];
        assert(redact_step(last, false) == (last, false));
        assert(init.push(last) =~= args);
    }
}

} // verus!
