//! Character-level text utilities shared by the parsers and renderers.
//!
//! Strings are handled as sequences of `char`; every operation here is
//! specified by a spec function over `Seq<char>`.
use vstd::prelude::*;
use vstd::std_specs::iter::IteratorSpec;

verus! {

broadcast use vstd::string::group_string_axioms;

// ---------------------------------------------------------------------------
// Specifications
// ---------------------------------------------------------------------------

/// Unicode `White_Space`, the set that `char::is_whitespace` documents.
pub open spec fn is_ws(c: char) -> bool {
    let u = c as u32;
    ||| (0x09 <= u && u <= 0x0D)
    ||| u == 0x20
    ||| u == 0x85
    ||| u == 0xA0
    ||| u == 0x1680
    ||| (0x2000 <= u && u <= 0x200A)
    ||| u == 0x2028
    ||| u == 0x2029
    ||| u == 0x202F
    ||| u == 0x205F
    ||| u == 0x3000
}

/// Number of leading whitespace characters.
pub open spec fn ws_prefix_len(s: Seq<char>) -> nat
    decreases s.len(),
{
    if s.len() > 0 && is_ws(s[0]) {
        1 + ws_prefix_len(s.drop_first())
    } else {
        0
    }
}

/// Number of trailing whitespace characters.
pub open spec fn ws_suffix_len(s: Seq<char>) -> nat
    decreases s.len(),
{
    if s.len() > 0 && is_ws(s.last()) {
        1 + ws_suffix_len(s.drop_last())
    } else {
        0
    }
}

/// `str::trim_start`.
pub open spec fn trim_start(s: Seq<char>) -> Seq<char> {
    s.skip(ws_prefix_len(s) as int)
}

/// `str::trim_end`.
pub open spec fn trim_end(s: Seq<char>) -> Seq<char> {
    s.take(s.len() - ws_suffix_len(s))
}

/// `str::trim`.
pub open spec fn trim(s: Seq<char>) -> Seq<char> {
    trim_end(trim_start(s))
}

/// `str::strip_prefix`.
pub open spec fn strip_prefix(s: Seq<char>, p: Seq<char>) -> Option<Seq<char>> {
    if p.is_prefix_of(s) {
        Some(s.skip(p.len() as int))
    } else {
        None
    }
}

/// Index of the first occurrence of `c` at or after `from`, if any.
pub open spec fn find_char_from(s: Seq<char>, c: char, from: int) -> Option<int>
    decreases s.len() - from,
{
    if from < 0 || from >= s.len() {
        None
    } else if s[from] == c {
        Some(from)
    } else {
        find_char_from(s, c, from + 1)
    }
}

/// Index of the first occurrence of `c`, if any (`str::find` with a `char`).
pub open spec fn find_char(s: Seq<char>, c: char) -> Option<int> {
    find_char_from(s, c, 0)
}

/// `str::split_once` with a `char` delimiter.
pub open spec fn split_once(s: Seq<char>, c: char) -> Option<(Seq<char>, Seq<char>)> {
    match find_char(s, c) {
        Some(i) => Some((s.take(i), s.skip(i + 1))),
        None => None,
    }
}

/// Index of the first whitespace character at or after `from`, or the length.
pub open spec fn ws_index_from(s: Seq<char>, from: int) -> int
    decreases s.len() - from,
{
    if from >= s.len() {
        s.len() as int
    } else if from >= 0 && is_ws(s[from]) {
        from
    } else {
        ws_index_from(s, from + 1)
    }
}

/// `str::split_whitespace`: the maximal runs of non-whitespace characters.
pub open spec fn tokens(s: Seq<char>) -> Seq<Seq<char>>
    decreases s.len(),
{
    let t = trim_start(s);
    if t.len() == 0 {
        Seq::empty()
    } else {
        let k = ws_index_from(t, 0);
        if 0 < k <= t.len() && t.len() <= s.len() {
            seq![t.take(k)] + tokens(t.skip(k))
        } else {
            Seq::empty()
        }
    }
}

/// Removes one trailing `'\r'`, as `strip_suffix('\r').unwrap_or(line)`.
pub open spec fn strip_cr(s: Seq<char>) -> Seq<char> {
    if s.len() > 0 && s.last() == '\r' {
        s.drop_last()
    } else {
        s
    }
}

/// `str::lines`: split on `'\n'`, drop one trailing `'\r'` from each line,
/// and do not produce a final empty line after a trailing newline.
pub open spec fn lines(s: Seq<char>) -> Seq<Seq<char>>
    decreases s.len(),
{
    if s.len() == 0 {
        Seq::empty()
    } else {
        match find_char(s, '\n') {
            Some(i) => if 0 <= i < s.len() {
                seq![strip_cr(s.take(i))] + lines(s.skip(i + 1))
            } else {
                Seq::empty()
            },
            None => seq![strip_cr(s)],
        }
    }
}

/// `str::split` with a `char` separator: every piece between separators,
/// including empty ones.
pub open spec fn split_on(s: Seq<char>, c: char) -> Seq<Seq<char>>
    decreases s.len(),
{
    match find_char(s, c) {
        Some(i) => if 0 <= i < s.len() {
            seq![s.take(i)] + split_on(s.skip(i + 1), c)
        } else {
            seq![s]
        },
        None => seq![s],
    }
}

/// The pieces joined with the separator `sep` (`[..].join(sep)`).
pub open spec fn join_with(parts: Seq<Seq<char>>, sep: char) -> Seq<char>
    decreases parts.len(),
{
    if parts.len() == 0 {
        Seq::empty()
    } else if parts.len() == 1 {
        parts[0]
    } else {
        join_with(parts.drop_last(), sep) + seq![sep] + parts.last()
    }
}

/// `char::to_ascii_lowercase`.
pub open spec fn ascii_lower(c: char) -> char {
    if 'A' <= c && c <= 'Z' {
        ((c as u32) + 32) as char
    } else {
        c
    }
}

/// `str::to_ascii_lowercase`.
pub open spec fn ascii_lower_seq(s: Seq<char>) -> Seq<char> {
    s.map_values(|c: char| ascii_lower(c))
}

/// Three-way lexicographic comparison by code point, which is the order
/// `str::cmp` gives (UTF-8 preserves code point order): -1, 0 or 1.
pub open spec fn lex_order(a: Seq<char>, b: Seq<char>) -> int
    decreases a.len(),
{
    if a.len() == 0 && b.len() == 0 {
        0
    } else if a.len() == 0 {
        -1
    } else if b.len() == 0 {
        1
    } else if a[0] < b[0] {
        -1
    } else if a[0] > b[0] {
        1
    } else {
        lex_order(a.drop_first(), b.drop_first())
    }
}

/// The decimal digit character of `d < 10`.
pub open spec fn digit_char(d: nat) -> char {
    ((d + 48) as u32) as char
}

/// The decimal representation of `n` (what `{}` prints for an unsigned integer).
pub open spec fn decimal(n: nat) -> Seq<char>
    decreases n,
{
    if n < 10 {
        seq![digit_char(n)]
    } else {
        decimal(n / 10).push(digit_char(n % 10))
    }
}

/// `n` left-padded with zeros to at least `width` characters (`{:0width$}`).
pub open spec fn zero_pad(s: Seq<char>, width: nat) -> Seq<char> {
    if s.len() >= width {
        s
    } else {
        Seq::new((width - s.len()) as nat, |i: int| '0') + s
    }
}

/// Whether `c` is an ASCII decimal digit.
pub open spec fn is_digit(c: char) -> bool {
    '0' <= c && c <= '9'
}

/// Whether `c` is ASCII alphanumeric.
pub open spec fn is_ascii_alnum(c: char) -> bool {
    ||| is_digit(c)
    ||| ('a' <= c && c <= 'z')
    ||| ('A' <= c && c <= 'Z')
}

// ---------------------------------------------------------------------------
// Lemmas
// ---------------------------------------------------------------------------

pub proof fn lemma_ws_prefix_bound(s: Seq<char>)
    ensures
        ws_prefix_len(s) <= s.len(),
        forall|i: int| 0 <= i < ws_prefix_len(s) ==> is_ws(#[trigger] s[i]),
        ws_prefix_len(s) < s.len() ==> !is_ws(s[ws_prefix_len(s) as int]),
    decreases s.len(),
{
    if s.len() > 0 && is_ws(s[0]) {
        lemma_ws_prefix_bound(s.drop_first());
        assert forall|i: int| 0 <= i < ws_prefix_len(s) implies is_ws(#[trigger] s[i]) by {
            if i > 0 {
                assert(s[i] == s.drop_first()[i - 1]);
            }
        }
    }
}

pub proof fn lemma_ws_prefix_skip(s: Seq<char>, i: int)
    requires
        0 <= i <= s.len(),
        forall|j: int| 0 <= j < i ==> is_ws(#[trigger] s[j]),
    ensures
        ws_prefix_len(s) == i + ws_prefix_len(s.skip(i)),
    decreases i,
{
    if i > 0 {
        assert(is_ws(s[0]));
        assert(s.skip(1) =~= s.drop_first());
        assert forall|j: int| 0 <= j < i - 1 implies is_ws(#[trigger] s.drop_first()[j]) by {
            assert(s.drop_first()[j] == s[j + 1]);
        }
        lemma_ws_prefix_skip(s.drop_first(), i - 1);
        assert(s.drop_first().skip(i - 1) =~= s.skip(i));
    } else {
        assert(s.skip(0) =~= s);
    }
}

pub proof fn lemma_ws_suffix_bound(s: Seq<char>)
    ensures
        ws_suffix_len(s) <= s.len(),
        forall|i: int| s.len() - ws_suffix_len(s) <= i < s.len() ==> is_ws(#[trigger] s[i]),
        ws_suffix_len(s) < s.len() ==> !is_ws(s[s.len() - ws_suffix_len(s) - 1]),
    decreases s.len(),
{
    if s.len() > 0 && is_ws(s.last()) {
        lemma_ws_suffix_bound(s.drop_last());
        assert forall|i: int| s.len() - ws_suffix_len(s) <= i < s.len() implies is_ws(
            #[trigger] s[i],
        ) by {
            if i < s.len() - 1 {
                assert(s[i] == s.drop_last()[i]);
            }
        }
    }
}

proof fn lemma_ws_suffix_take(s: Seq<char>, k: int)
    requires
        0 <= k <= s.len(),
        forall|j: int| k <= j < s.len() ==> is_ws(#[trigger] s[j]),
    ensures
        ws_suffix_len(s) == (s.len() - k) + ws_suffix_len(s.take(k)),
    decreases s.len() - k,
{
    if k < s.len() {
        assert(s.drop_last() =~= s.take(s.len() - 1));
        lemma_ws_suffix_take(s.drop_last(), k);
        assert(s.drop_last().take(k) =~= s.take(k));
    } else {
        assert(s.take(k) =~= s);
    }
}

pub proof fn lemma_find_char_from(s: Seq<char>, c: char, from: int)
    requires
        0 <= from,
    ensures
        match find_char_from(s, c, from) {
            Some(i) => from <= i < s.len() && s[i] == c && forall|j: int|
                from <= j < i ==> s[j] != c,
            None => forall|j: int| from <= j < s.len() ==> s[j] != c,
        },
    decreases s.len() - from,
{
    if from < s.len() && s[from] != c {
        lemma_find_char_from(s, c, from + 1);
    }
}

pub proof fn lemma_find_char_from_scan(s: Seq<char>, c: char, from: int, to: int)
    requires
        0 <= from <= to <= s.len(),
        forall|j: int| from <= j < to ==> s[j] != c,
    ensures
        find_char_from(s, c, from) == find_char_from(s, c, to),
    decreases to - from,
{
    if from < to {
        lemma_find_char_from_scan(s, c, from + 1, to);
    }
}

pub proof fn lemma_ws_index_from(s: Seq<char>, from: int)
    requires
        0 <= from <= s.len(),
    ensures
        from <= ws_index_from(s, from) <= s.len(),
        forall|j: int| from <= j < ws_index_from(s, from) ==> !is_ws(#[trigger] s[j]),
        ws_index_from(s, from) < s.len() ==> is_ws(s[ws_index_from(s, from)]),
    decreases s.len() - from,
{
    if from < s.len() && !is_ws(s[from]) {
        lemma_ws_index_from(s, from + 1);
    }
}

proof fn lemma_ws_index_scan(s: Seq<char>, from: int, to: int)
    requires
        0 <= from <= to <= s.len(),
        forall|j: int| from <= j < to ==> !is_ws(#[trigger] s[j]),
    ensures
        ws_index_from(s, from) == ws_index_from(s, to),
    decreases to - from,
{
    if from < to {
        lemma_ws_index_scan(s, from + 1, to);
    }
}

/// `ws_index_from` after a run of non-whitespace characters.
pub proof fn lemma_ws_index_scan_pub(s: Seq<char>, from: int, to: int)
    requires
        0 <= from <= to <= s.len(),
        forall|j: int| from <= j < to ==> !is_ws(#[trigger] s[j]),
        to < s.len() ==> is_ws(s[to]),
    ensures
        ws_index_from(s, from) == to,
{
    lemma_ws_index_scan(s, from, to);
}

proof fn lemma_lex_order_refl(a: Seq<char>)
    ensures
        lex_order(a, a) == 0,
    decreases a.len(),
{
    if a.len() > 0 {
        lemma_lex_order_refl(a.drop_first());
    }
}

/// `lex_order` is zero exactly on equal sequences.
pub proof fn lemma_lex_order_eq(a: Seq<char>, b: Seq<char>)
    ensures
        (lex_order(a, b) == 0) == (a == b),
        -1 <= lex_order(a, b) <= 1,
    decreases a.len(),
{
    if a.len() > 0 && b.len() > 0 {
        lemma_lex_order_eq(a.drop_first(), b.drop_first());
        if a == b {
            lemma_lex_order_refl(a);
        }
        if a[0] == b[0] && a.drop_first() == b.drop_first() {
            assert(a =~= seq![a[0]] + a.drop_first());
            assert(b =~= seq![b[0]] + b.drop_first());
        }
    } else if a.len() == 0 && b.len() == 0 {
        assert(a =~= b);
    }
}

/// `lex_order` is antisymmetric.
pub proof fn lemma_lex_order_antisym(a: Seq<char>, b: Seq<char>)
    ensures
        lex_order(a, b) == -lex_order(b, a),
    decreases a.len(),
{
    if a.len() > 0 && b.len() > 0 {
        lemma_lex_order_antisym(a.drop_first(), b.drop_first());
    }
}

/// `lex_order` is transitive for "less than or equal".
pub proof fn lemma_lex_order_trans(a: Seq<char>, b: Seq<char>, c: Seq<char>)
    requires
        lex_order(a, b) <= 0,
        lex_order(b, c) <= 0,
    ensures
        lex_order(a, c) <= 0,
    decreases a.len(),
{
    if a.len() > 0 && b.len() > 0 && c.len() > 0 {
        if a[0] == b[0] && b[0] == c[0] {
            lemma_lex_order_trans(a.drop_first(), b.drop_first(), c.drop_first());
        }
    }
}

// ---------------------------------------------------------------------------
// Conversions between `str`/`String` and character vectors
// ---------------------------------------------------------------------------

/// The characters of a string slice, in order.
pub fn chars_of(s: &str) -> (out: Vec<char>)
    ensures
        out@ == s@,
{
    let mut out: Vec<char> = Vec::new();
    for c in iter: s.chars()
        invariant
            out@ == iter.seq().take(iter.index() as int),
    {
        out.push(c);
    }
    assert(out@ =~= s@);
    out
}

/// `String::push`.
#[verifier::external_body]
fn push_char(s: &mut String, c: char)
    ensures
        final(s)@ == old(s)@.push(c),
{
    s.push(c);
}

/// Builds a string from a sequence of characters.
pub fn string_of(chars: &[char]) -> (out: String)
    ensures
        out@ == chars@,
{
    let mut out = String::new();
    let mut i: usize = 0;
    while i < chars.len()
        invariant
            i <= chars.len(),
            out@ == chars@.subrange(0, i as int),
        decreases chars.len() - i,
    {
        push_char(&mut out, chars[i]);
        i += 1;
        assert(chars@.subrange(0, i as int) =~= chars@.subrange(0, i - 1).push(chars@[i - 1]));
    }
    assert(out@ =~= chars@);
    out
}

/// The view of a vector of character vectors.
pub open spec fn seqs_view(v: Seq<Vec<char>>) -> Seq<Seq<char>> {
    v.map_values(|t: Vec<char>| t@)
}

/// The view of a vector of strings.
pub open spec fn strings_view(v: Seq<String>) -> Seq<Seq<char>> {
    v.map_values(|t: String| t@)
}

/// Copies a slice of characters into a fresh vector.
pub fn copy_chars(s: &[char], from: usize, to: usize) -> (out: Vec<char>)
    requires
        from <= to <= s.len(),
    ensures
        out@ == s@.subrange(from as int, to as int),
{
    let mut out: Vec<char> = Vec::new();
    let mut i = from;
    while i < to
        invariant
            from <= i <= to <= s.len(),
            out@ == s@.subrange(from as int, i as int),
        decreases to - i,
    {
        out.push(s[i]);
        i += 1;
        assert(out@ =~= s@.subrange(from as int, i as int));
    }
    out
}

/// Appends the characters of `src` to `dst`.
pub fn append_chars(dst: &mut Vec<char>, src: &[char])
    ensures
        final(dst)@ == old(dst)@ + src@,
{
    let mut i: usize = 0;
    while i < src.len()
        invariant
            i <= src.len(),
            dst@ == old(dst)@ + src@.subrange(0, i as int),
        decreases src.len() - i,
    {
        dst.push(src[i]);
        i += 1;
        assert(dst@ =~= old(dst)@ + src@.subrange(0, i as int));
    }
    assert(src@.subrange(0, src@.len() as int) =~= src@);
}

/// Appends the characters of a string literal to `dst`.
pub fn append_str(dst: &mut Vec<char>, src: &str)
    ensures
        final(dst)@ == old(dst)@ + src@,
{
    let cs = chars_of(src);
    append_chars(dst, cs.as_slice());
}

// ---------------------------------------------------------------------------
// Character predicates
// ---------------------------------------------------------------------------

/// `char::is_whitespace`.
pub fn char_is_ws(c: char) -> (r: bool)
    ensures
        r == is_ws(c),
{
    let u = c as u32;
    (0x09 <= u && u <= 0x0D) || u == 0x20 || u == 0x85 || u == 0xA0 || u == 0x1680 || (0x2000
        <= u && u <= 0x200A) || u == 0x2028 || u == 0x2029 || u == 0x202F || u == 0x205F || u
        == 0x3000
}

/// `char::to_ascii_lowercase`.
pub fn char_ascii_lower(c: char) -> (r: char)
    ensures
        r == ascii_lower(c),
{
    if 'A' <= c && c <= 'Z' {
        let u = (c as u32) + 32;
        assert(0x61 <= u <= 0x7A);
        char_from_ascii(u)
    } else {
        c
    }
}

/// Converts an ASCII code (below 128) to its character.
pub fn char_from_ascii(u: u32) -> (c: char)
    requires
        u < 128,
    ensures
        c == u as char,
        c as u32 == u,
{
    let b = u as u8;
    b as char
}

// ---------------------------------------------------------------------------
// Operations on character sequences
// ---------------------------------------------------------------------------

/// Whether two character slices are equal.
pub fn chars_eq(a: &[char], b: &[char]) -> (r: bool)
    ensures
        r == (a@ == b@),
{
    if a.len() != b.len() {
        return false;
    }
    let mut i: usize = 0;
    while i < a.len()
        invariant
            a.len() == b.len(),
            i <= a.len(),
            forall|j: int| 0 <= j < i ==> a@[j] == b@[j],
        decreases a.len() - i,
    {
        if a[i] != b[i] {
            return false;
        }
        i += 1;
    }
    assert(a@ =~= b@);
    true
}

/// Whether two string slices are equal.
pub fn str_eq(a: &str, b: &str) -> (r: bool)
    ensures
        r == (a@ == b@),
{
    let x = chars_of(a);
    let y = chars_of(b);
    chars_eq(x.as_slice(), y.as_slice())
}

/// Whether a character slice equals the characters of a string literal.
pub fn chars_eq_str(a: &[char], b: &str) -> (r: bool)
    ensures
        r == (a@ == b@),
{
    let bs = chars_of(b);
    chars_eq(a, bs.as_slice())
}

/// Whether `p` is a prefix of `s`.
pub fn starts_with(s: &[char], p: &[char]) -> (r: bool)
    ensures
        r == p@.is_prefix_of(s@),
{
    if p.len() > s.len() {
        return false;
    }
    let mut i: usize = 0;
    while i < p.len()
        invariant
            p.len() <= s.len(),
            i <= p.len(),
            forall|j: int| 0 <= j < i ==> p@[j] == s@[j],
        decreases p.len() - i,
    {
        if p[i] != s[i] {
            return false;
        }
        i += 1;
    }
    true
}

/// Whether the characters of a string literal are a prefix of `s`.
pub fn starts_with_str(s: &[char], p: &str) -> (r: bool)
    ensures
        r == p@.is_prefix_of(s@),
{
    let ps = chars_of(p);
    starts_with(s, ps.as_slice())
}

/// `str::strip_prefix` with a string-literal prefix.
pub fn strip_prefix_str(s: &[char], p: &str) -> (r: Option<Vec<char>>)
    ensures
        match r {
            Some(v) => strip_prefix(s@, p@) == Some(v@),
            None => strip_prefix(s@, p@) is None,
        },
{
    let ps = chars_of(p);
    if starts_with(s, ps.as_slice()) {
        Some(copy_chars(s, ps.len(), s.len()))
    } else {
        None
    }
}

/// `str::trim_start`.
pub fn trim_start_chars(s: &[char]) -> (out: Vec<char>)
    ensures
        out@ == trim_start(s@),
{
    let mut i: usize = 0;
    while i < s.len() && char_is_ws(s[i])
        invariant
            i <= s.len(),
            forall|j: int| 0 <= j < i ==> is_ws(#[trigger] s@[j]),
        decreases s.len() - i,
    {
        i += 1;
    }
    proof {
        lemma_ws_prefix_skip(s@, i as int);
        if i < s.len() {
            assert(s@.skip(i as int)[0] == s@[i as int]);
        }
    }
    copy_chars(s, i, s.len())
}

/// `str::trim_end`.
pub fn trim_end_chars(s: &[char]) -> (out: Vec<char>)
    ensures
        out@ == trim_end(s@),
{
    let mut k: usize = s.len();
    while k > 0 && char_is_ws(s[k - 1])
        invariant
            k <= s.len(),
            forall|j: int| k <= j < s.len() ==> is_ws(#[trigger] s@[j]),
        decreases k,
    {
        k -= 1;
    }
    proof {
        lemma_ws_suffix_take(s@, k as int);
        if k > 0 {
            assert(s@.take(k as int).last() == s@[k - 1]);
        }
    }
    copy_chars(s, 0, k)
}

/// `str::trim`.
pub fn trim_chars(s: &[char]) -> (out: Vec<char>)
    ensures
        out@ == trim(s@),
{
    let t = trim_start_chars(s);
    trim_end_chars(t.as_slice())
}

/// Index of the first `c` at or after `from`.
pub fn find_char_from_exec(s: &[char], c: char, from: usize) -> (r: Option<usize>)
    requires
        from <= s.len(),
    ensures
        match r {
            Some(i) => find_char_from(s@, c, from as int) == Some(i as int),
            None => find_char_from(s@, c, from as int) is None,
        },
        r matches Some(i) ==> from <= i < s.len() && s@[i as int] == c,
{
    let mut i = from;
    while i < s.len()
        invariant
            from <= i <= s.len(),
            forall|j: int| from <= j < i ==> s@[j] != c,
        decreases s.len() - i,
    {
        if s[i] == c {
            proof {
                lemma_find_char_from_scan(s@, c, from as int, i as int);
            }
            return Some(i);
        }
        i += 1;
    }
    proof {
        lemma_find_char_from_scan(s@, c, from as int, i as int);
    }
    None
}

/// Whether `c` occurs in `s`.
pub fn contains_char(s: &[char], c: char) -> (r: bool)
    ensures
        r == s@.contains(c),
{
    let f = find_char_from_exec(s, c, 0);
    proof {
        lemma_find_char_from(s@, c, 0);
    }
    match f {
        Some(_) => true,
        None => false,
    }
}

/// `str::split_once` with a `char` delimiter.
pub fn split_once_chars(s: &[char], c: char) -> (r: Option<(Vec<char>, Vec<char>)>)
    ensures
        match r {
            Some((a, b)) => split_once(s@, c) == Some((a@, b@)),
            None => split_once(s@, c) is None,
        },
{
    match find_char_from_exec(s, c, 0) {
        Some(i) => {
            proof {
                lemma_find_char_from(s@, c, 0);
                assert(find_char_from(s@, c, 0) == Some(i as int));
            }
            Some((copy_chars(s, 0, i), copy_chars(s, i + 1, s.len())))
        },
        None => None,
    }
}

/// `str::split_whitespace`.
pub fn tokens_exec(s: &[char]) -> (out: Vec<Vec<char>>)
    ensures
        seqs_view(out@) == tokens(s@),
{
    let mut out: Vec<Vec<char>> = Vec::new();
    let mut rest = trim_start_chars(s);
    assert(rest@.len() <= s@.len()) by {
        lemma_ws_prefix_bound(s@);
    }
    proof {
        assert(tokens(s@) == tokens(s@));
    }
    let ghost acc: Seq<Seq<char>> = Seq::empty();
    let ghost cur: Seq<char> = s@;
    while rest.len() > 0
        invariant
            rest@ == trim_start(cur),
            rest@.len() <= cur.len(),
            tokens(s@) == seqs_view(out@) + tokens(cur),
        decreases rest@.len(),
    {
        let mut k: usize = 0;
        while k < rest.len() && !char_is_ws(rest[k])
            invariant
                k <= rest.len(),
                forall|j: int| 0 <= j < k ==> !is_ws(#[trigger] rest@[j]),
            decreases rest.len() - k,
        {
            k += 1;
        }
        proof {
            lemma_ws_index_scan(rest@, 0, k as int);
            assert(ws_index_from(rest@, k as int) == k) by {
                if k < rest.len() {
                } else {
                }
            }
        }
        let tok = copy_chars(rest.as_slice(), 0, k);
        let tail = copy_chars(rest.as_slice(), k, rest.len());
        proof {
            assert(k > 0) by {
                lemma_ws_prefix_bound(cur);
                assert(rest@[0] == cur[ws_prefix_len(cur) as int]);
            }
            assert(tok@ == rest@.take(k as int));
            assert(tokens(cur) == seq![rest@.take(k as int)] + tokens(rest@.skip(k as int)));
            assert(seqs_view(out@.push(tok)) =~= seqs_view(out@).push(tok@));
        }
        out.push(tok);
        proof {
            cur = tail@;
            assert(tokens(s@) =~= seqs_view(out@) + tokens(cur));
        }
        rest = trim_start_chars(tail.as_slice());
        proof {
            lemma_ws_prefix_bound(cur);
        }
    }
    proof {
        assert(tokens(cur) =~= Seq::<Seq<char>>::empty());
        assert(seqs_view(out@) + Seq::<Seq<char>>::empty() =~= seqs_view(out@));
    }
    out
}

/// Joins character vectors with a separator.
pub fn join_chars(parts: &Vec<Vec<char>>, sep: char) -> (out: Vec<char>)
    ensures
        out@ == join_with(seqs_view(parts@), sep),
{
    let mut out: Vec<char> = Vec::new();
    let mut i: usize = 0;
    while i < parts.len()
        invariant
            i <= parts.len(),
            out@ == join_with(seqs_view(parts@).take(i as int), sep),
        decreases parts.len() - i,
    {
        let ghost before = seqs_view(parts@).take(i as int);
        if i > 0 {
            out.push(sep);
        }
        append_chars(&mut out, parts[i].as_slice());
        proof {
            let now = seqs_view(parts@).take(i + 1);
            assert(now =~= before.push(parts@[i as int]@));
            assert(now.drop_last() =~= before);
            if i == 0 {
                assert(now.len() == 1);
            }
        }
        i += 1;
    }
    proof {
        assert(seqs_view(parts@).take(i as int) =~= seqs_view(parts@));
    }
    out
}

/// `str::split` with a `char` separator.
pub fn split_chars(s: &[char], c: char) -> (out: Vec<Vec<char>>)
    ensures
        seqs_view(out@) == split_on(s@, c),
{
    let mut out: Vec<Vec<char>> = Vec::new();
    let mut start: usize = 0;
    assert(s@.skip(0) =~= s@);
    assert(seqs_view(out@) + split_on(s@, c) =~= split_on(s@, c));
    loop
        invariant
            start <= s.len(),
            split_on(s@, c) == seqs_view(out@) + split_on(s@.skip(start as int), c),
        decreases s.len() - start,
    {
        let ghost cur = s@.skip(start as int);
        let f = find_char_from_exec(s, c, start);
        proof {
            lemma_find_char_from(s@, c, start as int);
            lemma_find_char_from(cur, c, 0);
        }
        match f {
            Some(i) => {
                proof {
                    assert forall|j: int| 0 <= j < i - start implies cur[j] != c by {
                        assert(cur[j] == s@[start + j]);
                    }
                    assert(cur[i - start] == c);
                    assert(find_char(cur, c) == Some(i - start)) by {
                        lemma_find_char_from_scan(cur, c, 0, i - start);
                    }
                }
                let piece = copy_chars(s, start, i);
                proof {
                    assert(piece@ =~= cur.take(i - start));
                    assert(cur.skip(i - start + 1) =~= s@.skip(i + 1));
                    assert(seqs_view(out@.push(piece)) =~= seqs_view(out@).push(piece@));
                }
                out.push(piece);
                start = i + 1;
                proof {
                    assert(split_on(s@, c) =~= seqs_view(out@) + split_on(s@.skip(start as int), c));
                }
            },
            None => {
                proof {
                    assert forall|j: int| 0 <= j < cur.len() implies cur[j] != c by {
                        assert(cur[j] == s@[start + j]);
                    }
                    assert(find_char(cur, c) is None) by {
                        lemma_find_char_from_scan(cur, c, 0, cur.len() as int);
                    }
                }
                let piece = copy_chars(s, start, s.len());
                proof {
                    assert(piece@ =~= cur);
                    assert(seqs_view(out@.push(piece)) =~= seqs_view(out@).push(piece@));
                    assert(split_on(s@, c) =~= seqs_view(out@.push(piece)));
                }
                out.push(piece);
                return out;
            },
        }
    }
}

/// `str::lines`.
pub fn lines_exec(s: &[char]) -> (out: Vec<Vec<char>>)
    ensures
        seqs_view(out@) == lines(s@),
{
    let mut out: Vec<Vec<char>> = Vec::new();
    let mut start: usize = 0;
    assert(s@.skip(0) =~= s@);
    assert(seqs_view(out@) + lines(s@) =~= lines(s@));
    while start < s.len()
        invariant
            start <= s.len(),
            lines(s@) == seqs_view(out@) + lines(s@.skip(start as int)),
        decreases s.len() - start,
    {
        let ghost cur = s@.skip(start as int);
        let f = find_char_from_exec(s, '\n', start);
        proof {
            lemma_find_char_from(s@, '\n', start as int);
            lemma_find_char_from(cur, '\n', 0);
        }
        match f {
            Some(i) => {
                proof {
                    assert forall|j: int| 0 <= j < i - start implies cur[j] != '\n' by {
                        assert(cur[j] == s@[start + j]);
                    }
                    assert(cur[i - start] == '\n');
                    assert(find_char(cur, '\n') == Some(i - start)) by {
                        lemma_find_char_from_scan(cur, '\n', 0, i - start);
                    }
                }
                let mut end = i;
                if end > start && s[end - 1] == '\r' {
                    end = end - 1;
                }
                let line = copy_chars(s, start, end);
                proof {
                    assert(line@ =~= strip_cr(cur.take(i - start)));
                    assert(cur.skip(i - start + 1) =~= s@.skip(i + 1));
                    assert(seqs_view(out@.push(line)) =~= seqs_view(out@).push(line@));
                }
                out.push(line);
                start = i + 1;
                proof {
                    assert(lines(s@) =~= seqs_view(out@) + lines(s@.skip(start as int)));
                }
            },
            None => {
                proof {
                    assert forall|j: int| 0 <= j < cur.len() implies cur[j] != '\n' by {
                        assert(cur[j] == s@[start + j]);
                    }
                    assert(find_char(cur, '\n') is None) by {
                        lemma_find_char_from_scan(cur, '\n', 0, cur.len() as int);
                    }
                }
                let mut end = s.len();
                if end > start && s[end - 1] == '\r' {
                    end = end - 1;
                }
                let line = copy_chars(s, start, end);
                proof {
                    assert(line@ =~= strip_cr(cur));
                    assert(seqs_view(out@.push(line)) =~= seqs_view(out@).push(line@));
                    assert(s@.skip(s.len() as int) =~= Seq::<char>::empty());
                }
                out.push(line);
                start = s.len();
                proof {
                    assert(lines(s@) =~= seqs_view(out@) + lines(s@.skip(start as int)));
                }
            },
        }
    }
    proof {
        assert(s@.skip(start as int) =~= Seq::<char>::empty());
        assert(seqs_view(out@) + Seq::<Seq<char>>::empty() =~= seqs_view(out@));
    }
    out
}

/// `str::to_ascii_lowercase`.
pub fn ascii_lower_chars(s: &[char]) -> (out: Vec<char>)
    ensures
        out@ == ascii_lower_seq(s@),
{
    let mut out: Vec<char> = Vec::new();
    let mut i: usize = 0;
    while i < s.len()
        invariant
            i <= s.len(),
            out@ =~= ascii_lower_seq(s@.subrange(0, i as int)),
        decreases s.len() - i,
    {
        out.push(char_ascii_lower(s[i]));
        i += 1;
        assert(out@ =~= ascii_lower_seq(s@.subrange(0, i as int)));
    }
    assert(s@.subrange(0, s.len() as int) =~= s@);
    out
}

/// Three-way comparison by code point (`str::cmp`).
pub fn lex_order_chars(a: &[char], b: &[char]) -> (r: i8)
    ensures
        r as int == lex_order(a@, b@),
{
    let mut i: usize = 0;
    assert(a@.skip(0) =~= a@ && b@.skip(0) =~= b@);
    while i < a.len() && i < b.len()
        invariant
            i <= a.len(),
            i <= b.len(),
            lex_order(a@, b@) == lex_order(a@.skip(i as int), b@.skip(i as int)),
        decreases a.len() - i,
    {
        if a[i] < b[i] {
            return -1;
        }
        if a[i] > b[i] {
            return 1;
        }
        proof {
            assert(a@.skip(i as int).drop_first() =~= a@.skip(i + 1));
            assert(b@.skip(i as int).drop_first() =~= b@.skip(i + 1));
        }
        i += 1;
    }
    if a.len() == i && b.len() == i {
        0
    } else if a.len() == i {
        -1
    } else {
        1
    }
}

/// Decimal representation of an unsigned integer.
pub fn decimal_exec(n: u64) -> (out: Vec<char>)
    ensures
        out@ == decimal(n as nat),
    decreases n,
{
    if n < 10 {
        let mut v = Vec::new();
        v.push(char_from_ascii((n as u32) + 48));
        assert(v@ =~= seq![digit_char(n as nat)]);
        v
    } else {
        let mut v = decimal_exec(n / 10);
        v.push(char_from_ascii(((n % 10) as u32) + 48));
        v
    }
}

/// Decimal representation of a `u128`.
pub fn decimal_u128(n: u128) -> (out: Vec<char>)
    ensures
        out@ == decimal(n as nat),
    decreases n,
{
    if n < 10 {
        let mut v = Vec::new();
        v.push(char_from_ascii((n as u32) + 48));
        assert(v@ =~= seq![digit_char(n as nat)]);
        v
    } else {
        let mut v = decimal_u128(n / 10);
        v.push(char_from_ascii(((n % 10) as u32) + 48));
        v
    }
}

/// Decimal representation of a `usize`.
pub fn decimal_usize(n: usize) -> (out: Vec<char>)
    ensures
        out@ == decimal(n as nat),
{
    decimal_exec(n as u64)
}

/// Left-pads with zeros to at least `width` characters.
pub fn zero_pad_exec(s: &[char], width: usize) -> (out: Vec<char>)
    ensures
        out@ == zero_pad(s@, width as nat),
{
    if s.len() >= width {
        return copy_chars(s, 0, s.len());
    }
    let mut out: Vec<char> = Vec::new();
    let n = width - s.len();
    let mut i: usize = 0;
    while i < n
        invariant
            i <= n,
            out@ == Seq::new(i as nat, |j: int| '0'),
        decreases n - i,
    {
        out.push('0');
        i += 1;
        assert(out@ =~= Seq::new(i as nat, |j: int| '0'));
    }
    append_chars(&mut out, s);
    assert(out@ =~= zero_pad(s@, width as nat));
    out
}

} // verus!
