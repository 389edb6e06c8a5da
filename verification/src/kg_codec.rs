//! Token-level encoding of the `.kg` text format: node type and relation
//! codes, text escaping, timestamps and numeric literals.
use vstd::prelude::*;
use crate::text::{
    append_chars, ascii_lower_chars, ascii_lower_seq, chars_eq, chars_eq_str, chars_of, copy_chars,
    is_digit, strip_prefix,
};

verus! {

broadcast use vstd::string::group_string_axioms;

// ---------------------------------------------------------------------------
// Node type codes
// ---------------------------------------------------------------------------

/// The one-letter code of a well-known node type; other types map to themselves.
pub open spec fn node_type_code(t: Seq<char>) -> Seq<char> {
    if t == "Feature"@ { "F"@ }
    else if t == "Concept"@ { "K"@ }
    else if t == "Interface"@ { "I"@ }
    else if t == "Process"@ { "P"@ }
    else if t == "DataStore"@ { "D"@ }
    else if t == "Attribute"@ { "A"@ }
    else if t == "Entity"@ { "Y"@ }
    else if t == "Note"@ { "N"@ }
    else if t == "Rule"@ { "R"@ }
    else if t == "Convention"@ { "C"@ }
    else if t == "Bug"@ { "B"@ }
    else if t == "Decision"@ { "Z"@ }
    else if t == "OpenQuestion"@ { "O"@ }
    else if t == "Claim"@ { "Q"@ }
    else if t == "Insight"@ { "W"@ }
    else if t == "Reference"@ { "M"@ }
    else if t == "Term"@ { "T"@ }
    else if t == "Status"@ { "S"@ }
    else if t == "Doubt"@ { "L"@ }
    else { t }
}

/// Whether a token is the single character `ch`.
pub open spec fn is_code(c: Seq<char>, ch: char) -> bool {
    c.len() == 1 && c[0] == ch
}

/// The node type of a one-letter code; other tokens map to themselves.
pub open spec fn code_node_type(c: Seq<char>) -> Seq<char> {
    if is_code(c, 'F') { "Feature"@ }
    else if is_code(c, 'K') { "Concept"@ }
    else if is_code(c, 'I') { "Interface"@ }
    else if is_code(c, 'P') { "Process"@ }
    else if is_code(c, 'D') { "DataStore"@ }
    else if is_code(c, 'A') { "Attribute"@ }
    else if is_code(c, 'Y') { "Entity"@ }
    else if is_code(c, 'N') { "Note"@ }
    else if is_code(c, 'R') { "Rule"@ }
    else if is_code(c, 'C') { "Convention"@ }
    else if is_code(c, 'B') { "Bug"@ }
    else if is_code(c, 'Z') { "Decision"@ }
    else if is_code(c, 'O') { "OpenQuestion"@ }
    else if is_code(c, 'Q') { "Claim"@ }
    else if is_code(c, 'W') { "Insight"@ }
    else if is_code(c, 'M') { "Reference"@ }
    else if is_code(c, 'T') { "Term"@ }
    else if is_code(c, 'S') { "Status"@ }
    else if is_code(c, 'L') { "Doubt"@ }
    else { c }
}

/// The token written for a node type in a node header.
pub open spec fn encode_type_token(t: Seq<char>) -> Seq<char> {
    let code = node_type_code(t);
    if code != t {
        code
    } else if code_node_type(t) != t {
        seq!['='] + t
    } else {
        t
    }
}

/// The node type read back from a node header token.
pub open spec fn decode_type_token(token: Seq<char>) -> Seq<char> {
    match strip_prefix(token, seq!['=']) {
        Some(rest) => rest,
        None => code_node_type(token),
    }
}

/// The one-letter code of a node type, or the type itself when it has none.
pub fn node_type_to_code(t: &[char]) -> (r: Vec<char>)
    ensures
        r@ == node_type_code(t@),
{
    if chars_eq_str(t, "Feature") { chars_of("F") }
    else if chars_eq_str(t, "Concept") { chars_of("K") }
    else if chars_eq_str(t, "Interface") { chars_of("I") }
    else if chars_eq_str(t, "Process") { chars_of("P") }
    else if chars_eq_str(t, "DataStore") { chars_of("D") }
    else if chars_eq_str(t, "Attribute") { chars_of("A") }
    else if chars_eq_str(t, "Entity") { chars_of("Y") }
    else if chars_eq_str(t, "Note") { chars_of("N") }
    else if chars_eq_str(t, "Rule") { chars_of("R") }
    else if chars_eq_str(t, "Convention") { chars_of("C") }
    else if chars_eq_str(t, "Bug") { chars_of("B") }
    else if chars_eq_str(t, "Decision") { chars_of("Z") }
    else if chars_eq_str(t, "OpenQuestion") { chars_of("O") }
    else if chars_eq_str(t, "Claim") { chars_of("Q") }
    else if chars_eq_str(t, "Insight") { chars_of("W") }
    else if chars_eq_str(t, "Reference") { chars_of("M") }
    else if chars_eq_str(t, "Term") { chars_of("T") }
    else if chars_eq_str(t, "Status") { chars_of("S") }
    else if chars_eq_str(t, "Doubt") { chars_of("L") }
    else { copy_chars(t, 0, t.len()) }
}

/// The node type a code stands for, or the code itself when it names none.
pub fn code_to_node_type(c: &[char]) -> (r: Vec<char>)
    ensures
        r@ == code_node_type(c@),
{
    if (c.len() == 1 && c[0] == 'F') { chars_of("Feature") }
    else if (c.len() == 1 && c[0] == 'K') { chars_of("Concept") }
    else if (c.len() == 1 && c[0] == 'I') { chars_of("Interface") }
    else if (c.len() == 1 && c[0] == 'P') { chars_of("Process") }
    else if (c.len() == 1 && c[0] == 'D') { chars_of("DataStore") }
    else if (c.len() == 1 && c[0] == 'A') { chars_of("Attribute") }
    else if (c.len() == 1 && c[0] == 'Y') { chars_of("Entity") }
    else if (c.len() == 1 && c[0] == 'N') { chars_of("Note") }
    else if (c.len() == 1 && c[0] == 'R') { chars_of("Rule") }
    else if (c.len() == 1 && c[0] == 'C') { chars_of("Convention") }
    else if (c.len() == 1 && c[0] == 'B') { chars_of("Bug") }
    else if (c.len() == 1 && c[0] == 'Z') { chars_of("Decision") }
    else if (c.len() == 1 && c[0] == 'O') { chars_of("OpenQuestion") }
    else if (c.len() == 1 && c[0] == 'Q') { chars_of("Claim") }
    else if (c.len() == 1 && c[0] == 'W') { chars_of("Insight") }
    else if (c.len() == 1 && c[0] == 'M') { chars_of("Reference") }
    else if (c.len() == 1 && c[0] == 'T') { chars_of("Term") }
    else if (c.len() == 1 && c[0] == 'S') { chars_of("Status") }
    else if (c.len() == 1 && c[0] == 'L') { chars_of("Doubt") }
    else { copy_chars(c, 0, c.len()) }
}

/// How a node type is written in a node header.
pub fn encode_node_type_token(t: &[char]) -> (r: Vec<char>)
    ensures
        r@ == encode_type_token(t@),
{
    let code = node_type_to_code(t);
    if !chars_eq(code.as_slice(), t) {
        return code;
    }
    let back = code_to_node_type(t);
    if !chars_eq(back.as_slice(), t) {
        let mut out: Vec<char> = Vec::new();
        out.push('=');
        append_chars(&mut out, t);
        assert(out@ =~= seq!['='] + t@);
        out
    } else {
        copy_chars(t, 0, t.len())
    }
}

/// The node type a header token stands for.
pub fn decode_node_type_token(token: &[char]) -> (r: Vec<char>)
    ensures
        r@ == decode_type_token(token@),
{
    if token.len() > 0 && token[0] == '=' {
        assert(seq!['='].is_prefix_of(token@));
        copy_chars(token, 1, token.len())
    } else {
        assert(!seq!['='].is_prefix_of(token@)) by {
            if token.len() > 0 {
                assert(seq!['='][0] == '=');
            }
        }
        code_to_node_type(token)
    }
}

// ---------------------------------------------------------------------------
// Relation codes
// ---------------------------------------------------------------------------

/// The one-letter code of a relation (aliases share a code); others map to themselves.
pub open spec fn relation_code(r: Seq<char>) -> Seq<char> {
    if r == "DOCUMENTED_IN"@ || r == "DOCUMENTS"@ { "D"@ }
    else if r == "HAS"@ { "H"@ }
    else if r == "TRIGGERS"@ { "T"@ }
    else if r == "AFFECTED_BY"@ || r == "AFFECTS"@ { "A"@ }
    else if r == "READS_FROM"@ || r == "READS"@ { "R"@ }
    else if r == "GOVERNED_BY"@ || r == "GOVERNS"@ { "G"@ }
    else if r == "DEPENDS_ON"@ { "O"@ }
    else if r == "AVAILABLE_IN"@ { "I"@ }
    else if r == "SUPPORTS"@ { "S"@ }
    else if r == "SUMMARIZES"@ { "U"@ }
    else if r == "RELATED_TO"@ { "L"@ }
    else if r == "CONTRADICTS"@ { "V"@ }
    else if r == "CREATED_BY"@ || r == "CREATES"@ { "C"@ }
    else { r }
}

/// The relation of a one-letter code; other tokens map to themselves.
pub open spec fn code_relation(c: Seq<char>) -> Seq<char> {
    if is_code(c, 'D') { "DOCUMENTED_IN"@ }
    else if is_code(c, 'H') { "HAS"@ }
    else if is_code(c, 'T') { "TRIGGERS"@ }
    else if is_code(c, 'A') { "AFFECTED_BY"@ }
    else if is_code(c, 'R') { "READS_FROM"@ }
    else if is_code(c, 'G') { "GOVERNED_BY"@ }
    else if is_code(c, 'O') { "DEPENDS_ON"@ }
    else if is_code(c, 'I') { "AVAILABLE_IN"@ }
    else if is_code(c, 'S') { "SUPPORTS"@ }
    else if is_code(c, 'U') { "SUMMARIZES"@ }
    else if is_code(c, 'L') { "RELATED_TO"@ }
    else if is_code(c, 'V') { "CONTRADICTS"@ }
    else if is_code(c, 'C') { "CREATED_BY"@ }
    else { c }
}

/// The short code of a relation, or the relation itself when it has none.
pub fn relation_to_code(r: &[char]) -> (out: Vec<char>)
    ensures
        out@ == relation_code(r@),
{
    if chars_eq_str(r, "DOCUMENTED_IN") || chars_eq_str(r, "DOCUMENTS") { chars_of("D") }
    else if chars_eq_str(r, "HAS") { chars_of("H") }
    else if chars_eq_str(r, "TRIGGERS") { chars_of("T") }
    else if chars_eq_str(r, "AFFECTED_BY") || chars_eq_str(r, "AFFECTS") { chars_of("A") }
    else if chars_eq_str(r, "READS_FROM") || chars_eq_str(r, "READS") { chars_of("R") }
    else if chars_eq_str(r, "GOVERNED_BY") || chars_eq_str(r, "GOVERNS") { chars_of("G") }
    else if chars_eq_str(r, "DEPENDS_ON") { chars_of("O") }
    else if chars_eq_str(r, "AVAILABLE_IN") { chars_of("I") }
    else if chars_eq_str(r, "SUPPORTS") { chars_of("S") }
    else if chars_eq_str(r, "SUMMARIZES") { chars_of("U") }
    else if chars_eq_str(r, "RELATED_TO") { chars_of("L") }
    else if chars_eq_str(r, "CONTRADICTS") { chars_of("V") }
    else if chars_eq_str(r, "CREATED_BY") || chars_eq_str(r, "CREATES") { chars_of("C") }
    else { copy_chars(r, 0, r.len()) }
}

/// The relation a short code stands for, or the code itself when it names none.
pub fn code_to_relation(c: &[char]) -> (out: Vec<char>)
    ensures
        out@ == code_relation(c@),
{
    if (c.len() == 1 && c[0] == 'D') { chars_of("DOCUMENTED_IN") }
    else if (c.len() == 1 && c[0] == 'H') { chars_of("HAS") }
    else if (c.len() == 1 && c[0] == 'T') { chars_of("TRIGGERS") }
    else if (c.len() == 1 && c[0] == 'A') { chars_of("AFFECTED_BY") }
    else if (c.len() == 1 && c[0] == 'R') { chars_of("READS_FROM") }
    else if (c.len() == 1 && c[0] == 'G') { chars_of("GOVERNED_BY") }
    else if (c.len() == 1 && c[0] == 'O') { chars_of("DEPENDS_ON") }
    else if (c.len() == 1 && c[0] == 'I') { chars_of("AVAILABLE_IN") }
    else if (c.len() == 1 && c[0] == 'S') { chars_of("SUPPORTS") }
    else if (c.len() == 1 && c[0] == 'U') { chars_of("SUMMARIZES") }
    else if (c.len() == 1 && c[0] == 'L') { chars_of("RELATED_TO") }
    else if (c.len() == 1 && c[0] == 'V') { chars_of("CONTRADICTS") }
    else if (c.len() == 1 && c[0] == 'C') { chars_of("CREATED_BY") }
    else { copy_chars(c, 0, c.len()) }
}

// ---------------------------------------------------------------------------
// Text escaping
// ---------------------------------------------------------------------------

/// The escaped form of one character in a text field.
pub open spec fn escape_char(c: char) -> Seq<char> {
    if c == '\\' {
        seq!['\\', '\\']
    } else if c == '\n' {
        seq!['\\', 'n']
    } else if c == '\r' {
        seq!['\\', 'r']
    } else {
        seq![c]
    }
}

/// Backslash, newline and carriage return become two-character escapes.
pub open spec fn escape_text(s: Seq<char>) -> Seq<char>
    decreases s.len(),
{
    if s.len() == 0 {
        Seq::empty()
    } else {
        escape_char(s[0]) + escape_text(s.drop_first())
    }
}

/// `\n`, `\r` and `\\` are decoded; any other backslash is kept.
pub open spec fn decode_text(s: Seq<char>) -> Seq<char>
    decreases s.len(),
{
    if s.len() == 0 {
        Seq::empty()
    } else if s[0] != '\\' {
        seq![s[0]] + decode_text(s.drop_first())
    } else if s.len() == 1 {
        seq!['\\']
    } else if s[1] == 'n' {
        seq!['\n'] + decode_text(s.skip(2))
    } else if s[1] == 'r' {
        seq!['\r'] + decode_text(s.skip(2))
    } else if s[1] == '\\' {
        seq!['\\'] + decode_text(s.skip(2))
    } else {
        seq!['\\', s[1]] + decode_text(s.skip(2))
    }
}

/// The text with backslash, newline and carriage return escaped.
pub fn escape_kg_text(s: &[char]) -> (out: Vec<char>)
    ensures
        out@ == escape_text(s@),
{
    let mut out: Vec<char> = Vec::new();
    let mut i: usize = 0;
    assert(s@.skip(0) =~= s@);
    while i < s.len()
        invariant
            i <= s.len(),
            escape_text(s@) == out@ + escape_text(s@.skip(i as int)),
        decreases s.len() - i,
    {
        let c = s[i];
        let ghost before = out@;
        if c == '\\' {
            out.push('\\');
            out.push('\\');
        } else if c == '\n' {
            out.push('\\');
            out.push('n');
        } else if c == '\r' {
            out.push('\\');
            out.push('r');
        } else {
            out.push(c);
        }
        proof {
            assert(out@ =~= before + escape_char(c));
            assert(s@.skip(i as int).drop_first() =~= s@.skip(i + 1));
            assert(escape_text(s@.skip(i as int)) == escape_char(c) + escape_text(s@.skip(i + 1)));
            assert(escape_text(s@) =~= out@ + escape_text(s@.skip(i + 1)));
        }
        i += 1;
    }
    assert(s@.skip(i as int) =~= Seq::<char>::empty());
    assert(out@ + Seq::<char>::empty() =~= out@);
    out
}

/// The text with its escapes decoded.
pub fn decode_kg_text(s: &[char]) -> (out: Vec<char>)
    ensures
        out@ == decode_text(s@),
{
    let mut out: Vec<char> = Vec::new();
    let mut i: usize = 0;
    assert(s@.skip(0) =~= s@);
    while i < s.len()
        invariant
            i <= s.len(),
            decode_text(s@) == out@ + decode_text(s@.skip(i as int)),
        decreases s.len() - i,
    {
        let ghost rest = s@.skip(i as int);
        let ghost before = out@;
        let c = s[i];
        if c != '\\' {
            out.push(c);
            proof {
                assert(rest.drop_first() =~= s@.skip(i + 1));
                assert(decode_text(s@) =~= out@ + decode_text(s@.skip(i + 1)));
            }
            i += 1;
        } else if i + 1 == s.len() {
            out.push('\\');
            proof {
                assert(decode_text(rest) == seq!['\\']);
                assert(s@.skip(i + 1) =~= Seq::<char>::empty());
                assert(decode_text(s@) =~= out@ + decode_text(s@.skip(i + 1)));
            }
            i += 1;
        } else {
            let d = s[i + 1];
            if d == 'n' {
                out.push('\n');
            } else if d == 'r' {
                out.push('\r');
            } else if d == '\\' {
                out.push('\\');
            } else {
                out.push('\\');
                out.push(d);
            }
            proof {
                assert(rest[1] == d);
                assert(rest.skip(2) =~= s@.skip(i + 2));
                assert(decode_text(s@) =~= out@ + decode_text(s@.skip(i + 2)));
            }
            i += 2;
        }
    }
    assert(s@.skip(i as int) =~= Seq::<char>::empty());
    assert(out@ + Seq::<char>::empty() =~= out@);
    out
}

// ---------------------------------------------------------------------------
// Timestamps and numbers
// ---------------------------------------------------------------------------

/// Value of a two-digit decimal field at `i`.
pub open spec fn two_digits(s: Seq<char>, i: int) -> int {
    (s[i] as int - 48) * 10 + (s[i + 1] as int - 48)
}

/// `YYYY-MM-DDTHH:MM:SSZ` with month 1..=12, day
/// 1..=31, hour 0..=23, minute and second 0..=59.
pub open spec fn is_utc_timestamp(s: Seq<char>) -> bool {
    &&& s.len() == 20
    &&& is_digit(s[0]) && is_digit(s[1]) && is_digit(s[2]) && is_digit(s[3])
    &&& s[4] == '-'
    &&& is_digit(s[5]) && is_digit(s[6])
    &&& s[7] == '-'
    &&& is_digit(s[8]) && is_digit(s[9])
    &&& s[10] == 'T'
    &&& is_digit(s[11]) && is_digit(s[12])
    &&& s[13] == ':'
    &&& is_digit(s[14]) && is_digit(s[15])
    &&& s[16] == ':'
    &&& is_digit(s[17]) && is_digit(s[18])
    &&& s[19] == 'Z'
    &&& 1 <= two_digits(s, 5) <= 12
    &&& 1 <= two_digits(s, 8) <= 31
    &&& 0 <= two_digits(s, 11) <= 23
    &&& 0 <= two_digits(s, 14) <= 59
    &&& 0 <= two_digits(s, 17) <= 59
}

fn digit_at(s: &[char], i: usize) -> (r: bool)
    requires
        i < s.len(),
    ensures
        r == is_digit(s@[i as int]),
{
    '0' <= s[i] && s[i] <= '9'
}

fn two_digits_exec(s: &[char], i: usize) -> (r: u32)
    requires
        i + 1 < s.len(),
        is_digit(s@[i as int]),
        is_digit(s@[i + 1]),
    ensures
        r as int == two_digits(s@, i as int),
{
    ((s[i] as u32) - 48) * 10 + ((s[i + 1] as u32) - 48)
}

/// Whether the text is a UTC timestamp of the form `YYYY-MM-DDTHH:MM:SSZ`.
pub fn parse_utc_timestamp(s: &[char]) -> (r: bool)
    ensures
        r == is_utc_timestamp(s@),
{
    if s.len() != 20 {
        return false;
    }
    if !(digit_at(s, 0) && digit_at(s, 1) && digit_at(s, 2) && digit_at(s, 3) && s[4] == '-'
        && digit_at(s, 5) && digit_at(s, 6) && s[7] == '-' && digit_at(s, 8) && digit_at(s, 9)
        && s[10] == 'T' && digit_at(s, 11) && digit_at(s, 12) && s[13] == ':' && digit_at(s, 14)
        && digit_at(s, 15) && s[16] == ':' && digit_at(s, 17) && digit_at(s, 18) && s[19]
        == 'Z') {
        return false;
    }
    let month = two_digits_exec(s, 5);
    let day = two_digits_exec(s, 8);
    let hour = two_digits_exec(s, 11);
    let minute = two_digits_exec(s, 14);
    let second = two_digits_exec(s, 17);
    1 <= month && month <= 12 && 1 <= day && day <= 31 && hour <= 23 && minute <= 59 && second
        <= 59
}

/// Number of leading ASCII digits of `s` from `from`.
pub open spec fn digit_run(s: Seq<char>, from: int) -> int
    decreases s.len() - from,
{
    if from < 0 || from >= s.len() || !is_digit(s[from]) {
        0
    } else {
        1 + digit_run(s, from + 1)
    }
}

/// Whether `s` (already without sign) is a decimal number in the grammar
/// `f64::from_str` documents: `(Digit+ | Digit+ '.' Digit* | Digit* '.' Digit+) Exp?`
/// with `Exp ::= ('e' | 'E') Sign? Digit+`.
pub open spec fn is_decimal_number(s: Seq<char>) -> bool {
    let d1 = digit_run(s, 0);
    let has_dot = d1 < s.len() && s[d1] == '.';
    let d2 = if has_dot { digit_run(s, d1 + 1) } else { 0 };
    let e = if has_dot { d1 + 1 + d2 } else { d1 };
    &&& d1 + d2 > 0
    &&& (e == s.len() || {
        &&& e < s.len()
        &&& (s[e] == 'e' || s[e] == 'E')
        &&& {
            let sgn = if e + 1 < s.len() && (s[e + 1] == '+' || s[e + 1] == '-') { 1int } else { 0 };
            let d3 = digit_run(s, e + 1 + sgn);
            d3 > 0 && e + 1 + sgn + d3 == s.len()
        }
    })
}

/// The text after an optional leading `+` or `-`.
pub open spec fn unsigned_part(s: Seq<char>) -> Seq<char> {
    if s.len() > 0 && (s[0] == '+' || s[0] == '-') {
        s.drop_first()
    } else {
        s
    }
}

/// Whether `f64::from_str` accepts `s`: an optional sign followed by
/// `inf`, `infinity`, `nan` (in any case) or a decimal number.
pub open spec fn is_float_literal(s: Seq<char>) -> bool {
    let u = unsigned_part(s);
    let l = ascii_lower_seq(u);
    ||| l == "inf"@
    ||| l == "infinity"@
    ||| l == "nan"@
    ||| is_decimal_number(u)
}

/// Whether a float literal denotes zero (every mantissa digit is `0`).
pub open spec fn is_zero_float_literal(s: Seq<char>) -> bool {
    let u = unsigned_part(s);
    &&& is_decimal_number(u)
    &&& forall|i: int| 0 <= i < mantissa_len(u) && i < u.len() && is_digit(#[trigger] u[i]) ==> u[i] == '0'
}

/// Length of the mantissa (the part before the exponent) of a decimal number.
pub open spec fn mantissa_len(s: Seq<char>) -> int {
    let d1 = digit_run(s, 0);
    let has_dot = d1 < s.len() && s[d1] == '.';
    if has_dot { d1 + 1 + digit_run(s, d1 + 1) } else { d1 }
}

proof fn lemma_digit_run(s: Seq<char>, from: int)
    requires
        0 <= from <= s.len(),
    ensures
        0 <= digit_run(s, from) <= s.len() - from,
        forall|j: int| from <= j < from + digit_run(s, from) ==> is_digit(#[trigger] s[j]),
        from + digit_run(s, from) < s.len() ==> !is_digit(s[from + digit_run(s, from)]),
    decreases s.len() - from,
{
    if from < s.len() && is_digit(s[from]) {
        lemma_digit_run(s, from + 1);
    }
}

proof fn lemma_digit_run_scan(s: Seq<char>, from: int, to: int)
    requires
        0 <= from <= to <= s.len(),
        forall|j: int| from <= j < to ==> is_digit(#[trigger] s[j]),
    ensures
        digit_run(s, from) == (to - from) + digit_run(s, to),
    decreases to - from,
{
    if from < to {
        lemma_digit_run_scan(s, from + 1, to);
    }
}

pub(crate) fn digit_run_exec(s: &[char], from: usize) -> (r: usize)
    requires
        from <= s.len(),
    ensures
        r as int == digit_run(s@, from as int),
        from + r <= s.len(),
{
    let mut i = from;
    while i < s.len() && '0' <= s[i] && s[i] <= '9'
        invariant
            from <= i <= s.len(),
            forall|j: int| from <= j < i ==> is_digit(#[trigger] s@[j]),
        decreases s.len() - i,
    {
        i += 1;
    }
    proof {
        lemma_digit_run_scan(s@, from as int, i as int);
    }
    i - from
}

/// Whether the unsigned text `u` is a decimal number (exec form of `is_decimal_number`).
pub(crate) fn is_decimal_number_exec(u: &[char]) -> (r: bool)
    ensures
        r == is_decimal_number(u@),
{
    let d1 = digit_run_exec(u, 0);
    let has_dot = d1 < u.len() && u[d1] == '.';
    let d2 = if has_dot { digit_run_exec(u, d1 + 1) } else { 0 };
    let e = if has_dot { d1 + 1 + d2 } else { d1 };
    if d1 + d2 == 0 {
        return false;
    }
    if e == u.len() {
        return true;
    }
    if !(u[e] == 'e' || u[e] == 'E') {
        return false;
    }
    let sgn: usize = if e + 1 < u.len() && (u[e + 1] == '+' || u[e + 1] == '-') { 1 } else { 0 };
    let d3 = digit_run_exec(u, e + 1 + sgn);
    d3 > 0 && e + 1 + sgn + d3 == u.len()
}

/// Whether `f64::from_str` accepts the text.
pub fn is_float_literal_exec(s: &[char]) -> (r: bool)
    ensures
        r == is_float_literal(s@),
{
    let u = if s.len() > 0 && (s[0] == '+' || s[0] == '-') {
        copy_chars(s, 1, s.len())
    } else {
        copy_chars(s, 0, s.len())
    };
    assert(u@ == unsigned_part(s@)) by {
        if s.len() > 0 && (s[0] == '+' || s[0] == '-') {
            assert(u@ =~= s@.drop_first());
        } else {
            assert(u@ =~= s@);
        }
    }
    let l = ascii_lower_chars(u.as_slice());
    chars_eq_str(l.as_slice(), "inf") || chars_eq_str(l.as_slice(), "infinity") || chars_eq_str(
        l.as_slice(),
        "nan",
    ) || is_decimal_number_exec(u.as_slice())
}

/// Whether the text is a float literal denoting zero.
pub fn is_zero_float_literal_exec(s: &[char]) -> (r: bool)
    ensures
        r == is_zero_float_literal(s@),
{
    let u = if s.len() > 0 && (s[0] == '+' || s[0] == '-') {
        copy_chars(s, 1, s.len())
    } else {
        copy_chars(s, 0, s.len())
    };
    assert(u@ == unsigned_part(s@)) by {
        if s.len() > 0 && (s[0] == '+' || s[0] == '-') {
            assert(u@ =~= s@.drop_first());
        } else {
            assert(u@ =~= s@);
        }
    }
    if !is_decimal_number_exec(u.as_slice()) {
        return false;
    }
    let d1 = digit_run_exec(u.as_slice(), 0);
    let has_dot = d1 < u.len() && u[d1] == '.';
    let m = if has_dot { d1 + 1 + digit_run_exec(u.as_slice(), d1 + 1) } else { d1 };
    assert(m as int == mantissa_len(u@));
    let mut i: usize = 0;
    while i < m
        invariant
            i <= m,
            m <= u.len(),
            m as int == mantissa_len(u@),
            u@ == unsigned_part(s@),
            is_decimal_number(u@),
            forall|j: int| 0 <= j < i && is_digit(#[trigger] u@[j]) ==> u@[j] == '0',
        decreases m - i,
    {
        if '0' <= u[i] && u[i] <= '9' && u[i] != '0' {
            assert(is_digit(u@[i as int]) && u@[i as int] != '0' && (i as int) < mantissa_len(u@));
            return false;
        }
        i += 1;
    }
    true
}

/// Value of a run of ASCII digits.
pub open spec fn digits_value(s: Seq<char>) -> nat
    decreases s.len(),
{
    if s.len() == 0 {
        0
    } else {
        digits_value(s.drop_last()) * 10 + ((s.last() as int - 48) as nat)
    }
}

/// Whether every character is an ASCII digit.
pub open spec fn all_digits(s: Seq<char>) -> bool {
    forall|i: int| 0 <= i < s.len() ==> is_digit(#[trigger] s[i])
}

/// `u64::from_str`: an optional `+`, then one or more digits, within range.
pub open spec fn parse_u64_spec(s: Seq<char>) -> Option<u64> {
    let d = if s.len() > 0 && s[0] == '+' { s.drop_first() } else { s };
    if d.len() > 0 && all_digits(d) && digits_value(d) <= u64::MAX {
        Some(digits_value(d) as u64)
    } else {
        None
    }
}

/// `u64::from_str`.
pub fn parse_u64(s: &[char]) -> (r: Option<u64>)
    ensures
        r == parse_u64_spec(s@),
{
    let start: usize = if s.len() > 0 && s[0] == '+' { 1 } else { 0 };
    let ghost d = if s.len() > 0 && s[0] == '+' { s@.drop_first() } else { s@ };
    assert(d =~= s@.skip(start as int));
    if start == s.len() {
        return None;
    }
    let mut value: u64 = 0;
    let mut i = start;
    while i < s.len()
        invariant
            start <= i <= s.len(),
            d =~= s@.skip(start as int),
            d == (if s@.len() > 0 && s@[0] == '+' { s@.drop_first() } else { s@ }),
            start < s.len(),
            all_digits(s@.subrange(start as int, i as int)),
            value as nat == digits_value(s@.subrange(start as int, i as int)),
        decreases s.len() - i,
    {
        let c = s[i];
        if !('0' <= c && c <= '9') {
            proof {
                assert(d[i - start] == c);
                assert(!is_digit(d[i - start]));
                assert(!all_digits(d));
                assert(d.len() > 0);
                assert(parse_u64_spec(s@) is None);
            }
            return None;
        }
        let digit = (c as u64) - 48;
        let ghost next = s@.subrange(start as int, i + 1);
        assert(next.drop_last() =~= s@.subrange(start as int, i as int));
        if value > (u64::MAX - digit) / 10 {
            proof {
                assert(next.last() == c);
                assert(digits_value(next) == digits_value(next.drop_last()) * 10 + ((c as int - 48) as nat));
                assert(digits_value(next) == value * 10 + digit);
                assert(digits_value(next) > u64::MAX) by (nonlinear_arith)
                    requires
                        value > (u64::MAX - digit) / 10,
                        digits_value(next) == value * 10 + digit,
                        digit <= 9,
                ;
                if all_digits(d) {
                    lemma_digits_value_prefix_le(d, (i + 1 - start) as int);
                    assert(d.take((i + 1 - start) as int) =~= next);
                    assert(digits_value(d) > u64::MAX);
                }
                assert(parse_u64_spec(s@) is None);
            }
            return None;
        }
        assert(value * 10 + digit <= u64::MAX) by (nonlinear_arith)
            requires
                value <= (u64::MAX - digit) / 10,
                digit <= 9,
        ;
        value = value * 10 + digit;
        i += 1;
        assert(all_digits(s@.subrange(start as int, i as int))) by {
            assert forall|j: int| 0 <= j < i - start implies is_digit(
                #[trigger] s@.subrange(start as int, i as int)[j],
            ) by {
                if j < i - 1 - start {
                    assert(s@.subrange(start as int, i as int)[j] == s@.subrange(
                        start as int,
                        i - 1,
                    )[j]);
                }
            }
        }
    }
    assert(s@.subrange(start as int, i as int) =~= d);
    Some(value)
}

/// `u128::from_str`: an optional `+`, then one or more digits, within range.
pub open spec fn parse_u128_spec(s: Seq<char>) -> Option<u128> {
    let d = if s.len() > 0 && s[0] == '+' { s.drop_first() } else { s };
    if d.len() > 0 && all_digits(d) && digits_value(d) <= u128::MAX {
        Some(digits_value(d) as u128)
    } else {
        None
    }
}

/// `u128::from_str`.
pub fn parse_u128(s: &[char]) -> (r: Option<u128>)
    ensures
        r == parse_u128_spec(s@),
{
    let start: usize = if s.len() > 0 && s[0] == '+' { 1 } else { 0 };
    let ghost d = if s.len() > 0 && s[0] == '+' { s@.drop_first() } else { s@ };
    assert(d =~= s@.skip(start as int));
    if start == s.len() {
        return None;
    }
    let mut value: u128 = 0;
    let mut i = start;
    while i < s.len()
        invariant
            start <= i <= s.len(),
            d =~= s@.skip(start as int),
            d == (if s@.len() > 0 && s@[0] == '+' { s@.drop_first() } else { s@ }),
            start < s.len(),
            all_digits(s@.subrange(start as int, i as int)),
            value as nat == digits_value(s@.subrange(start as int, i as int)),
        decreases s.len() - i,
    {
        let c = s[i];
        if !('0' <= c && c <= '9') {
            proof {
                assert(d[i - start] == c);
                assert(!is_digit(d[i - start]));
                assert(!all_digits(d));
                assert(d.len() > 0);
                assert(parse_u128_spec(s@) is None);
            }
            return None;
        }
        let digit = (c as u128) - 48;
        let ghost next = s@.subrange(start as int, i + 1);
        assert(next.drop_last() =~= s@.subrange(start as int, i as int));
        if value > (u128::MAX - digit) / 10 {
            proof {
                assert(next.last() == c);
                assert(digits_value(next) == digits_value(next.drop_last()) * 10 + ((c as int - 48) as nat));
                assert(digits_value(next) == value * 10 + digit);
                assert(digits_value(next) > u128::MAX) by (nonlinear_arith)
                    requires
                        value > (u128::MAX - digit) / 10,
                        digits_value(next) == value * 10 + digit,
                        digit <= 9,
                ;
                if all_digits(d) {
                    lemma_digits_value_prefix_le(d, (i + 1 - start) as int);
                    assert(d.take((i + 1 - start) as int) =~= next);
                    assert(digits_value(d) > u128::MAX);
                }
                assert(parse_u128_spec(s@) is None);
            }
            return None;
        }
        assert(value * 10 + digit <= u128::MAX) by (nonlinear_arith)
            requires
                value <= (u128::MAX - digit) / 10,
                digit <= 9,
        ;
        value = value * 10 + digit;
        i += 1;
        assert(all_digits(s@.subrange(start as int, i as int))) by {
            assert forall|j: int| 0 <= j < i - start implies is_digit(
                #[trigger] s@.subrange(start as int, i as int)[j],
            ) by {
                if j < i - 1 - start {
                    assert(s@.subrange(start as int, i as int)[j] == s@.subrange(
                        start as int,
                        i - 1,
                    )[j]);
                }
            }
        }
    }
    assert(s@.subrange(start as int, i as int) =~= d);
    Some(value)
}

proof fn lemma_digits_value_prefix_le(d: Seq<char>, k: int)
    requires
        0 <= k <= d.len(),
        all_digits(d),
    ensures
        digits_value(d.take(k)) <= digits_value(d),
    decreases d.len() - k,
{
    if k < d.len() {
        lemma_digits_value_prefix_le(d, k + 1);
        assert(d.take(k + 1).drop_last() =~= d.take(k));
        assert(is_digit(d[k]));
    } else {
        assert(d.take(k) =~= d);
    }
}

} // verus!

verus! {

// ---------------------------------------------------------------------------
// Laws
// ---------------------------------------------------------------------------

proof fn lemma_decode_escape_char(c: char, t: Seq<char>)
    ensures
        decode_text(escape_char(c) + t) == seq![c] + decode_text(t),
{
    let s = escape_char(c) + t;
    if c == '\\' || c == '\n' || c == '\r' {
        assert(s[0] == '\\');
        assert(s.skip(2) =~= t);
    } else {
        assert(s.drop_first() =~= t);
    }
}

/// Decoding an escaped text gives the text back: every text field of the
/// format survives a write and a read, whatever characters it holds.
pub proof fn law_decode_escape(s: Seq<char>)
    ensures
        decode_text(escape_text(s)) == s,
    decreases s.len(),
{
    if s.len() > 0 {
        law_decode_escape(s.drop_first());
        lemma_decode_escape_char(s[0], escape_text(s.drop_first()));
        assert(seq![s[0]] + s.drop_first() =~= s);
    } else {
        assert(escape_text(s) =~= Seq::<char>::empty());
        assert(s =~= Seq::<char>::empty());
    }
}

/// An escaped text holds no line break, so it stays on one line.
pub proof fn law_escape_single_line(s: Seq<char>)
    ensures
        !escape_text(s).contains('\n'),
        !escape_text(s).contains('\r'),
    decreases s.len(),
{
    if s.len() > 0 {
        law_escape_single_line(s.drop_first());
        let e = escape_text(s);
        let h = escape_char(s[0]);
        let r = escape_text(s.drop_first());
        assert(e == h + r);
        assert forall|i: int| 0 <= i < e.len() implies e[i] != '\n' && e[i] != '\r' by {
            if i < h.len() {
            } else {
                assert(e[i] == r[i - h.len()]);
            }
        }
    }
}

/// A node type written in a header reads back as the same type, for every
/// type that does not itself start with `=`.
pub proof fn law_type_token_roundtrip(t: Seq<char>)
    requires
        !(t.len() > 0 && t[0] == '='),
    ensures
        decode_type_token(encode_type_token(t)) == t,
{
    reveal_strlit("Feature"); reveal_strlit("Concept"); reveal_strlit("Interface");
    reveal_strlit("Process"); reveal_strlit("DataStore"); reveal_strlit("Attribute");
    reveal_strlit("Entity"); reveal_strlit("Note"); reveal_strlit("Rule");
    reveal_strlit("Convention"); reveal_strlit("Bug"); reveal_strlit("Decision");
    reveal_strlit("OpenQuestion"); reveal_strlit("Claim"); reveal_strlit("Insight");
    reveal_strlit("Reference"); reveal_strlit("Term"); reveal_strlit("Status");
    reveal_strlit("Doubt");
    reveal_strlit("F"); reveal_strlit("K"); reveal_strlit("I"); reveal_strlit("P");
    reveal_strlit("D"); reveal_strlit("A"); reveal_strlit("Y"); reveal_strlit("N");
    reveal_strlit("R"); reveal_strlit("C"); reveal_strlit("B"); reveal_strlit("Z");
    reveal_strlit("O"); reveal_strlit("Q"); reveal_strlit("W"); reveal_strlit("M");
    reveal_strlit("T"); reveal_strlit("S"); reveal_strlit("L");
    let code = node_type_code(t);
    let enc = encode_type_token(t);
    if code != t {
        assert(enc == code);
        assert(code.len() == 1 && code[0] != '=');
        assert(seq!['='][0] == '=');
        assert(!seq!['='].is_prefix_of(enc));
        assert(strip_prefix(enc, seq!['=']) is None);
    } else if code_node_type(t) != t {
        assert(enc == seq!['='] + t);
        assert(seq!['='].is_prefix_of(enc));
        assert(enc.skip(1) =~= t);
    } else {
        assert(enc == t);
        assert(strip_prefix(t, seq!['=']) is None) by {
            if t.len() > 0 {
                assert(seq!['='][0] == '=');
            }
        }
    }
}

/// Whether a relation name is one of the aliases that share a code with
/// another name (`DOCUMENTS`, `AFFECTS`, `READS`, `GOVERNS`, `CREATES`).
pub open spec fn is_relation_alias(r: Seq<char>) -> bool {
    r == "DOCUMENTS"@ || r == "AFFECTS"@ || r == "READS"@ || r == "GOVERNS"@ || r == "CREATES"@
}

/// Whether a token is one of the one-letter relation codes.
pub open spec fn is_relation_code(r: Seq<char>) -> bool {
    code_relation(r) != r
}

/// A relation written in an edge line reads back as the same relation,
/// unless it is an alias (read back as its main name) or is itself a code letter.
#[verifier::rlimit(50)]
pub proof fn law_relation_roundtrip(r: Seq<char>)
    requires
        !is_relation_alias(r),
        !is_relation_code(r),
    ensures
        code_relation(relation_code(r)) == r,
{
    reveal_strlit("D"); reveal_strlit("H"); reveal_strlit("T"); reveal_strlit("A");
    reveal_strlit("R"); reveal_strlit("G"); reveal_strlit("O"); reveal_strlit("I");
    reveal_strlit("S"); reveal_strlit("U"); reveal_strlit("L"); reveal_strlit("V");
    reveal_strlit("C");
    reveal_strlit("DOCUMENTED_IN"); reveal_strlit("DOCUMENTS"); reveal_strlit("HAS");
    reveal_strlit("TRIGGERS"); reveal_strlit("AFFECTED_BY"); reveal_strlit("AFFECTS");
    reveal_strlit("READS_FROM"); reveal_strlit("READS"); reveal_strlit("GOVERNED_BY");
    reveal_strlit("GOVERNS"); reveal_strlit("DEPENDS_ON"); reveal_strlit("AVAILABLE_IN");
    reveal_strlit("SUPPORTS"); reveal_strlit("SUMMARIZES"); reveal_strlit("RELATED_TO");
    reveal_strlit("CONTRADICTS"); reveal_strlit("CREATED_BY"); reveal_strlit("CREATES");
    if r == "DOCUMENTED_IN"@ { assert(relation_code(r) == "D"@); }
    else if r == "HAS"@ { assert(relation_code(r) == "H"@); }
    else if r == "TRIGGERS"@ { assert(relation_code(r) == "T"@); }
    else if r == "AFFECTED_BY"@ { assert(relation_code(r) == "A"@); }
    else if r == "READS_FROM"@ { assert(relation_code(r) == "R"@); }
    else if r == "GOVERNED_BY"@ { assert(relation_code(r) == "G"@); }
    else if r == "DEPENDS_ON"@ { assert(relation_code(r) == "O"@); }
    else if r == "AVAILABLE_IN"@ { assert(relation_code(r) == "I"@); }
    else if r == "SUPPORTS"@ { assert(relation_code(r) == "S"@); }
    else if r == "SUMMARIZES"@ { assert(relation_code(r) == "U"@); }
    else if r == "RELATED_TO"@ { assert(relation_code(r) == "L"@); }
    else if r == "CONTRADICTS"@ { assert(relation_code(r) == "V"@); }
    else if r == "CREATED_BY"@ { assert(relation_code(r) == "C"@); }
    else { assert(relation_code(r) == r); assert(code_relation(r) == r); }
}

} // verus!
