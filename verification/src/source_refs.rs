//! Checks on what a tool call supplies for new nodes: timestamps, dates
//! and source references `<TYPE> <LINK_OR_DATE> <DETAILS>`.
use vstd::prelude::*;
use crate::text::{append_str, chars_eq_str, chars_of, is_digit, string_of, tokens, tokens_exec, trim, trim_chars};

verus! {

broadcast use vstd::string::group_string_axioms;

/// Whether `s` has the shape of `pattern`, where `9` stands for any ASCII
/// digit and every other character for itself.
pub open spec fn shaped(s: Seq<char>, pattern: Seq<char>) -> bool {
    s.len() == pattern.len() && forall|i: int|
        0 <= i < s.len() ==> if pattern[i] == '9' {
            is_digit(#[trigger] s[i])
        } else {
            s[i] == pattern[i]
        }
}

fn shaped_exec(s: &[char], pattern: &str) -> (r: bool)
    ensures
        r == shaped(s@, pattern@),
{
    let p = chars_of(pattern);
    if s.len() != p.len() {
        return false;
    }
    let mut i: usize = 0;
    while i < s.len()
        invariant
            i <= s.len(),
            s.len() == p.len(),
            p@ == pattern@,
            forall|j: int|
                0 <= j < i ==> if p@[j] == '9' {
                    is_digit(#[trigger] s@[j])
                } else {
                    s@[j] == p@[j]
                },
        decreases s.len() - i,
    {
        let ok = if p[i] == '9' {
            '0' <= s[i] && s[i] <= '9'
        } else {
            s[i] == p[i]
        };
        if !ok {
            proof {
                assert(!(if p@[i as int] == '9' {
                    is_digit(s@[i as int])
                } else {
                    s@[i as int] == p@[i as int]
                }));
            }
            return false;
        }
        i += 1;
    }
    true
}

/// Whether a text is a UTC timestamp `YYYY-MM-DDTHH:MM:SSZ` (digits
/// only; the values are not checked).
pub fn is_valid_iso_utc_timestamp(value: &str) -> (r: bool)
    ensures
        r == shaped(value@, "9999-99-99T99:99:99Z"@),
{
    let v = chars_of(value);
    shaped_exec(v.as_slice(), "9999-99-99T99:99:99Z")
}

/// Whether a text is a date `YYYY-MM-DD` (digits only).
pub fn is_valid_iso_date(value: &str) -> (r: bool)
    ensures
        r == shaped(value@, "9999-99-99"@),
{
    let v = chars_of(value);
    shaped_exec(v.as_slice(), "9999-99-99")
}

/// The kinds of source a node may cite.
pub open spec fn valid_source_types() -> Seq<Seq<char>> {
    seq![
        "URL"@,
        "SVN"@,
        "SOURCECODE"@,
        "WIKI"@,
        "CONFLUENCE"@,
        "CONVERSATION"@,
        "GIT_COMMIT"@,
        "PULL_REQUEST"@,
        "ISSUE"@,
        "DOC"@,
        "LOG"@,
        "OTHER"@,
    ]
}

/// The kinds of source, comma-separated.
pub open spec fn source_types_text() -> Seq<char> {
    "URL, SVN, SOURCECODE, WIKI, CONFLUENCE, CONVERSATION, GIT_COMMIT, PULL_REQUEST, ISSUE, DOC, LOG, OTHER"@
}

/// The error in a source reference, if any: it must not be blank, must
/// have a known type and a link or date, a conversation needs a date and a
/// commit needs a repository and a hash.
pub open spec fn source_reference_error(value: Seq<char>) -> Option<Seq<char>> {
    let t = trim(value);
    let parts = tokens(t);
    if t.len() == 0 {
        Some("source entry cannot be empty"@)
    } else if parts.len() < 2 {
        Some("source must match '<TYPE> <LINK_OR_DATE> <OPTIONAL_DETAILS>'"@)
    } else if !valid_source_types().contains(parts[0]) {
        Some("invalid source type '"@ + parts[0] + "'; valid types: "@ + source_types_text())
    } else if parts[0] == "CONVERSATION"@ && !shaped(parts[1], "9999-99-99"@) {
        Some("CONVERSATION source must use date YYYY-MM-DD"@)
    } else if parts[0] == "GIT_COMMIT"@ && parts.len() < 3 {
        Some("GIT_COMMIT source must include repository and commit SHA"@)
    } else {
        None
    }
}

fn text(s: &str) -> (r: String)
    ensures
        r@ == s@,
{
    string_of(chars_of(s).as_slice())
}

fn is_source_type(t: &[char]) -> (r: bool)
    ensures
        r == valid_source_types().contains(t@),
{
    let r = chars_eq_str(t, "URL") || chars_eq_str(t, "SVN") || chars_eq_str(t, "SOURCECODE")
        || chars_eq_str(t, "WIKI") || chars_eq_str(t, "CONFLUENCE") || chars_eq_str(
        t,
        "CONVERSATION",
    ) || chars_eq_str(t, "GIT_COMMIT") || chars_eq_str(t, "PULL_REQUEST") || chars_eq_str(
        t,
        "ISSUE",
    ) || chars_eq_str(t, "DOC") || chars_eq_str(t, "LOG") || chars_eq_str(t, "OTHER");
    proof {
        let v = valid_source_types();
        if r {
            if t@ == "URL"@ { assert(v[0] == t@); }
            if t@ == "SVN"@ { assert(v[1] == t@); }
            if t@ == "SOURCECODE"@ { assert(v[2] == t@); }
            if t@ == "WIKI"@ { assert(v[3] == t@); }
            if t@ == "CONFLUENCE"@ { assert(v[4] == t@); }
            if t@ == "CONVERSATION"@ { assert(v[5] == t@); }
            if t@ == "GIT_COMMIT"@ { assert(v[6] == t@); }
            if t@ == "PULL_REQUEST"@ { assert(v[7] == t@); }
            if t@ == "ISSUE"@ { assert(v[8] == t@); }
            if t@ == "DOC"@ { assert(v[9] == t@); }
            if t@ == "LOG"@ { assert(v[10] == t@); }
            if t@ == "OTHER"@ { assert(v[11] == t@); }
        } else {
            if v.contains(t@) {
                let k = choose|k: int| 0 <= k < v.len() && v[k] == t@;
                assert(0 <= k < 12);
            }
        }
    }
    r
}

/// Checks a source reference `<TYPE> <LINK_OR_DATE> <OPTIONAL_DETAILS>`.
pub fn validate_source_reference(value: &str) -> (r: Result<(), String>)
    ensures
        match source_reference_error(value@) {
            Some(e) => r matches Err(x) && x@ == e,
            None => r is Ok,
        },
{
    let t = trim_chars(chars_of(value).as_slice());
    if t.len() == 0 {
        return Err(text("source entry cannot be empty"));
    }
    let parts = tokens_exec(t.as_slice());
    let ghost pv = crate::text::seqs_view(parts@);
    if parts.len() < 2 {
        return Err(text("source must match '<TYPE> <LINK_OR_DATE> <OPTIONAL_DETAILS>'"));
    }
    assert(pv[0] == parts@[0]@ && pv[1] == parts@[1]@);
    if !is_source_type(parts[0].as_slice()) {
        let mut m = chars_of("invalid source type '");
        crate::text::append_chars(&mut m, parts[0].as_slice());
        append_str(&mut m, "'; valid types: ");
        append_str(
            &mut m,
            "URL, SVN, SOURCECODE, WIKI, CONFLUENCE, CONVERSATION, GIT_COMMIT, PULL_REQUEST, ISSUE, DOC, LOG, OTHER",
        );
        return Err(string_of(m.as_slice()));
    }
    if chars_eq_str(parts[0].as_slice(), "CONVERSATION") && !shaped_exec(
        parts[1].as_slice(),
        "9999-99-99",
    ) {
        return Err(text("CONVERSATION source must use date YYYY-MM-DD"));
    }
    if chars_eq_str(parts[0].as_slice(), "GIT_COMMIT") && parts.len() < 3 {
        return Err(text("GIT_COMMIT source must include repository and commit SHA"));
    }
    Ok(())
}

} // verus!
