//! The symbols a source file defines: which parser a file needs, and how
//! the definitions its tag query captures become `(kind, name)` symbols.
use vstd::prelude::*;
use crate::mcp_text::find_text_from;
use crate::sorting::views;
use crate::text::{
    ascii_lower_chars, ascii_lower_seq, chars_eq, chars_eq_str, chars_of, copy_chars, is_ws,
    split_once, strip_prefix, strip_prefix_str, string_of, tokens, tokens_exec, trim, trim_chars,
};

verus! {

broadcast use vstd::string::group_string_axioms;

/// A symbol a source file defines.
#[derive(Debug, Clone, PartialEq, Eq)]
pub struct ScannedSymbol {
    pub kind: String,
    pub name: String,
}

impl View for ScannedSymbol {
    type V = (Seq<char>, Seq<char>);

    open spec fn view(&self) -> (Seq<char>, Seq<char>) {
        (self.kind@, self.name@)
    }
}

/// The languages whose definitions can be read.
#[derive(Clone, Copy, PartialEq, Eq, Structural, Debug)]
pub enum SymbolLanguage {
    Rust,
    Java,
    Python,
    JavaScript,
    Cpp,
}

/// The language of a file extension, in any ASCII case.
pub open spec fn language_spec(ext: Seq<char>) -> Option<SymbolLanguage> {
    let e = ascii_lower_seq(ext);
    if e == "rs"@ {
        Some(SymbolLanguage::Rust)
    } else if e == "java"@ {
        Some(SymbolLanguage::Java)
    } else if e == "py"@ {
        Some(SymbolLanguage::Python)
    } else if e == "js"@ || e == "jsx"@ || e == "mjs"@ || e == "cjs"@ {
        Some(SymbolLanguage::JavaScript)
    } else if e == "c"@ || e == "h"@ || e == "cc"@ || e == "cpp"@ || e == "cxx"@ || e == "hpp"@
        || e == "hh"@ || e == "hxx"@ {
        Some(SymbolLanguage::Cpp)
    } else {
        None
    }
}

/// The language of a file extension.
pub fn language_for_extension(ext: &str) -> (r: Option<SymbolLanguage>)
    ensures
        r == language_spec(ext@),
{
    let e = ascii_lower_chars(chars_of(ext).as_slice());
    let s = e.as_slice();
    if chars_eq_str(s, "rs") {
        Some(SymbolLanguage::Rust)
    } else if chars_eq_str(s, "java") {
        Some(SymbolLanguage::Java)
    } else if chars_eq_str(s, "py") {
        Some(SymbolLanguage::Python)
    } else if chars_eq_str(s, "js") || chars_eq_str(s, "jsx") || chars_eq_str(s, "mjs")
        || chars_eq_str(s, "cjs") {
        Some(SymbolLanguage::JavaScript)
    } else if chars_eq_str(s, "c") || chars_eq_str(s, "h") || chars_eq_str(s, "cc")
        || chars_eq_str(s, "cpp") || chars_eq_str(s, "cxx") || chars_eq_str(s, "hpp")
        || chars_eq_str(s, "hh") || chars_eq_str(s, "hxx") {
        Some(SymbolLanguage::Cpp)
    } else {
        None
    }
}

/// The text before the first `.` (all of it when there is none).
pub open spec fn before_dot(s: Seq<char>) -> Seq<char> {
    match split_once(s, '.') {
        Some((head, _)) => head,
        None => s,
    }
}

/// The symbol kind a tag kind stands for (`function` → `fn`, `module` →
/// `mod`, and so on), judged by the part before any `.`.
pub open spec fn symbol_kind_spec(raw: Seq<char>) -> Option<Seq<char>> {
    let k = before_dot(raw);
    if k == "function"@ {
        Some("fn"@)
    } else if k == "method"@ || k == "class"@ || k == "interface"@ || k == "struct"@ || k
        == "enum"@ || k == "record"@ || k == "namespace"@ {
        Some(k)
    } else if k == "module"@ || k == "mod"@ {
        Some("mod"@)
    } else if k == "trait"@ {
        Some(k)
    } else if k == "type"@ || k == "type_alias"@ {
        Some("type"@)
    } else if k == "constant"@ || k == "const"@ {
        Some("const"@)
    } else if k == "static"@ {
        Some(k)
    } else if k == "variable"@ || k == "var"@ {
        Some("var"@)
    } else if k == "field"@ || k == "property"@ || k == "enum_member"@ || k == "macro"@ {
        Some(k)
    } else {
        None
    }
}

/// The symbol kind a tag kind stands for.
pub fn normalize_symbol_kind(raw_kind: &str) -> (r: Option<&'static str>)
    ensures
        match r {
            Some(k) => symbol_kind_spec(raw_kind@) == Some(k@),
            None => symbol_kind_spec(raw_kind@) is None,
        },
{
    let raw = chars_of(raw_kind);
    let k = match crate::text::split_once_chars(raw.as_slice(), '.') {
        Some((head, _)) => head,
        None => raw,
    };
    let s = k.as_slice();
    if chars_eq_str(s, "function") {
        Some("fn")
    } else if chars_eq_str(s, "method") {
        Some("method")
    } else if chars_eq_str(s, "class") {
        Some("class")
    } else if chars_eq_str(s, "interface") {
        Some("interface")
    } else if chars_eq_str(s, "struct") {
        Some("struct")
    } else if chars_eq_str(s, "enum") {
        Some("enum")
    } else if chars_eq_str(s, "record") {
        Some("record")
    } else if chars_eq_str(s, "namespace") {
        Some("namespace")
    } else if chars_eq_str(s, "module") || chars_eq_str(s, "mod") {
        Some("mod")
    } else if chars_eq_str(s, "trait") {
        Some("trait")
    } else if chars_eq_str(s, "type") || chars_eq_str(s, "type_alias") {
        Some("type")
    } else if chars_eq_str(s, "constant") || chars_eq_str(s, "const") {
        Some("const")
    } else if chars_eq_str(s, "static") {
        Some("static")
    } else if chars_eq_str(s, "variable") || chars_eq_str(s, "var") {
        Some("var")
    } else if chars_eq_str(s, "field") {
        Some("field")
    } else if chars_eq_str(s, "property") {
        Some("property")
    } else if chars_eq_str(s, "enum_member") {
        Some("enum_member")
    } else if chars_eq_str(s, "macro") {
        Some("macro")
    } else {
        None
    }
}

/// What `char::is_alphanumeric` says of a character (Unicode alphabetic
/// or numeric).
pub uninterp spec fn unicode_alphanumeric(c: char) -> bool;

/// `char::is_alphanumeric`.
#[verifier::external_body]
fn is_alphanumeric(c: char) -> (r: bool)
    ensures
        r == unicode_alphanumeric(c),
{
    c.is_alphanumeric()
}

/// Whether a character is trimmed off a symbol name's end.
pub open spec fn is_name_tail(c: char) -> bool {
    c == '{' || c == '}' || c == '(' || c == ')' || c == ';' || c == ',' || c == ':'
}

/// Whether a character can stand at the edge of a symbol name.
pub open spec fn is_name_char(c: char) -> bool {
    unicode_alphanumeric(c) || c == '_' || c == '$'
}

/// The text without its trailing characters of `is_name_tail`.
pub open spec fn trim_tail(s: Seq<char>) -> Seq<char>
    decreases s.len(),
{
    if s.len() > 0 && is_name_tail(s.last()) {
        trim_tail(s.drop_last())
    } else {
        s
    }
}

/// The text without the characters that cannot stand at a name's edge,
/// at its end.
pub open spec fn trim_non_name_end(s: Seq<char>) -> Seq<char>
    decreases s.len(),
{
    if s.len() > 0 && !is_name_char(s.last()) {
        trim_non_name_end(s.drop_last())
    } else {
        s
    }
}

/// The text without the characters that cannot stand at a name's edge,
/// at its start.
pub open spec fn trim_non_name_start(s: Seq<char>) -> Seq<char>
    decreases s.len(),
{
    if s.len() > 0 && !is_name_char(s[0]) {
        trim_non_name_start(s.drop_first())
    } else {
        s
    }
}

/// The symbol name in a captured text: trimmed of whitespace and of
/// trailing brackets and punctuation, its last word, stripped at both ends
/// of characters other than letters, digits, `_` and `$`; none when
/// nothing is left.
pub open spec fn symbol_name_spec(raw: Seq<char>) -> Option<Seq<char>> {
    let t = trim(trim_tail(trim(raw)));
    if t.len() == 0 {
        None
    } else {
        let ws = tokens(t);
        let last = if ws.len() > 0 { ws.last() } else { t };
        let c = trim_non_name_end(trim_non_name_start(last));
        if c.len() == 0 {
            None
        } else {
            Some(c)
        }
    }
}

fn trim_tail_exec(s: &[char]) -> (r: Vec<char>)
    ensures
        r@ == trim_tail(s@),
{
    let mut k = s.len();
    assert(s@.take(k as int) =~= s@);
    while k > 0 && (s[k - 1] == '{' || s[k - 1] == '}' || s[k - 1] == '(' || s[k - 1] == ')'
        || s[k - 1] == ';' || s[k - 1] == ',' || s[k - 1] == ':')
        invariant
            k <= s.len(),
            trim_tail(s@) == trim_tail(s@.take(k as int)),
        decreases k,
    {
        assert(s@.take(k as int).drop_last() =~= s@.take(k - 1));
        k -= 1;
    }
    copy_chars(s, 0, k)
}

fn trim_non_name_exec(s: &[char]) -> (r: Vec<char>)
    ensures
        r@ == trim_non_name_end(trim_non_name_start(s@)),
{
    let mut a: usize = 0;
    assert(s@.skip(0) =~= s@);
    while a < s.len() && !(is_alphanumeric(s[a]) || s[a] == '_' || s[a] == '$')
        invariant
            a <= s.len(),
            trim_non_name_start(s@) == trim_non_name_start(s@.skip(a as int)),
        decreases s.len() - a,
    {
        assert(s@.skip(a as int).drop_first() =~= s@.skip(a + 1));
        a += 1;
    }
    let mid = copy_chars(s, a, s.len());
    assert(mid@ =~= s@.skip(a as int));
    let mut k = mid.len();
    assert(mid@.take(k as int) =~= mid@);
    while k > 0 && !(is_alphanumeric(mid[k - 1]) || mid[k - 1] == '_' || mid[k - 1] == '$')
        invariant
            k <= mid.len(),
            trim_non_name_end(mid@) == trim_non_name_end(mid@.take(k as int)),
        decreases k,
    {
        assert(mid@.take(k as int).drop_last() =~= mid@.take(k - 1));
        k -= 1;
    }
    copy_chars(mid.as_slice(), 0, k)
}

/// The symbol name in a captured text.
pub fn normalize_symbol_name(raw_name: &str) -> (r: Option<String>)
    ensures
        match r {
            Some(n) => symbol_name_spec(raw_name@) == Some(n@),
            None => symbol_name_spec(raw_name@) is None,
        },
{
    let raw = chars_of(raw_name);
    let t1 = trim_chars(raw.as_slice());
    let t2 = trim_tail_exec(t1.as_slice());
    let t = trim_chars(t2.as_slice());
    if t.len() == 0 {
        return None;
    }
    let ws = tokens_exec(t.as_slice());
    let last = if ws.len() > 0 {
        let w = &ws[ws.len() - 1];
        assert(crate::text::seqs_view(ws@).last() == w@);
        copy_chars(w.as_slice(), 0, w.len())
    } else {
        copy_chars(t.as_slice(), 0, t.len())
    };
    assert(last@ =~= (if crate::text::seqs_view(ws@).len() > 0 {
        crate::text::seqs_view(ws@).last()
    } else {
        t@
    }));
    let c = trim_non_name_exec(last.as_slice());
    if c.len() == 0 {
        None
    } else {
        Some(string_of(c.as_slice()))
    }
}

/// The tag kind in a capture name: what follows the first
/// `definition.`.
pub open spec fn capture_kind(name: Seq<char>) -> Option<Seq<char>> {
    match find_text_from(name, "definition."@, 0) {
        Some(i) => Some(name.skip(i + 11)),
        None => strip_prefix(name, "definition."@),
    }
}

fn capture_kind_exec(name: &String) -> (r: Option<Vec<char>>)
    ensures
        match r {
            Some(k) => capture_kind(name@) == Some(k@),
            None => capture_kind(name@) is None,
        },
{
    let c = chars_of(name.as_str());
    let pat = chars_of("definition.");
    proof {
        reveal_strlit("definition.");
    }
    match crate::mcp_text::find_text_exec(c.as_slice(), pat.as_slice()) {
        Some(i) => {
            let rest = copy_chars(c.as_slice(), i + pat.len(), c.len());
            assert(rest@ =~= c@.skip(i + 11));
            Some(rest)
        },
        None => strip_prefix_str(c.as_slice(), "definition."),
    }
}

/// The symbol a capture gives: its kind from the capture name and its name
/// from the captured text, when both can be read.
pub open spec fn capture_symbol(cap: (Seq<char>, Seq<char>)) -> Option<(Seq<char>, Seq<char>)> {
    match capture_kind(cap.0) {
        None => None,
        Some(raw) => match symbol_kind_spec(raw) {
            None => None,
            Some(kind) => match symbol_name_spec(cap.1) {
                None => None,
                Some(name) => Some((kind, name)),
            },
        },
    }
}

/// The symbols of the captures, in order, each `(kind, name)` once.
pub open spec fn symbols_run(caps: Seq<(Seq<char>, Seq<char>)>) -> Seq<(Seq<char>, Seq<char>)>
    decreases caps.len(),
{
    if caps.len() == 0 {
        Seq::empty()
    } else {
        let p = symbols_run(caps.drop_last());
        match capture_symbol(caps.last()) {
            Some(sym) => if p.contains(sym) {
                p
            } else {
                p.push(sym)
            },
            None => p,
        }
    }
}

/// The view of captures.
pub open spec fn captures_view(c: Seq<(String, String)>) -> Seq<(Seq<char>, Seq<char>)> {
    c.map_values(|p: (String, String)| (p.0@, p.1@))
}

fn seen_symbol(out: &Vec<ScannedSymbol>, kind: &str, name: &String) -> (r: bool)
    ensures
        r == views(out@).contains((kind@, name@)),
{
    let mut i: usize = 0;
    while i < out.len()
        invariant
            i <= out.len(),
            forall|j: int| 0 <= j < i ==> views(out@)[j] != (kind@, name@),
        decreases out.len() - i,
    {
        if crate::text::str_eq(out[i].kind.as_str(), kind) && crate::text::str_eq(
            out[i].name.as_str(),
            name.as_str(),
        ) {
            assert(views(out@)[i as int] == (kind@, name@));
            return true;
        }
        i += 1;
    }
    proof {
        if views(out@).contains((kind@, name@)) {
            let j = choose|j: int| 0 <= j < views(out@).len() && views(out@)[j] == (kind@, name@);
            assert(views(out@)[j] != (kind@, name@));
        }
    }
    false
}

/// The symbols of the definitions a tag query captured, given as
/// `(capture name, captured text)` in match order: each readable
/// definition once, in order of first appearance.
pub fn symbols_from_captures(captures: &Vec<(String, String)>) -> (r: Vec<ScannedSymbol>)
    ensures
        views(r@) == symbols_run(captures_view(captures@)),
{
    let ghost cv = captures_view(captures@);
    let mut out: Vec<ScannedSymbol> = Vec::new();
    let mut i: usize = 0;
    while i < captures.len()
        invariant
            i <= captures.len(),
            cv == captures_view(captures@),
            views(out@) == symbols_run(cv.take(i as int)),
        decreases captures.len() - i,
    {
        proof {
            assert(cv.take(i + 1).drop_last() =~= cv.take(i as int));
            assert(cv.take(i + 1).last() == (captures@[i as int].0@, captures@[i as int].1@));
        }
        let cap = &captures[i];
        match capture_kind_exec(&cap.0) {
            Some(raw) => {
                let raw_s = string_of(raw.as_slice());
                match normalize_symbol_kind(raw_s.as_str()) {
                    Some(kind) => match normalize_symbol_name(cap.1.as_str()) {
                        Some(name) => {
                            if !seen_symbol(&out, kind, &name) {
                                let ghost before = views(out@);
                                let sym = ScannedSymbol {
                                    kind: string_of(chars_of(kind).as_slice()),
                                    name,
                                };
                                out.push(sym);
                                assert(views(out@) =~= before.push(sym@));
                            }
                        },
                        None => {},
                    },
                    None => {},
                }
            },
            None => {},
        }
        i += 1;
    }
    assert(cv.take(captures.len() as int) =~= cv);
    out
}

} // verus!
