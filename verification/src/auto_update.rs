//! Identifiers and bookkeeping for the nodes and edges generated from a
//! scanned source tree.
use vstd::prelude::*;
use crate::document_sections::is_document_name;
use crate::paths::{KgPath, PathV, extension_spec, file_name_spec};
use crate::sorting::views;
use crate::text::{
    append_chars, append_str, ascii_lower_chars, ascii_lower_seq, chars_eq_str, chars_of,
    copy_chars, find_char, find_char_from_exec, join_with, str_eq, string_of, trim, trim_chars,
};

verus! {

/// What one update of the generated nodes and edges changed.
pub struct AutoUpdateSummary {
    pub roots_updated: usize,
    pub nodes_added: usize,
    pub nodes_updated: usize,
    pub nodes_removed: usize,
    pub edges_added: usize,
    pub edges_removed: usize,
    pub edges_updated: usize,
    pub notes_removed: usize,
}

impl AutoUpdateSummary {
    /// A summary with every count zero.
    pub fn new() -> (r: AutoUpdateSummary)
        ensures
            r.roots_updated == 0 && r.nodes_added == 0 && r.nodes_updated == 0,
            r.nodes_removed == 0 && r.edges_added == 0 && r.edges_removed == 0,
            r.edges_updated == 0 && r.notes_removed == 0,
    {
        AutoUpdateSummary {
            roots_updated: 0,
            nodes_added: 0,
            nodes_updated: 0,
            nodes_removed: 0,
            edges_added: 0,
            edges_removed: 0,
            edges_updated: 0,
            notes_removed: 0,
        }
    }
}

// ---------------------------------------------------------------------------
// Escaping names into identifiers
// ---------------------------------------------------------------------------

/// One character of a name in an identifier: `~` doubled, `:` as `~c`.
pub open spec fn escape_char_spec(c: char) -> Seq<char> {
    if c == '~' {
        seq!['~', '~']
    } else if c == ':' {
        seq!['~', 'c']
    } else {
        seq![c]
    }
}

/// A name escaped so that it holds no `:`.
pub open spec fn escape_name_spec(s: Seq<char>) -> Seq<char>
    decreases s.len(),
{
    if s.len() == 0 {
        Seq::empty()
    } else {
        escape_char_spec(s[0]) + escape_name_spec(s.drop_first())
    }
}

/// Reverses `escape_name_spec`: `~~` is `~`, `~c` is `:`, any other `~`
/// stands for itself.
pub open spec fn unescape_spec(s: Seq<char>) -> Seq<char>
    decreases s.len(),
{
    if s.len() == 0 {
        Seq::empty()
    } else if s[0] != '~' {
        seq![s[0]] + unescape_spec(s.drop_first())
    } else if s.len() == 1 {
        seq!['~']
    } else if s[1] == '~' {
        seq!['~'] + unescape_spec(s.skip(2))
    } else if s[1] == 'c' {
        seq![':'] + unescape_spec(s.skip(2))
    } else {
        seq!['~', s[1]] + unescape_spec(s.skip(2))
    }
}

/// A name escaped for use in a generated identifier: `~` becomes `~~` and
/// `:` becomes `~c`.
pub fn escape_name(name: &str) -> (r: String)
    ensures
        r@ == escape_name_spec(name@),
{
    let cs = chars_of(name);
    let mut out: Vec<char> = Vec::new();
    let mut i: usize = 0;
    assert(cs@.skip(0) =~= cs@);
    while i < cs.len()
        invariant
            i <= cs.len(),
            cs@ == name@,
            escape_name_spec(name@) == out@ + escape_name_spec(cs@.skip(i as int)),
        decreases cs.len() - i,
    {
        let c = cs[i];
        proof {
            assert(cs@.skip(i as int)[0] == c);
            assert(cs@.skip(i as int).drop_first() =~= cs@.skip(i + 1));
        }
        if c == '~' {
            out.push('~');
            out.push('~');
        } else if c == ':' {
            out.push('~');
            out.push('c');
        } else {
            out.push(c);
        }
        proof {
            assert(escape_name_spec(name@) =~= out@ + escape_name_spec(cs@.skip(i + 1)));
        }
        i += 1;
    }
    proof {
        assert(cs@.skip(i as int) =~= Seq::<char>::empty());
        assert(out@ + Seq::<char>::empty() =~= out@);
    }
    string_of(out.as_slice())
}

/// The path text held in a generated identifier.
pub fn unescape_generated_path(value: &str) -> (r: String)
    ensures
        r@ == unescape_spec(value@),
{
    let cs = chars_of(value);
    let mut out: Vec<char> = Vec::new();
    let mut i: usize = 0;
    assert(cs@.skip(0) =~= cs@);
    while i < cs.len()
        invariant
            i <= cs.len(),
            cs@ == value@,
            unescape_spec(value@) == out@ + unescape_spec(cs@.skip(i as int)),
        decreases cs.len() - i,
    {
        let ghost rest = cs@.skip(i as int);
        let c = cs[i];
        proof {
            assert(rest[0] == c);
            assert(rest.drop_first() =~= cs@.skip(i + 1));
        }
        if c != '~' {
            out.push(c);
            i += 1;
        } else if i + 1 == cs.len() {
            out.push('~');
            i += 1;
            proof {
                assert(rest.len() == 1);
            }
        } else {
            let d = cs[i + 1];
            proof {
                assert(rest[1] == d);
                assert(rest.skip(2) =~= cs@.skip(i + 2));
            }
            if d == '~' {
                out.push('~');
            } else if d == 'c' {
                out.push(':');
            } else {
                out.push('~');
                out.push(d);
            }
            i += 2;
        }
        proof {
            assert(unescape_spec(value@) =~= out@ + unescape_spec(cs@.skip(i as int)));
        }
    }
    proof {
        assert(cs@.skip(i as int) =~= Seq::<char>::empty());
        assert(out@ + Seq::<char>::empty() =~= out@);
    }
    string_of(out.as_slice())
}

/// Unescaping an escaped name gives the name back.
pub proof fn law_unescape_escape(s: Seq<char>)
    ensures
        unescape_spec(escape_name_spec(s)) == s,
    decreases s.len(),
{
    if s.len() > 0 {
        let rest = s.drop_first();
        law_unescape_escape(rest);
        let e = escape_name_spec(s);
        let er = escape_name_spec(rest);
        let c = s[0];
        assert(e == escape_char_spec(c) + er);
        if c == '~' || c == ':' {
            assert(e.skip(2) =~= er);
        } else {
            assert(e.drop_first() =~= er);
        }
        assert(s =~= seq![c] + rest);
    }
}

/// An escaped name holds no `:`.
pub proof fn law_escaped_name_has_no_colon(s: Seq<char>)
    ensures
        !escape_name_spec(s).contains(':'),
    decreases s.len(),
{
    if s.len() > 0 {
        law_escaped_name_has_no_colon(s.drop_first());
        let e = escape_name_spec(s);
        let h = escape_char_spec(s[0]);
        let t = escape_name_spec(s.drop_first());
        assert(e == h + t);
        if e.contains(':') {
            let k = choose|k: int| 0 <= k < e.len() && e[k] == ':';
            if k < h.len() {
                assert(h[k] == ':');
            } else {
                assert(t[k - h.len()] == ':');
            }
        }
    }
}

// ---------------------------------------------------------------------------
// Scan roots
// ---------------------------------------------------------------------------

/// The path a trimmed, non-empty source entry names: the text after the
/// first space (the source kind comes before it), or the whole entry when
/// it has no space or nothing follows the space.
pub open spec fn scan_path_of(t: Seq<char>) -> Seq<char> {
    match find_char(t, ' ') {
        None => t,
        Some(pos) => if trim(t.skip(pos + 1)).len() > 0 {
            trim(t.skip(pos + 1))
        } else {
            t
        },
    }
}

/// The path named by the first non-blank source entry.
pub open spec fn extract_scan_path_spec(sources: Seq<Seq<char>>) -> Option<Seq<char>>
    decreases sources.len(),
{
    if sources.len() == 0 {
        None
    } else if trim(sources[0]).len() == 0 {
        extract_scan_path_spec(sources.drop_first())
    } else {
        Some(scan_path_of(trim(sources[0])))
    }
}

/// The directory to scan, from a node's source entries such as
/// `SOURCECODE /abs/path`: the first non-blank entry decides.
pub fn extract_scan_path(sources: &Vec<String>) -> (r: Option<String>)
    ensures
        match extract_scan_path_spec(views(sources@)) {
            Some(p) => r matches Some(s) && s@ == p,
            None => r is None,
        },
{
    let ghost sv = views(sources@);
    let mut i: usize = 0;
    assert(sv.skip(0) =~= sv);
    while i < sources.len()
        invariant
            i <= sources.len(),
            sv == views(sources@),
            extract_scan_path_spec(sv) == extract_scan_path_spec(sv.skip(i as int)),
        decreases sources.len() - i,
    {
        proof {
            assert(sv.skip(i as int)[0] == sources@[i as int]@);
            assert(sv.skip(i as int).drop_first() =~= sv.skip(i + 1));
        }
        let cs = chars_of(sources[i].as_str());
        let t = trim_chars(cs.as_slice());
        if t.len() > 0 {
            proof {
                crate::text::lemma_find_char_from(t@, ' ', 0);
            }
            match find_char_from_exec(t.as_slice(), ' ', 0) {
                None => {
                    return Some(string_of(t.as_slice()));
                },
                Some(pos) => {
                    let rest = copy_chars(t.as_slice(), pos + 1, t.len());
                    let p = trim_chars(rest.as_slice());
                    proof {
                        assert(rest@ =~= t@.skip(pos + 1));
                    }
                    if p.len() > 0 {
                        return Some(string_of(p.as_slice()));
                    }
                    return Some(string_of(t.as_slice()));
                },
            }
        }
        i += 1;
    }
    proof {
        assert(sv.skip(i as int) =~= Seq::<Seq<char>>::empty());
    }
    None
}

/// Directory names a scan never enters.
pub open spec fn is_skipped_dir_name(n: Seq<char>) -> bool {
    ||| n == ".git"@
    ||| n == "node_modules"@
    ||| n == "target"@
    ||| n == "dist"@
    ||| n == "build"@
    ||| n == "out"@
    ||| n == ".cache"@
}

/// Whether a scan skips the entry at `path`, by its name.
pub fn should_skip_directory(path: &KgPath) -> (r: bool)
    ensures
        r == (file_name_spec(path@) matches Some(n) && is_skipped_dir_name(n)),
{
    match path.file_name() {
        Some(name) => {
            let n = name.as_str();
            str_eq(n, ".git") || str_eq(n, "node_modules") || str_eq(n, "target") || str_eq(
                n,
                "dist",
            ) || str_eq(n, "build") || str_eq(n, "out") || str_eq(n, ".cache")
        },
        None => false,
    }
}

/// File names worth scanning whatever their extension.
pub open spec fn is_known_file_name(n: Seq<char>) -> bool {
    ||| is_document_name(n)
    ||| n == "Cargo.toml"@
    ||| n == "Cargo.lock"@
    ||| n == "package.json"@
    ||| n == "pnpm-lock.yaml"@
    ||| n == "yarn.lock"@
    ||| n == "package-lock.json"@
    ||| n == "pyproject.toml"@
    ||| n == "Pipfile"@
    ||| n == "Pipfile.lock"@
    ||| n == "Gemfile"@
    ||| n == "Gemfile.lock"@
    ||| n == "Makefile"@
    ||| n == "CMakeLists.txt"@
    ||| n == "Dockerfile"@
    ||| n == "justfile"@
    ||| n == ".gitignore"@
    ||| n == ".gitattributes"@
    ||| n == ".editorconfig"@
}

/// The extensions, in lower case, of files worth scanning.
pub open spec fn known_extensions() -> Seq<Seq<char>> {
    seq![
        "md"@, "markdown"@, "txt"@, "rst"@, "adoc"@, "json"@, "yaml"@, "yml"@, "toml"@, "xml"@,
        "html"@, "htm"@, "css"@, "scss"@, "less"@, "rs"@, "c"@, "h"@, "cc"@, "cpp"@, "cxx"@,
        "hpp"@, "java"@, "kt"@, "kts"@, "js"@, "jsx"@, "ts"@, "tsx"@, "py"@, "rb"@, "go"@,
        "php"@, "swift"@, "scala"@, "sh"@, "bash"@, "zsh"@, "fish"@, "sql"@, "proto"@,
        "graphql"@, "gql"@, "lua"@, "cs"@, "fs"@, "hs"@, "ml"@, "elm"@, "dart"@, "pl"@, "pm"@,
        "ex"@, "exs"@, "clj"@, "edn"@, "r"@, "ini"@, "cfg"@, "conf"@, "csv"@, "log"@, "lock"@,
    ]
}

fn known_extension_list() -> (r: Vec<&'static str>)
    ensures
        r@.map_values(|s: &str| s@) == known_extensions(),
{
    let v: Vec<&'static str> = vec![
        "md", "markdown", "txt", "rst", "adoc", "json", "yaml", "yml", "toml", "xml", "html",
        "htm", "css", "scss", "less", "rs", "c", "h", "cc", "cpp", "cxx", "hpp", "java", "kt",
        "kts", "js", "jsx", "ts", "tsx", "py", "rb", "go", "php", "swift", "scala", "sh", "bash",
        "zsh", "fish", "sql", "proto", "graphql", "gql", "lua", "cs", "fs", "hs", "ml", "elm",
        "dart", "pl", "pm", "ex", "exs", "clj", "edn", "r", "ini", "cfg", "conf", "csv", "log",
        "lock",
    ];
    proof {
        assert(v@.map_values(|s: &str| s@) =~= known_extensions());
    }
    v
}

/// Whether a file is one a scan keeps when it ignores unknown files.
pub open spec fn is_known_scannable_spec(p: PathV) -> bool {
    ||| (file_name_spec(p) matches Some(n) && is_known_file_name(n))
    ||| (extension_spec(p) matches Some(e) && known_extensions().contains(ascii_lower_seq(e)))
}

/// Whether the file at `path` is a kind a scan understands.
pub fn is_known_scannable_file(path: &KgPath) -> (r: bool)
    ensures
        r == is_known_scannable_spec(path@),
{
    let named = match path.file_name() {
        Some(name) => {
            let n = name.as_str();
            str_eq(n, "README") || str_eq(n, "README.md") || str_eq(n, "README.markdown")
                || str_eq(n, "CHANGELOG.md") || str_eq(n, "LICENSE") || str_eq(n, "COPYING")
                || str_eq(n, "Cargo.toml") || str_eq(n, "Cargo.lock") || str_eq(n, "package.json")
                || str_eq(n, "pnpm-lock.yaml") || str_eq(n, "yarn.lock") || str_eq(
                n,
                "package-lock.json",
            ) || str_eq(n, "pyproject.toml") || str_eq(n, "Pipfile") || str_eq(n, "Pipfile.lock")
                || str_eq(n, "Gemfile") || str_eq(n, "Gemfile.lock") || str_eq(n, "Makefile")
                || str_eq(n, "CMakeLists.txt") || str_eq(n, "Dockerfile") || str_eq(n, "justfile")
                || str_eq(n, ".gitignore") || str_eq(n, ".gitattributes") || str_eq(
                n,
                ".editorconfig",
            )
        },
        None => false,
    };
    if named {
        return true;
    }
    match path.extension() {
        Some(ext) => {
            let cs = chars_of(ext.as_str());
            let e = ascii_lower_chars(cs.as_slice());
            let list = known_extension_list();
            let ghost lv = list@.map_values(|s: &str| s@);
            let mut k: usize = 0;
            while k < list.len()
                invariant
                    k <= list.len(),
                    lv == list@.map_values(|s: &str| s@),
                    lv == known_extensions(),
                    e@ == ascii_lower_seq(ext@),
                    extension_spec(path@) == Some(ext@),
                    forall|j: int| 0 <= j < k ==> lv[j] != e@,
                decreases list.len() - k,
            {
                if chars_eq_str(e.as_slice(), list[k]) {
                    proof {
                        assert(lv[k as int] == e@);
                    }
                    return true;
                }
                k += 1;
            }
            false
        },
        None => false,
    }
}

// ---------------------------------------------------------------------------
// Generated identifiers
// ---------------------------------------------------------------------------

/// The relation of generated edges, older spellings mapped to the current
/// ones.
pub open spec fn canonical_relation_spec(relation: Seq<char>) -> Seq<char> {
    if relation == "GHAS"@ || relation == "HAS"@ {
        "GHAS"@
    } else if relation == "GDEF"@ || relation == "GDEFINES"@ {
        "GDEF"@
    } else {
        relation
    }
}

/// The current spelling of a generated relation.
pub fn canonical_generated_relation(relation: &str) -> (r: String)
    ensures
        r@ == canonical_relation_spec(relation@),
{
    if str_eq(relation, "GHAS") || str_eq(relation, "HAS") {
        String::from_str("GHAS")
    } else if str_eq(relation, "GDEF") || str_eq(relation, "GDEFINES") {
        String::from_str("GDEF")
    } else {
        String::from_str(relation)
    }
}

/// Whether a node type is one of the generated file and directory types.
pub fn is_generated_path_node(node_type: &str) -> (r: bool)
    ensures
        r == (node_type@ == "GFIL"@ || node_type@ == "GDIR"@),
{
    str_eq(node_type, "GFIL") || str_eq(node_type, "GDIR")
}

/// The component texts of a path: `/` for the root, then its parts.
pub open spec fn component_texts(p: PathV) -> Seq<Seq<char>> {
    if p.absolute {
        seq!["/"@] + p.parts
    } else {
        p.parts
    }
}

/// The path part of a generated identifier: the components joined by `/`,
/// escaped.
pub open spec fn path_suffix_spec(p: PathV) -> Seq<char> {
    escape_name_spec(join_with(component_texts(p), '/'))
}

fn join_strings(parts: &Vec<String>, from: usize, sep: char) -> (r: Vec<char>)
    requires
        from <= parts.len(),
    ensures
        r@ == join_with(views(parts@).skip(from as int), sep),
{
    let ghost pv = views(parts@).skip(from as int);
    let mut out: Vec<char> = Vec::new();
    let mut i: usize = from;
    while i < parts.len()
        invariant
            from <= i <= parts.len(),
            pv == views(parts@).skip(from as int),
            out@ == join_with(pv.take(i - from), sep),
        decreases parts.len() - i,
    {
        let ghost before = pv.take(i - from);
        if i > from {
            out.push(sep);
        }
        append_str(&mut out, parts[i].as_str());
        proof {
            let now = pv.take(i + 1 - from);
            assert(pv[i - from] == parts@[i as int]@);
            assert(now =~= before.push(parts@[i as int]@));
            assert(now.drop_last() =~= before);
            if i == from {
                assert(now.len() == 1);
            }
        }
        i += 1;
    }
    proof {
        assert(pv.take(i - from) =~= pv);
    }
    out
}

/// The path part of a generated identifier.
pub fn generated_path_suffix(relative_path: &KgPath) -> (r: String)
    ensures
        r@ == path_suffix_spec(relative_path@),
{
    let joined = if relative_path.absolute {
        let mut all: Vec<String> = Vec::new();
        all.push(String::from_str("/"));
        let mut k: usize = 0;
        while k < relative_path.parts.len()
            invariant
                k <= relative_path.parts.len(),
                views(all@) == seq!["/"@] + views(relative_path.parts@).take(k as int),
            decreases relative_path.parts.len() - k,
        {
            let x = relative_path.parts[k].clone();
            let ghost before = views(all@);
            all.push(x);
            proof {
                assert(views(all@) =~= before.push(x@));
                assert(views(relative_path.parts@).take(k + 1) =~= views(relative_path.parts@).take(
                    k as int,
                ).push(views(relative_path.parts@)[k as int]));
            }
            k += 1;
        }
        proof {
            assert(views(relative_path.parts@).take(k as int) =~= views(relative_path.parts@));
            assert(views(all@).skip(0) =~= views(all@));
        }
        join_strings(&all, 0, '/')
    } else {
        proof {
            assert(views(relative_path.parts@).skip(0) =~= views(relative_path.parts@));
        }
        join_strings(&relative_path.parts, 0, '/')
    };
    let text = string_of(joined.as_slice());
    escape_name(text.as_str())
}

/// `<kind>:<path>`: the identifier of a generated file or directory node.
pub fn generated_node_id(node_type: &str, relative_path: &KgPath) -> (r: String)
    ensures
        r@ == node_type@ + ":"@ + path_suffix_spec(relative_path@),
{
    let mut out: Vec<char> = Vec::new();
    append_str(&mut out, node_type);
    append_str(&mut out, ":");
    let s = generated_path_suffix(relative_path);
    append_str(&mut out, s.as_str());
    string_of(out.as_slice())
}

/// The identifier of the document node of a file.
pub fn generated_document_id(relative_path: &KgPath) -> (r: String)
    ensures
        r@ == "GDOC:"@ + path_suffix_spec(relative_path@),
{
    let mut out: Vec<char> = Vec::new();
    append_str(&mut out, "GDOC:");
    let s = generated_path_suffix(relative_path);
    append_str(&mut out, s.as_str());
    string_of(out.as_slice())
}

/// The identifier of a section node of a document.
pub fn generated_section_id(relative_path: &KgPath, id_path: &Vec<String>) -> (r: String)
    ensures
        r@ == "GSEC:"@ + path_suffix_spec(relative_path@) + "/__section__/"@ + escape_name_spec(
            join_with(views(id_path@), '/'),
        ),
{
    let mut out: Vec<char> = Vec::new();
    append_str(&mut out, "GSEC:");
    let s = generated_path_suffix(relative_path);
    append_str(&mut out, s.as_str());
    append_str(&mut out, "/__section__/");
    proof {
        assert(views(id_path@).skip(0) =~= views(id_path@));
    }
    let joined = join_strings(id_path, 0, '/');
    let j = string_of(joined.as_slice());
    let e = escape_name(j.as_str());
    append_str(&mut out, e.as_str());
    string_of(out.as_slice())
}

/// The identifier of a code symbol node of a file.
pub fn generated_symbol_id(relative_path: &KgPath, kind: &str, name: &str) -> (r: String)
    ensures
        r@ == "GSYM:"@ + escape_name_spec(path_suffix_spec(relative_path@)) + "/"@
            + escape_name_spec(kind@) + "/"@ + escape_name_spec(name@),
{
    let mut out: Vec<char> = Vec::new();
    append_str(&mut out, "GSYM:");
    let s = generated_path_suffix(relative_path);
    let es = escape_name(s.as_str());
    append_str(&mut out, es.as_str());
    append_str(&mut out, "/");
    let ek = escape_name(kind);
    append_str(&mut out, ek.as_str());
    append_str(&mut out, "/");
    let en = escape_name(name);
    append_str(&mut out, en.as_str());
    string_of(out.as_slice())
}

/// The identifier older versions gave the document node of a file.
pub fn legacy_generated_document_id(relative_path: &KgPath) -> (r: String)
    ensures
        r@ == "__doc__/"@ + path_suffix_spec(relative_path@),
{
    let mut out: Vec<char> = Vec::new();
    append_str(&mut out, "__doc__/");
    let s = generated_path_suffix(relative_path);
    append_str(&mut out, s.as_str());
    string_of(out.as_slice())
}

/// The identifier older versions gave a section node.
pub fn legacy_generated_section_id(relative_path: &KgPath, id_path: &Vec<String>) -> (r: String)
    ensures
        r@ == "__doc__/"@ + path_suffix_spec(relative_path@) + "/__section__/"@ + join_with(
            views(id_path@),
            '/',
        ),
{
    let mut out: Vec<char> = Vec::new();
    append_str(&mut out, "__doc__/");
    let s = generated_path_suffix(relative_path);
    append_str(&mut out, s.as_str());
    append_str(&mut out, "/__section__/");
    proof {
        assert(views(id_path@).skip(0) =~= views(id_path@));
    }
    let joined = join_strings(id_path, 0, '/');
    append_chars(&mut out, joined.as_slice());
    string_of(out.as_slice())
}

/// The identifier older versions gave a code symbol node.
pub fn legacy_generated_symbol_id(relative_path: &KgPath, kind: &str, name: &str) -> (r: String)
    ensures
        r@ == escape_name_spec(path_suffix_spec(relative_path@)) + "~c"@ + escape_name_spec(kind@)
            + "~c"@ + escape_name_spec(name@),
{
    let mut out: Vec<char> = Vec::new();
    let s = generated_path_suffix(relative_path);
    let es = escape_name(s.as_str());
    append_str(&mut out, es.as_str());
    append_str(&mut out, "~c");
    let ek = escape_name(kind);
    append_str(&mut out, ek.as_str());
    append_str(&mut out, "~c");
    let en = escape_name(name);
    append_str(&mut out, en.as_str());
    string_of(out.as_slice())
}

/// The source entry recorded on generated nodes for a file.
pub fn source_reference(path_text: &str) -> (r: String)
    ensures
        r@ == "SOURCECODE "@ + path_text@,
{
    let mut out: Vec<char> = Vec::new();
    append_str(&mut out, "SOURCECODE ");
    append_str(&mut out, path_text);
    string_of(out.as_slice())
}

} // verus!
