//! Files kept beside a `.kg` graph: the hit and feedback log and the index
//! of node header lines.
use vstd::prelude::*;
use crate::cache_paths::{cache_root_for_graph, cache_root_for_graph_spec};
use crate::kg_codec::{parse_u64, parse_u64_spec};
use crate::paths::{KgPath, PathV, extension_spec, file_stem_spec, join_spec, parse_spec};
use crate::text::{
    append_chars, append_str, chars_of, decimal, lines, lines_exec, seqs_view, split_once,
    split_once_chars, str_eq, string_of, strip_prefix, strip_prefix_str, trim, trim_chars,
};

verus! {

/// Whether a graph is stored in the `.kg` text format.
pub open spec fn is_kg_graph_spec(g: PathV) -> bool {
    extension_spec(g) == Some("kg"@)
}

/// The file `<stem><suffix>` in the cache directory of a `.kg` graph.
pub open spec fn kg_cache_file_spec(g: PathV, suffix: Seq<char>) -> Option<PathV> {
    if is_kg_graph_spec(g) {
        match file_stem_spec(g) {
            Some(stem) => Some(join_spec(cache_root_for_graph_spec(g), parse_spec(stem + suffix))),
            None => None,
        }
    } else {
        None
    }
}

/// Whether the graph at `path` is stored in the `.kg` text format.
pub fn is_kg_graph(path: &KgPath) -> (r: bool)
    ensures
        r == is_kg_graph_spec(path@),
{
    match path.extension() {
        Some(e) => str_eq(e.as_str(), "kg"),
        None => false,
    }
}

fn kg_cache_file(graph_path: &KgPath, suffix: &str) -> (r: Option<KgPath>)
    ensures
        match kg_cache_file_spec(graph_path@, suffix@) {
            Some(p) => r matches Some(q) && q@ == p,
            None => r is None,
        },
{
    if is_kg_graph(graph_path) {
        match graph_path.file_stem() {
            Some(stem) => {
                let mut name: Vec<char> = Vec::new();
                append_str(&mut name, stem.as_str());
                append_str(&mut name, suffix);
                let n = string_of(name.as_slice());
                Some(cache_root_for_graph(graph_path).join_str(n.as_str()))
            },
            None => None,
        }
    } else {
        None
    }
}

/// The hit and feedback log of a `.kg` graph; `None` for other graphs.
pub fn kglog_path(graph_path: &KgPath) -> (r: Option<KgPath>)
    ensures
        match kg_cache_file_spec(graph_path@, ".kglog"@) {
            Some(p) => r matches Some(q) && q@ == p,
            None => r is None,
        },
{
    kg_cache_file(graph_path, ".kglog")
}

/// The node line index of a `.kg` graph; `None` for other graphs.
pub fn kgindex_path(graph_path: &KgPath) -> (r: Option<KgPath>)
    ensures
        match kg_cache_file_spec(graph_path@, ".kgindex"@) {
            Some(p) => r matches Some(q) && q@ == p,
            None => r is None,
        },
{
    kg_cache_file(graph_path, ".kgindex")
}

/// One character of a log field, with backslash, newline and carriage
/// return escaped.
pub open spec fn log_escape(c: char) -> Seq<char> {
    if c == '\\' {
        seq!['\\', '\\']
    } else if c == '\n' {
        seq!['\\', 'n']
    } else if c == '\r' {
        seq!['\\', 'r']
    } else {
        seq![c]
    }
}

/// The escapes of the characters of `s`, concatenated.
pub open spec fn log_escape_all(s: Seq<char>) -> Seq<char>
    decreases s.len(),
{
    if s.len() == 0 {
        Seq::empty()
    } else {
        log_escape_all(s.drop_last()) + log_escape(s.last())
    }
}

/// An escaped log field holds no line break, so a log entry stays on one
/// line.
pub proof fn law_log_field_single_line(value: Seq<char>)
    ensures
        !normalize_field_spec(value).contains('\n'),
        !normalize_field_spec(value).contains('\r'),
{
    lemma_log_escape_all_single_line(trim(value));
}

proof fn lemma_log_escape_all_single_line(s: Seq<char>)
    ensures
        !log_escape_all(s).contains('\n'),
        !log_escape_all(s).contains('\r'),
    decreases s.len(),
{
    if s.len() > 0 {
        lemma_log_escape_all_single_line(s.drop_last());
        let a = log_escape_all(s.drop_last());
        let b = log_escape(s.last());
        let e = log_escape_all(s);
        assert(e == a + b);
        assert forall|i: int| 0 <= i < e.len() implies e[i] != '\n' && e[i] != '\r' by {
            if i < a.len() {
                assert(e[i] == a[i]);
            } else {
                assert(e[i] == b[i - a.len()]);
            }
        }
    }
}

/// A free-text log field: trimmed, and kept on one line.
pub open spec fn normalize_field_spec(value: Seq<char>) -> Seq<char> {
    log_escape_all(trim(value))
}

/// A free-text log field: trimmed, with backslashes, newlines and carriage
/// returns escaped so that the entry stays on one line.
pub fn normalize_kglog_field(value: &str) -> (r: String)
    ensures
        r@ == normalize_field_spec(value@),
{
    let cs = chars_of(value);
    let t = trim_chars(cs.as_slice());
    let mut out: Vec<char> = Vec::new();
    let mut i: usize = 0;
    while i < t.len()
        invariant
            i <= t.len(),
            out@ == log_escape_all(t@.take(i as int)),
        decreases t.len() - i,
    {
        let c = t[i];
        proof {
            assert(t@.take(i + 1).drop_last() =~= t@.take(i as int));
        }
        if c == '\\' {
            out.push('\\');
            out.push('\\');
        } else if c == '\n' {
            out.push('\\');
            out.push('n');
        } else if c == '\r' {
            out.push('\\');
            out.push('r');
        } else {
            out.push(c);
        }
        proof {
            assert(out@ =~= log_escape_all(t@.take(i + 1)));
        }
        i += 1;
    }
    proof {
        assert(t@.take(i as int) =~= t@);
    }
    string_of(out.as_slice())
}

/// A log entry: timestamp, user, marker and node, then the escaped field
/// when there is one, and a newline.
pub open spec fn kglog_line_spec(
    timestamp: Seq<char>,
    uid: Seq<char>,
    marker: char,
    node_id: Seq<char>,
    feedback: Option<Seq<char>>,
) -> Seq<char> {
    let head = timestamp + " "@ + uid + " "@ + seq![marker] + " "@ + node_id;
    match feedback {
        Some(f) => head + " "@ + normalize_field_spec(f) + "\n"@,
        None => head + "\n"@,
    }
}

/// The text of one log entry.
pub fn kglog_line(
    timestamp: &str,
    uid: &str,
    marker: char,
    node_id: &str,
    feedback: Option<&str>,
) -> (r: String)
    ensures
        r@ == kglog_line_spec(
            timestamp@,
            uid@,
            marker,
            node_id@,
            match feedback {
                Some(f) => Some(f@),
                None => None,
            },
        ),
{
    let mut out: Vec<char> = Vec::new();
    append_str(&mut out, timestamp);
    append_str(&mut out, " ");
    append_str(&mut out, uid);
    append_str(&mut out, " ");
    out.push(marker);
    append_str(&mut out, " ");
    append_str(&mut out, node_id);
    let ghost head = out@;
    match feedback {
        Some(f) => {
            append_str(&mut out, " ");
            let n = normalize_kglog_field(f);
            append_str(&mut out, n.as_str());
        },
        None => {},
    }
    append_str(&mut out, "\n");
    proof {
        assert(head =~= timestamp@ + " "@ + uid@ + " "@ + seq![marker] + " "@ + node_id@);
    }
    string_of(out.as_slice())
}

/// The log entry to append for a graph, and the file to append it to;
/// `None` for a graph that is not stored as `.kg`, which keeps no log.
pub fn kglog_entry(
    graph_path: &KgPath,
    timestamp: &str,
    uid: &str,
    marker: char,
    node_id: &str,
    feedback: Option<&str>,
) -> (r: Option<(KgPath, String)>)
    ensures
        match kg_cache_file_spec(graph_path@, ".kglog"@) {
            Some(p) => r matches Some(e) && e.0@ == p && e.1@ == kglog_line_spec(
                timestamp@,
                uid@,
                marker,
                node_id@,
                match feedback {
                    Some(f) => Some(f@),
                    None => None,
                },
            ),
            None => r is None,
        },
{
    match kglog_path(graph_path) {
        Some(p) => Some((p, kglog_line(timestamp, uid, marker, node_id, feedback))),
        None => None,
    }
}

/// `usize::from_str` on a 64-bit machine.
pub open spec fn parse_usize_spec(s: Seq<char>) -> Option<usize> {
    match parse_u64_spec(s) {
        Some(v) => if v <= usize::MAX {
            Some(v as usize)
        } else {
            None
        },
        None => None,
    }
}

/// The line number recorded for `node_id` in index lines `ls`: the first
/// line whose word before the first space is the id gives it; a line
/// without a space ends the search with nothing.
pub open spec fn index_lookup(ls: Seq<Seq<char>>, node_id: Seq<char>) -> Option<usize>
    decreases ls.len(),
{
    if ls.len() == 0 {
        None
    } else {
        match split_once(ls[0], ' ') {
            None => None,
            Some(parts) => if parts.0 == node_id {
                parse_usize_spec(trim(parts.1))
            } else {
                index_lookup(ls.drop_first(), node_id)
            },
        }
    }
}

/// The line of node `node_id` according to the text of a node index.
pub fn find_node_line(index_text: &str, node_id: &str) -> (r: Option<usize>)
    ensures
        r == index_lookup(lines(index_text@), node_id@),
{
    let cs = chars_of(index_text);
    let ls = lines_exec(cs.as_slice());
    let ghost lv = seqs_view(ls@);
    let mut i: usize = 0;
    assert(lv.skip(0) =~= lv);
    while i < ls.len()
        invariant
            i <= ls.len(),
            lv == seqs_view(ls@),
            lv == lines(index_text@),
            index_lookup(lv, node_id@) == index_lookup(lv.skip(i as int), node_id@),
        decreases ls.len() - i,
    {
        proof {
            assert(lv.skip(i as int)[0] == ls@[i as int]@);
            assert(lv.skip(i as int).drop_first() =~= lv.skip(i + 1));
        }
        match split_once_chars(ls[i].as_slice(), ' ') {
            None => {
                return None;
            },
            Some((id, rest)) => {
                if crate::text::chars_eq_str(id.as_slice(), node_id) {
                    let t = trim_chars(rest.as_slice());
                    return match parse_u64(t.as_slice()) {
                        Some(v) => if v <= usize::MAX as u64 {
                            Some(v as usize)
                        } else {
                            None
                        },
                        None => None,
                    };
                }
            },
        }
        i += 1;
    }
    proof {
        assert(lv.skip(i as int) =~= Seq::<Seq<char>>::empty());
    }
    None
}

/// A node type's header tokens (name, code, id prefix) and its id prefix.
pub type TypePrefixV = (Seq<Seq<char>>, Seq<char>);

/// The id prefix of the first type whose tokens include `t`.
pub open spec fn type_prefix(table: Seq<TypePrefixV>, t: Seq<char>) -> Option<Seq<char>>
    decreases table.len(),
{
    if table.len() == 0 {
        None
    } else if table[0].0.contains(t) {
        Some(table[0].1)
    } else {
        type_prefix(table.drop_first(), t)
    }
}

/// The node id of a (trimmed) header line `@ <type>:<id>`: the id when it
/// holds a `:` itself, else the id under the prefix of its type when the
/// type is known, else the id alone; `None` for other lines.
pub open spec fn header_node_id(line: Seq<char>, table: Seq<TypePrefixV>) -> Option<Seq<char>> {
    match strip_prefix(line, "@ "@) {
        None => None,
        Some(rest) => match split_once(trim(rest), ':') {
            None => None,
            Some((ty, id)) => {
                let tt = trim(ty);
                let nt = trim(id);
                if nt.len() == 0 {
                    None
                } else if nt.contains(':') {
                    Some(nt)
                } else {
                    match type_prefix(table, tt) {
                        Some(p) => Some(p + ":"@ + nt),
                        None => Some(nt),
                    }
                }
            },
        },
    }
}

/// The index entries `<id> <line number>` of the header lines from line
/// `i` on (lines counted from 1).
pub open spec fn index_entries(ls: Seq<Seq<char>>, i: int, table: Seq<TypePrefixV>) -> Seq<Seq<char>>
    decreases ls.len() - i,
{
    if i < 0 || i >= ls.len() {
        Seq::empty()
    } else {
        match header_node_id(trim(ls[i]), table) {
            Some(id) => seq![id + " "@ + decimal((i + 1) as nat)] + index_entries(ls, i + 1, table),
            None => index_entries(ls, i + 1, table),
        }
    }
}

/// The text of the node index of a `.kg` text: one entry per node header,
/// one per line, and a final newline.
pub open spec fn kgindex_spec(raw: Seq<char>, table: Seq<TypePrefixV>) -> Seq<char> {
    crate::mcp_text::join_sep(index_entries(lines(raw), 0, table), "\n"@) + "\n"@
}

/// The views of a type table.
pub open spec fn table_view(t: Seq<(Vec<String>, String)>) -> Seq<TypePrefixV> {
    t.map_values(|e: (Vec<String>, String)| (crate::text::strings_view(e.0@), e.1@))
}

fn contains_token(toks: &Vec<String>, t: &[char]) -> (r: bool)
    ensures
        r == crate::text::strings_view(toks@).contains(t@),
{
    let ghost sv = crate::text::strings_view(toks@);
    let mut k: usize = 0;
    while k < toks.len()
        invariant
            k <= toks.len(),
            sv == crate::text::strings_view(toks@),
            forall|j: int| 0 <= j < k ==> sv[j] != t@,
        decreases toks.len() - k,
    {
        if crate::text::chars_eq_str(t, toks[k].as_str()) {
            assert(sv[k as int] == t@);
            return true;
        }
        k += 1;
    }
    false
}

fn type_prefix_exec(table: &Vec<(Vec<String>, String)>, t: &[char]) -> (r: Option<String>)
    ensures
        match r {
            Some(p) => type_prefix(table_view(table@), t@) == Some(p@),
            None => type_prefix(table_view(table@), t@) is None,
        },
{
    let ghost tv = table_view(table@);
    let mut i: usize = 0;
    assert(tv.skip(0) =~= tv);
    while i < table.len()
        invariant
            i <= table.len(),
            tv == table_view(table@),
            type_prefix(tv, t@) == type_prefix(tv.skip(i as int), t@),
        decreases table.len() - i,
    {
        proof {
            assert(tv.skip(i as int)[0] == tv[i as int]);
            assert(tv.skip(i as int).drop_first() =~= tv.skip(i + 1));
        }
        let found = contains_token(&table[i].0, t);
        if found {
            return Some(crate::graph::copy_string(&table[i].1));
        }
        i += 1;
    }
    assert(tv.skip(i as int) =~= Seq::<TypePrefixV>::empty());
    None
}

fn header_node_id_exec(line: &[char], table: &Vec<(Vec<String>, String)>) -> (r: Option<Vec<char>>)
    ensures
        match r {
            Some(id) => header_node_id(line@, table_view(table@)) == Some(id@),
            None => header_node_id(line@, table_view(table@)) is None,
        },
{
    let rest = match strip_prefix_str(line, "@ ") {
        None => {
            return None;
        },
        Some(r) => r,
    };
    let r2 = trim_chars(rest.as_slice());
    let (ty, id) = match split_once_chars(r2.as_slice(), ':') {
        None => {
            return None;
        },
        Some(p) => p,
    };
    let tt = trim_chars(ty.as_slice());
    let nt = trim_chars(id.as_slice());
    if nt.len() == 0 {
        return None;
    }
    if crate::text::contains_char(nt.as_slice(), ':') {
        return Some(nt);
    }
    match type_prefix_exec(table, tt.as_slice()) {
        Some(p) => {
            let mut out = chars_of(p.as_str());
            append_str(&mut out, ":");
            append_chars(&mut out, nt.as_slice());
            Some(out)
        },
        None => Some(nt),
    }
}

/// The text of the node index of a `.kg` text, as [`kgindex_spec`]
/// states; `table` gives, per node type, the tokens a header may name it
/// by and its id prefix.
pub fn kgindex_text(raw: &str, table: &Vec<(Vec<String>, String)>) -> (r: String)
    ensures
        r@ == kgindex_spec(raw@, table_view(table@)),
{
    let ls = lines_exec(chars_of(raw).as_slice());
    let ghost lv = seqs_view(ls@);
    let ghost tv = table_view(table@);
    let mut entries: Vec<String> = Vec::new();
    let mut i: usize = 0;
    while i < ls.len()
        invariant
            i <= ls.len(),
            lv == seqs_view(ls@),
            tv == table_view(table@),
            index_entries(lv, 0, tv) == crate::sorting::views(entries@) + index_entries(lv, i as int, tv),
        decreases ls.len() - i,
    {
        assert(lv[i as int] == ls@[i as int]@);
        let t = trim_chars(ls[i].as_slice());
        let ghost before = crate::sorting::views(entries@);
        match header_node_id_exec(t.as_slice(), table) {
            Some(id) => {
                let mut e: Vec<char> = Vec::new();
                append_chars(&mut e, id.as_slice());
                append_str(&mut e, " ");
                append_chars(&mut e, crate::text::decimal_usize(i + 1).as_slice());
                let es = string_of(e.as_slice());
                entries.push(es);
                assert(crate::sorting::views(entries@) =~= before.push(es@));
                assert(before.push(es@) + index_entries(lv, i + 1, tv) =~= before + (seq![es@] + index_entries(lv, i + 1, tv)));
            },
            None => {},
        }
        i += 1;
    }
    assert(index_entries(lv, i as int, tv) =~= Seq::<Seq<char>>::empty());
    assert(crate::sorting::views(entries@) + Seq::<Seq<char>>::empty() =~= crate::sorting::views(entries@));
    let ghost ev = crate::sorting::views(entries@);
    let mut out: Vec<char> = Vec::new();
    let mut k: usize = 0;
    while k < entries.len()
        invariant
            k <= entries.len(),
            ev == crate::sorting::views(entries@),
            out@ == crate::mcp_text::join_sep(ev.take(k as int), "\n"@),
        decreases entries.len() - k,
    {
        let ghost b = out@;
        if k > 0 {
            append_str(&mut out, "\n");
        }
        append_str(&mut out, entries[k].as_str());
        proof {
            let t = ev.take(k + 1);
            assert(t.drop_last() =~= ev.take(k as int));
            assert(t.last() == entries@[k as int]@);
            if k == 0 {
                assert(b =~= Seq::<char>::empty());
            }
        }
        k += 1;
    }
    assert(ev.take(entries.len() as int) =~= ev);
    append_str(&mut out, "\n");
    string_of(out.as_slice())
}

/// The line (counted from 1) of the first header of node `id` from line
/// `i` on.
pub open spec fn first_header_line(ls: Seq<Seq<char>>, i: int, table: Seq<TypePrefixV>, id: Seq<char>) -> Option<usize>
    decreases ls.len() - i,
{
    if i < 0 || i >= ls.len() {
        None
    } else if header_node_id(trim(ls[i]), table) == Some(id) {
        Some((i + 1) as usize)
    } else {
        first_header_line(ls, i + 1, table, id)
    }
}

proof fn lemma_join_nl(e: Seq<Seq<char>>)
    requires
        e.len() > 0,
    ensures
        crate::mcp_text::join_sep(e, "\n"@) + "\n"@ == crate::kg_roundtrip::nl_join(e),
    decreases e.len(),
{
    reveal_strlit("\n");
    if e.len() == 1 {
        crate::kg_roundtrip::lemma_nl_join_one(e[0]);
        assert(e =~= seq![e[0]]);
        assert("\n"@ =~= seq!['\n']);
    } else {
        lemma_join_nl(e.drop_last());
        assert(crate::mcp_text::join_sep(e, "\n"@) + "\n"@ =~= (crate::mcp_text::join_sep(e.drop_last(), "\n"@) + "\n"@)
            + e.last() + seq!['\n']);
    }
}

proof fn lemma_entry(x: Seq<char>, n: u64)
    requires
        !x.contains(' '),
        !x.contains('\n'),
    ensures
        split_once(x + " "@ + decimal(n as nat), ' ') == Some((x, decimal(n as nat))),
        crate::kg_roundtrip::one_line(x + " "@ + decimal(n as nat)),
        trim(decimal(n as nat)) == decimal(n as nat),
        crate::kg_codec::parse_u64_spec(decimal(n as nat)) == Some(n),
{
    reveal_strlit(" ");
    let d = decimal(n as nat);
    crate::kg_roundtrip::lemma_parse_decimal(n);
    crate::kg_roundtrip::lemma_token_trim(d);
    crate::kg_roundtrip::lemma_decimal_digits(n as nat);
    let entry = x + " "@ + d;
    assert forall|j: int| 0 <= j < x.len() implies entry[j] != ' ' by {
        assert(entry[j] == x[j]);
        if x[j] == ' ' {
            assert(x.contains(' '));
        }
    }
    assert(entry[x.len() as int] == ' ');
    crate::text::lemma_find_char_from_scan(entry, ' ', 0, x.len() as int);
    assert(entry.take(x.len() as int) =~= x);
    assert(entry.skip(x.len() as int + 1) =~= d);
    assert(entry.last() == d.last());
    assert(crate::text::is_digit(d[d.len() - 1]));
    if entry.contains('\n') {
        let j = choose|j: int| 0 <= j < entry.len() && entry[j] == '\n';
        if j < x.len() {
            assert(x[j] == '\n');
            assert(x.contains('\n'));
        } else if j > x.len() {
            assert(d[j - x.len() - 1] == '\n');
            assert(crate::text::is_digit(d[j - x.len() - 1]));
        }
    }
}

proof fn lemma_entries_lookup(ls: Seq<Seq<char>>, i: int, table: Seq<TypePrefixV>, id: Seq<char>)
    requires
        0 <= i <= ls.len(),
        ls.len() < usize::MAX,
        forall|j: int| 0 <= j < ls.len() ==> (#[trigger] header_node_id(trim(ls[j]), table) matches Some(x) ==> !x.contains(' ')
            && !x.contains('\n')),
    ensures
        index_lookup(index_entries(ls, i, table), id) == first_header_line(ls, i, table, id),
        forall|k: int| 0 <= k < index_entries(ls, i, table).len() ==> crate::kg_roundtrip::one_line(#[trigger] index_entries(ls, i, table)[k]),
    decreases ls.len() - i,
{
    reveal_strlit(" ");
    if i < ls.len() {
        lemma_entries_lookup(ls, i + 1, table, id);
        let rest = index_entries(ls, i + 1, table);
        match header_node_id(trim(ls[i]), table) {
            Some(x) => {
                let n = (i + 1) as u64;
                lemma_entry(x, n);
                let entry = x + " "@ + decimal(n as nat);
                let all = seq![entry] + rest;
                assert(all =~= index_entries(ls, i, table));
                assert(all[0] == entry);
                assert(all.drop_first() =~= rest);
                assert forall|k: int| 0 <= k < all.len() implies crate::kg_roundtrip::one_line(#[trigger] all[k]) by {
                    if k > 0 {
                        assert(all[k] == rest[k - 1]);
                    }
                }
            },
            None => {},
        }
    }
}

/// The index written for a `.kg` text finds, for a node id without spaces,
/// the line of the first header of that node; and nothing for an id no
/// header names. Header ids must hold no spaces (the index separates id
/// and line number by the first space) and no line breaks.
pub proof fn law_index_finds_first_header(raw: Seq<char>, table: Seq<TypePrefixV>, id: Seq<char>)
    requires
        lines(raw).len() < usize::MAX,
        forall|j: int| 0 <= j < lines(raw).len() ==> (#[trigger] header_node_id(trim(lines(raw)[j]), table) matches Some(x)
            ==> !x.contains(' ') && !x.contains('\n')),
    ensures
        index_lookup(lines(kgindex_spec(raw, table)), id) == first_header_line(lines(raw), 0, table, id),
{
    let ls = lines(raw);
    let e = index_entries(ls, 0, table);
    lemma_entries_lookup(ls, 0, table, id);
    reveal_strlit("\n");
    if e.len() == 0 {
        assert(kgindex_spec(raw, table) =~= seq!['\n']);
        crate::kg_roundtrip::lemma_lines_nl_join(seq![Seq::<char>::empty()]);
        crate::kg_roundtrip::lemma_nl_join_one(Seq::<char>::empty());
        assert(Seq::<char>::empty() + seq!['\n'] =~= seq!['\n']);
        let l1 = lines(kgindex_spec(raw, table));
        assert(l1 =~= seq![Seq::<char>::empty()]);
        assert(split_once(Seq::<char>::empty(), ' ') is None) by {
            crate::text::lemma_find_char_from_scan(Seq::<char>::empty(), ' ', 0, 0);
        }
    } else {
        lemma_join_nl(e);
        crate::kg_roundtrip::lemma_lines_nl_join(e);
    }
}

} // verus!
