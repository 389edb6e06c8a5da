//! Project configuration (`.kg.toml`): where graphs live and the user's
//! short identifier.
use vstd::prelude::*;
use crate::paths::{KgPath, PathV, join_spec, parent_spec, parse_spec, same_path};
use crate::sorting::views;
use crate::text::{
    append_chars, append_str, chars_of, is_ascii_alnum, join_chars, join_with, lines, lines_exec,
    seqs_view,
    starts_with_str, str_eq, string_of, trim, trim_chars, trim_start, trim_start_chars,
};

verus! {

/// The nudge percentage when the configuration sets none.
pub const DEFAULT_NUDGE_PERCENT: u8 = 20;

/// The settings of a `.kg.toml` file.
pub struct KgConfig {
    pub backend: Option<String>,
    pub graph_dir: Option<KgPath>,
    pub graph_dirs: Vec<KgPath>,
    /// Between 0 and 100 when set.
    pub nudge: Option<u8>,
    /// In the shape `normalize_user_short_uid` accepts when set.
    pub user_short_uid: Option<String>,
    /// Named graphs and their paths, each name once.
    pub graphs: Vec<(String, KgPath)>,
    pub default_graph: Option<String>,
}

/// The value of an optional path.
pub open spec fn opt_path_view(o: Option<KgPath>) -> Option<PathV> {
    match o {
        Some(d) => Some(d@),
        None => None,
    }
}

/// A relative path is taken relative to `base`.
pub open spec fn resolve_path_spec(base: PathV, p: PathV) -> PathV {
    if p.absolute {
        p
    } else {
        join_spec(base, p)
    }
}

/// The directory that relative paths in a configuration file refer to.
pub open spec fn config_base(config_path: PathV) -> PathV {
    match parent_spec(config_path) {
        Some(b) => b,
        None => parse_spec("."@),
    }
}

/// The paths of `s` without repetitions, each where it first occurs.
pub open spec fn dedup_paths(s: Seq<PathV>) -> Seq<PathV>
    decreases s.len(),
{
    if s.len() == 0 {
        Seq::empty()
    } else {
        let d = dedup_paths(s.drop_last());
        if d.contains(s.last()) {
            d
        } else {
            d.push(s.last())
        }
    }
}

/// The graph directories named by `graph_dir` and then `graph_dirs`,
/// resolved against `base`.
pub open spec fn graph_dir_candidates(graph_dir: Option<PathV>, graph_dirs: Seq<PathV>, base: PathV) -> Seq<PathV> {
    let first = match graph_dir {
        Some(d) => seq![d],
        None => Seq::empty(),
    };
    (first + graph_dirs).map_values(|d: PathV| resolve_path_spec(base, d))
}

/// Index of the first entry named `name`.
pub open spec fn find_graph(graphs: Seq<(Seq<char>, PathV)>, name: Seq<char>) -> Option<int>
    decreases graphs.len(),
{
    if graphs.len() == 0 {
        None
    } else if graphs[0].0 == name {
        Some(0)
    } else {
        match find_graph(graphs.drop_first(), name) {
            Some(i) => Some(i + 1),
            None => None,
        }
    }
}

/// The value of the named-graph table.
pub open spec fn graphs_view(g: Seq<(String, KgPath)>) -> Seq<(Seq<char>, PathV)> {
    g.map_values(|e: (String, KgPath)| (e.0@, e.1@))
}

/// The characters a user identifier may hold.
pub open spec fn is_uid_char(c: char) -> bool {
    is_ascii_alnum(c) || c == '_' || c == '-'
}

/// A user identifier: the trimmed text when it has 1 to 16 characters, all
/// letters, digits, `_` or `-`.
pub open spec fn normalize_uid_spec(value: Seq<char>) -> Option<Seq<char>> {
    let t = trim(value);
    if t.len() == 0 || t.len() > 16 {
        None
    } else if forall|k: int| 0 <= k < t.len() ==> is_uid_char(#[trigger] t[k]) {
        Some(t)
    } else {
        None
    }
}

/// `path` if absolute, else `path` below `base`.
pub fn resolve_path(base: &KgPath, path: &KgPath) -> (r: KgPath)
    ensures
        r@ == resolve_path_spec(base@, path@),
{
    if path.is_absolute() {
        path.copy()
    } else {
        base.join(path)
    }
}

fn config_base_exec(config_path: &KgPath) -> (r: KgPath)
    ensures
        r@ == config_base(config_path@),
{
    match config_path.parent() {
        Some(b) => b,
        None => KgPath::parse("."),
    }
}

impl KgConfig {
    /// The graph directories of this configuration, relative ones resolved
    /// against the directory of `config_path`, without repetitions.
    pub fn graph_dirs(&self, config_path: &KgPath) -> (r: Vec<KgPath>)
        ensures
            views(r@) == dedup_paths(
                graph_dir_candidates(
                    opt_path_view(self.graph_dir),
                    views(self.graph_dirs@),
                    config_base(config_path@),
                ),
            ),
    {
        let base = config_base_exec(config_path);
        let ghost first = match opt_path_view(self.graph_dir) {
            Some(d) => seq![d],
            None => Seq::<PathV>::empty(),
        };
        let ghost all = first + views(self.graph_dirs@);
        let ghost cands = all.map_values(|d: PathV| resolve_path_spec(base@, d));
        let mut out: Vec<KgPath> = Vec::new();
        let mut done: usize = 0;
        if let Some(dir) = &self.graph_dir {
            let resolved = resolve_path(&base, dir);
            push_unique(&mut out, resolved);
            done = 1;
            proof {
                assert(cands.take(1).drop_last() =~= Seq::<PathV>::empty());
                assert(cands[0] == resolved@);
                assert(dedup_paths(Seq::<PathV>::empty()) == Seq::<PathV>::empty());
                assert(dedup_paths(cands.take(1)) =~= seq![cands[0]]);
                assert(views(out@) =~= seq![cands[0]]);
            }
        }
        proof {
            assert(done == first.len());
            assert(dedup_paths(cands.take(0)) =~= Seq::<PathV>::empty());
            if done == 0 {
                assert(views(out@) =~= Seq::<PathV>::empty());
            }
        }
        let mut i: usize = 0;
        while i < self.graph_dirs.len()
            invariant
                i <= self.graph_dirs.len(),
                done == first.len(),
                all == first + views(self.graph_dirs@),
                cands == all.map_values(|d: PathV| resolve_path_spec(base@, d)),
                views(out@) == dedup_paths(cands.take(done + i)),
            decreases self.graph_dirs.len() - i,
        {
            let resolved = resolve_path(&base, &self.graph_dirs[i]);
            proof {
                assert(all[done + i] == self.graph_dirs@[i as int]@);
                assert(cands[done + i] == resolved@);
                assert(cands.take(done + i + 1).drop_last() =~= cands.take(done + i));
            }
            push_unique(&mut out, resolved);
            i += 1;
        }
        proof {
            assert(cands.take(done + i) =~= cands);
        }
        out
    }

    /// The path of the graph named `name`, resolved against the directory
    /// of `config_path`.
    pub fn graph_path(&self, config_path: &KgPath, name: &str) -> (r: Option<KgPath>)
        ensures
            match find_graph(graphs_view(self.graphs@), name@) {
                Some(i) => r matches Some(p) && p@ == resolve_path_spec(
                    config_base(config_path@),
                    graphs_view(self.graphs@)[i].1,
                ),
                None => r is None,
            },
    {
        let ghost gv = graphs_view(self.graphs@);
        let mut i: usize = 0;
        assert(gv.skip(0) =~= gv);
        while i < self.graphs.len()
            invariant
                i <= self.graphs.len(),
                gv == graphs_view(self.graphs@),
                find_graph(gv, name@) == match find_graph(gv.skip(i as int), name@) {
                    Some(k) => Some(k + i),
                    None => None::<int>,
                },
            decreases self.graphs.len() - i,
        {
            proof {
                assert(gv.skip(i as int)[0] == gv[i as int]);
                assert(gv.skip(i as int).drop_first() =~= gv.skip(i + 1));
            }
            if str_eq(self.graphs[i].0.as_str(), name) {
                let base = config_base_exec(config_path);
                return Some(resolve_path(&base, &self.graphs[i].1));
            }
            i += 1;
        }
        proof {
            assert(gv.skip(i as int) =~= Seq::<(Seq<char>, PathV)>::empty());
        }
        None
    }

    /// The nudge percentage, 20 unless configured.
    pub fn nudge_percent(&self) -> (r: u8)
        ensures
            r == match self.nudge {
                Some(n) => n,
                None => DEFAULT_NUDGE_PERCENT,
            },
    {
        match self.nudge {
            Some(n) => n,
            None => DEFAULT_NUDGE_PERCENT,
        }
    }
}

fn push_unique(out: &mut Vec<KgPath>, p: KgPath)
    ensures
        views(final(out)@) == if views(old(out)@).contains(p@) {
            views(old(out)@)
        } else {
            views(old(out)@).push(p@)
        },
{
    let mut k: usize = 0;
    while k < out.len()
        invariant
            k <= out.len(),
            forall|j: int| 0 <= j < k ==> views(out@)[j] != p@,
        decreases out.len() - k,
    {
        if same_path(&out[k], &p) {
            proof {
                assert(views(out@)[k as int] == p@);
            }
            return;
        }
        k += 1;
    }
    let ghost before = views(out@);
    out.push(p);
    proof {
        assert(views(out@) =~= before.push(p@));
    }
}

/// A user identifier in its accepted shape, trimmed; `None` when it is
/// empty, longer than 16 characters, or holds another character than ASCII
/// letters, digits, `_` and `-`.
pub fn normalize_user_short_uid(value: &str) -> (r: Option<String>)
    ensures
        match normalize_uid_spec(value@) {
            Some(t) => r matches Some(s) && s@ == t,
            None => r is None,
        },
{
    let cs = chars_of(value);
    let t = trim_chars(cs.as_slice());
    assert(t@ == trim(value@));
    if t.len() == 0 || t.len() > 16 {
        return None;
    }
    let mut k: usize = 0;
    while k < t.len()
        invariant
            k <= t.len(),
            t@ == trim(value@),
            0 < t.len() <= 16,
            forall|j: int| 0 <= j < k ==> is_uid_char(#[trigger] t@[j]),
        decreases t.len() - k,
    {
        let c = t[k];
        if !(('0' <= c && c <= '9') || ('a' <= c && c <= 'z') || ('A' <= c && c <= 'Z') || c == '_'
            || c == '-') {
            proof {
                assert(!is_uid_char(t@[k as int]));
            }
            return None;
        }
        k += 1;
    }
    Some(string_of(t.as_slice()))
}

/// The `nudge` setting as read: accepted when at most 100.
pub fn check_nudge_percent(value: Option<u8>) -> (r: Result<Option<u8>, String>)
    ensures
        match value {
            Some(v) => if v <= 100 {
                r == Ok::<Option<u8>, String>(Some(v))
            } else {
                r matches Err(m) && m@ == "nudge must be between 0 and 100"@
            },
            None => r == Ok::<Option<u8>, String>(None),
        },
{
    match value {
        Some(v) => if v <= 100 {
            Ok(Some(v))
        } else {
            Err(String::from_str("nudge must be between 0 and 100"))
        },
        None => Ok(None),
    }
}

/// The `user_short_uid` setting as read: normalized, or refused when it
/// does not have the accepted shape.
pub fn check_user_short_uid(value: Option<String>) -> (r: Result<Option<String>, String>)
    ensures
        match value {
            Some(v) => match normalize_uid_spec(v@) {
                Some(t) => r matches Ok(Some(s)) && s@ == t,
                None => r matches Err(m) && m@
                    == "user_short_uid must be 1..=16 chars [a-zA-Z0-9_-] (or unset)"@,
            },
            None => r matches Ok(None),
        },
{
    match value {
        Some(v) => match normalize_user_short_uid(v.as_str()) {
            Some(t) => Ok(Some(t)),
            None => Err(String::from_str("user_short_uid must be 1..=16 chars [a-zA-Z0-9_-] (or unset)")),
        },
        None => Ok(None),
    }
}

/// The places a configuration file is looked for from `start`: `.kg.toml`
/// in `start` and in each of its ancestors, nearest first.
pub fn config_candidates(start: &KgPath) -> (r: Vec<KgPath>)
    ensures
        r.len() == start.parts.len() + 1,
        forall|i: int|
            0 <= i < r.len() ==> (#[trigger] r@[i])@ == join_spec(
                PathV { absolute: start@.absolute, parts: start@.parts.take(start.parts.len() - i) },
                parse_spec(".kg.toml"@),
            ),
{
    let n = start.parts.len();
    let mut out: Vec<KgPath> = Vec::new();
    let mut k: usize = 0;
    loop
        invariant
            n == start.parts.len(),
            k <= n,
            out.len() == k,
            forall|i: int|
                0 <= i < k ==> (#[trigger] out@[i])@ == join_spec(
                    PathV { absolute: start@.absolute, parts: start@.parts.take(n - i) },
                    parse_spec(".kg.toml"@),
                ),
        decreases n - k,
    {
        let mut parts: Vec<String> = Vec::new();
        let mut j: usize = 0;
        while j < n - k
            invariant
                n == start.parts.len(),
                k <= n,
                j <= n - k,
                views(parts@) == views(start.parts@).take(j as int),
            decreases n - k - j,
        {
            let x = start.parts[j].clone();
            let ghost before = views(parts@);
            parts.push(x);
            proof {
                assert(views(parts@) =~= before.push(x@));
                assert(views(start.parts@).take(j + 1) =~= views(start.parts@).take(j as int).push(
                    views(start.parts@)[j as int],
                ));
            }
            j += 1;
        }
        let dir = KgPath { absolute: start.absolute, parts };
        let cand = dir.join_str(".kg.toml");
        out.push(cand);
        if k == n {
            return out;
        }
        k += 1;
    }
}

/// The base-36 digit of `d < 36`, `0`–`9` then `a`–`z`.
pub open spec fn digit36(d: nat) -> char {
    if d < 10 {
        ((d + 48) as u32) as char
    } else {
        ((d + 87) as u32) as char
    }
}

/// `n` in base 36, most significant digit first.
pub open spec fn base36(n: nat) -> Seq<char>
    decreases n,
{
    if n < 36 {
        seq![digit36(n)]
    } else {
        base36(n / 36).push(digit36(n % 36))
    }
}

/// A user identifier made from a number: its last eight base-36 digits, or
/// all of them padded with leading zeros to eight.
pub open spec fn uid_from_number_spec(n: nat) -> Seq<char> {
    let d = base36(n);
    if d.len() > 8 {
        d.skip(d.len() - 8)
    } else {
        crate::text::zero_pad(d, 8)
    }
}

fn base36_exec(n: u128) -> (r: Vec<char>)
    ensures
        r@ == base36(n as nat),
    decreases n,
{
    let d = (n % 36) as u8;
    let c = if d < 10 {
        crate::text::char_from_ascii((d + 48) as u32)
    } else {
        crate::text::char_from_ascii((d + 87) as u32)
    };
    if n < 36 {
        let mut v: Vec<char> = Vec::new();
        v.push(c);
        proof {
            assert(v@ =~= seq![digit36(n as nat)]);
        }
        v
    } else {
        let mut v = base36_exec(n / 36);
        v.push(c);
        v
    }
}

/// A fresh user identifier from a clock reading in nanoseconds.
pub fn user_short_uid_from_nanos(nanos: u128) -> (r: String)
    ensures
        r@ == uid_from_number_spec(nanos as nat),
{
    let d = base36_exec(nanos);
    if d.len() > 8 {
        let t = crate::text::copy_chars(d.as_slice(), d.len() - 8, d.len());
        proof {
            assert(t@ =~= d@.skip(d.len() - 8));
        }
        string_of(t.as_slice())
    } else {
        let p = crate::text::zero_pad_exec(d.as_slice(), 8);
        string_of(p.as_slice())
    }
}

/// The configuration line that records a user identifier.
pub open spec fn uid_line(uid: Seq<char>) -> Seq<char> {
    "user_short_uid = \""@ + uid + "\""@
}

/// Whether a configuration line sets the user identifier.
pub open spec fn is_uid_setting(line: Seq<char>) -> bool {
    "user_short_uid"@.is_prefix_of(trim_start(line))
}

/// The lines with every user-identifier setting replaced.
pub open spec fn replace_uid_lines(ls: Seq<Seq<char>>, uid: Seq<char>) -> Seq<Seq<char>> {
    ls.map_values(|l: Seq<char>| if is_uid_setting(l) { uid_line(uid) } else { l })
}

/// The configuration text after recording `uid`: existing settings are
/// rewritten in place, otherwise a line is appended.
pub open spec fn with_uid_spec(raw: Seq<char>, uid: Seq<char>) -> Seq<char> {
    let ls = lines(raw);
    if exists|i: int| 0 <= i < ls.len() && is_uid_setting(#[trigger] ls[i]) {
        join_with(replace_uid_lines(ls, uid), '\n') + seq!['\n']
    } else {
        let sep = if raw.len() > 0 && raw.last() != '\n' {
            seq!['\n']
        } else {
            Seq::empty()
        };
        raw + sep + uid_line(uid) + seq!['\n']
    }
}

fn uid_line_exec(uid: &str) -> (r: Vec<char>)
    ensures
        r@ == uid_line(uid@),
{
    let mut out: Vec<char> = Vec::new();
    append_str(&mut out, "user_short_uid = \"");
    append_str(&mut out, uid);
    append_str(&mut out, "\"");
    proof {
        assert(out@ =~= uid_line(uid@));
    }
    out
}

/// The configuration text `raw` with the user identifier `uid` recorded.
pub fn config_with_user_short_uid(raw: &str, uid: &str) -> (r: String)
    ensures
        r@ == with_uid_spec(raw@, uid@),
{
    let cs = chars_of(raw);
    let ls = lines_exec(cs.as_slice());
    let ghost lv = seqs_view(ls@);
    let mut replaced = false;
    let mut outl: Vec<Vec<char>> = Vec::new();
    let mut i: usize = 0;
    while i < ls.len()
        invariant
            i <= ls.len(),
            lv == seqs_view(ls@),
            lv == lines(raw@),
            seqs_view(outl@) == replace_uid_lines(lv.take(i as int), uid@),
            replaced == exists|j: int| 0 <= j < i && is_uid_setting(#[trigger] lv[j]),
        decreases ls.len() - i,
    {
        let t = trim_start_chars(ls[i].as_slice());
        proof {
            assert(lv[i as int] == ls@[i as int]@);
        }
        let set = starts_with_str(t.as_slice(), "user_short_uid");
        let ghost before = seqs_view(outl@);
        let item = if set {
            replaced = true;
            uid_line_exec(uid)
        } else {
            let c = crate::text::copy_chars(ls[i].as_slice(), 0, ls[i].len());
            proof {
                assert(c@ =~= lv[i as int]);
            }
            c
        };
        proof {
            assert(set == is_uid_setting(lv[i as int]));
        }
        outl.push(item);
        proof {
            assert(seqs_view(outl@) =~= before.push(item@));
            assert(replace_uid_lines(lv.take(i + 1), uid@) =~= replace_uid_lines(
                lv.take(i as int),
                uid@,
            ).push(if is_uid_setting(lv[i as int]) { uid_line(uid@) } else { lv[i as int] }));
            assert(seqs_view(outl@) =~= replace_uid_lines(lv.take(i + 1), uid@));
            if set {
                assert(is_uid_setting(lv[i as int]));
            }
        }
        i += 1;
    }
    proof {
        assert(lv.take(i as int) =~= lv);
    }
    if replaced {
        let mut out = join_chars(&outl, '\n');
        out.push('\n');
        string_of(out.as_slice())
    } else {
        let mut out = crate::text::copy_chars(cs.as_slice(), 0, cs.len());
        proof {
            assert(out@ =~= raw@);
        }
        if cs.len() > 0 && cs[cs.len() - 1] != '\n' {
            out.push('\n');
        }
        let line = uid_line_exec(uid);
        append_chars(&mut out, line.as_slice());
        out.push('\n');
        string_of(out.as_slice())
    }
}

} // verus!
