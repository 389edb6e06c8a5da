//! KQL, the small query language over a graph: node, edge and note queries
//! with filters, sorting and limits, neighbourhoods, paths and counts.
use vstd::prelude::*;
use crate::graph::{Edge, EdgeV, GraphFile, GraphV, Node, NodeV, Note, NoteV};
use crate::kg_codec::{parse_u64, parse_u64_spec};
use crate::sorting::{KeyOrder, sorted_seq, stable_sort, views};
use crate::text::{
    append_chars, append_str, chars_of, is_ws, lex_order, seqs_view, strip_prefix, string_of, tokens,
    tokens_exec, trim, trim_chars, trim_start,
};

verus! {

broadcast use vstd::string::group_string_axioms;

// ---------------------------------------------------------------------------
// Queries
// ---------------------------------------------------------------------------

/// How a filter compares a field with its value.
#[derive(Clone, Copy, PartialEq, Eq, Structural, Debug)]
pub enum FilterOp {
    Eq,
    Contains,
    NotEq,
    Prefix,
}

/// The direction in which neighbourhoods follow edges.
#[derive(Clone, Copy, PartialEq, Eq, Structural, Debug)]
pub enum NeighborDir {
    Out,
    In,
    Both,
}

pub struct FilterV {
    pub key: Seq<char>,
    pub op: FilterOp,
    pub value: Seq<char>,
}

pub struct SortV {
    pub key: Seq<char>,
    pub desc: bool,
}

/// A parsed query.
pub enum QueryV {
    Node { filters: Seq<FilterV>, limit: Option<usize>, sort: Option<SortV> },
    Edge { filters: Seq<FilterV>, limit: Option<usize>, sort: Option<SortV> },
    Note { filters: Seq<FilterV>, limit: Option<usize>, sort: Option<SortV> },
    Neighbors { id: Seq<char>, hops: usize, dir: NeighborDir, limit: Option<usize> },
    Path { from: Seq<char>, to: Seq<char>, max_hops: usize },
    Aggregate { kind: Seq<char>, group_by: Seq<char> },
}

/// A filter `key<op>value`.
pub struct Filter {
    pub key: String,
    pub op: FilterOp,
    pub value: String,
}

impl View for Filter {
    type V = FilterV;

    open spec fn view(&self) -> FilterV {
        FilterV { key: self.key@, op: self.op, value: self.value@ }
    }
}

/// A sort key, descending when written with a leading `-`.
pub struct SortSpec {
    pub key: String,
    pub desc: bool,
}

impl View for SortSpec {
    type V = SortV;

    open spec fn view(&self) -> SortV {
        SortV { key: self.key@, desc: self.desc }
    }
}

pub open spec fn sort_view(s: Option<SortSpec>) -> Option<SortV> {
    match s {
        Some(x) => Some(x@),
        None => None,
    }
}

pub open spec fn filters_view(f: Seq<Filter>) -> Seq<FilterV> {
    f.map_values(|x: Filter| x@)
}

/// A parsed query.
pub enum QueryKind {
    Node { filters: Vec<Filter>, limit: Option<usize>, sort: Option<SortSpec> },
    Edge { filters: Vec<Filter>, limit: Option<usize>, sort: Option<SortSpec> },
    Note { filters: Vec<Filter>, limit: Option<usize>, sort: Option<SortSpec> },
    Neighbors { id: String, hops: usize, dir: NeighborDir, limit: Option<usize> },
    Path { from: String, to: String, max_hops: usize },
    Aggregate { kind: String, group_by: String },
}

impl View for QueryKind {
    type V = QueryV;

    open spec fn view(&self) -> QueryV {
        match self {
            QueryKind::Node { filters, limit, sort } => QueryV::Node {
                filters: filters_view(filters@),
                limit: *limit,
                sort: sort_view(*sort),
            },
            QueryKind::Edge { filters, limit, sort } => QueryV::Edge {
                filters: filters_view(filters@),
                limit: *limit,
                sort: sort_view(*sort),
            },
            QueryKind::Note { filters, limit, sort } => QueryV::Note {
                filters: filters_view(filters@),
                limit: *limit,
                sort: sort_view(*sort),
            },
            QueryKind::Neighbors { id, hops, dir, limit } => QueryV::Neighbors {
                id: id@,
                hops: *hops,
                dir: *dir,
                limit: *limit,
            },
            QueryKind::Path { from, to, max_hops } => QueryV::Path {
                from: from@,
                to: to@,
                max_hops: *max_hops,
            },
            QueryKind::Aggregate { kind, group_by } => QueryV::Aggregate {
                kind: kind@,
                group_by: group_by@,
            },
        }
    }
}

// ---------------------------------------------------------------------------
// Lowercasing and numbers
// ---------------------------------------------------------------------------

/// What `str::to_lowercase` returns for a text (Unicode lowercase mapping).
pub uninterp spec fn unicode_lowercase(s: Seq<char>) -> Seq<char>;

/// `str::to_lowercase`.
#[verifier::external_body]
fn to_lowercase(s: &[char]) -> (r: Vec<char>)
    ensures
        r@ == unicode_lowercase(s@),
{
    let t: String = s.iter().collect();
    t.to_lowercase().chars().collect()
}

/// `usize::from_str`: an optional `+`, then digits, within range.
pub open spec fn parse_usize_spec(s: Seq<char>) -> Option<usize> {
    match parse_u64_spec(s) {
        Some(v) => if v <= usize::MAX {
            Some(v as usize)
        } else {
            None
        },
        None => None,
    }
}

/// Reads a `usize` as `str::parse::<usize>` does.
pub fn parse_usize(s: &[char]) -> (r: Option<usize>)
    ensures
        r == parse_usize_spec(s@),
{
    match parse_u64(s) {
        Some(v) => if v <= usize::MAX as u64 {
            Some(v as usize)
        } else {
            None
        },
        None => None,
    }
}

// ---------------------------------------------------------------------------
// Filters
// ---------------------------------------------------------------------------

/// Whether `c` starts the operator of a filter token.
pub open spec fn is_op_char(c: char) -> bool {
    c == '=' || c == '~' || c == '!' || c == '^'
}

/// The operator a filter character stands for; `!` alone stands for `=`.
pub open spec fn op_of(c: char) -> FilterOp {
    if c == '~' {
        FilterOp::Contains
    } else if c == '^' {
        FilterOp::Prefix
    } else {
        FilterOp::Eq
    }
}

/// The index of the first operator character, or the length.
pub open spec fn op_index(s: Seq<char>, from: int) -> int
    decreases s.len() - from,
{
    if from >= s.len() || from < 0 {
        s.len() as int
    } else if is_op_char(s[from]) {
        from
    } else {
        op_index(s, from + 1)
    }
}

/// Leading `"` characters dropped.
pub open spec fn drop_leading_quotes(s: Seq<char>) -> Seq<char>
    decreases s.len(),
{
    if s.len() > 0 && s[0] == '"' {
        drop_leading_quotes(s.drop_first())
    } else {
        s
    }
}

/// Trailing `"` characters dropped.
pub open spec fn drop_trailing_quotes(s: Seq<char>) -> Seq<char>
    decreases s.len(),
{
    if s.len() > 0 && s.last() == '"' {
        drop_trailing_quotes(s.drop_last())
    } else {
        s
    }
}

/// `str::trim_matches('"')`.
pub open spec fn trim_quotes(s: Seq<char>) -> Seq<char> {
    drop_trailing_quotes(drop_leading_quotes(s))
}

/// The key before the first operator character, the
/// operator, and the rest without leading whitespace and surrounding quotes.
pub open spec fn filter_of(token: Seq<char>) -> FilterV {
    let k = op_index(token, 0);
    if k >= token.len() {
        FilterV { key: token, op: FilterOp::Eq, value: Seq::empty() }
    } else {
        FilterV {
            key: token.take(k),
            op: op_of(token[k]),
            value: trim_quotes(trim_start(token.skip(k + 1))),
        }
    }
}

proof fn lemma_op_index(s: Seq<char>, from: int)
    requires
        0 <= from <= s.len(),
    ensures
        from <= op_index(s, from) <= s.len(),
        forall|j: int| from <= j < op_index(s, from) ==> !is_op_char(#[trigger] s[j]),
        op_index(s, from) < s.len() ==> is_op_char(s[op_index(s, from)]),
    decreases s.len() - from,
{
    if from < s.len() && !is_op_char(s[from]) {
        lemma_op_index(s, from + 1);
    }
}

fn trim_quotes_exec(s: &[char]) -> (r: Vec<char>)
    ensures
        r@ == trim_quotes(s@),
{
    let mut a: usize = 0;
    assert(s@.skip(0) =~= s@);
    while a < s.len() && s[a] == '"'
        invariant
            a <= s.len(),
            drop_leading_quotes(s@) == drop_leading_quotes(s@.skip(a as int)),
        decreases s.len() - a,
    {
        assert(s@.skip(a as int).drop_first() =~= s@.skip(a + 1));
        a += 1;
    }
    let mut b: usize = s.len();
    let ghost lead = s@.skip(a as int);
    assert(lead.take(lead.len() as int) =~= lead);
    while b > a && s[b - 1] == '"'
        invariant
            a <= b <= s.len(),
            lead == s@.skip(a as int),
            drop_trailing_quotes(lead) == drop_trailing_quotes(s@.subrange(a as int, b as int)),
        decreases b,
    {
        assert(s@.subrange(a as int, b as int).drop_last() =~= s@.subrange(a as int, b - 1));
        b -= 1;
    }
    proof {
        if a >= s.len() || s[a as int] != '"' {
            assert(drop_leading_quotes(s@.skip(a as int)) == s@.skip(a as int));
        }
        if b <= a || s[b - 1] != '"' {
            assert(drop_trailing_quotes(s@.subrange(a as int, b as int)) == s@.subrange(
                a as int,
                b as int,
            ));
        }
    }
    crate::text::copy_chars(s, a, b)
}

/// The filter a query token stands for.
fn parse_filter(token: &[char]) -> (r: Filter)
    ensures
        r@ == filter_of(token@),
{
    proof {
        lemma_op_index(token@, 0);
    }
    let mut k: usize = 0;
    while k < token.len() && !(token[k] == '=' || token[k] == '~' || token[k] == '!' || token[k]
        == '^')
        invariant
            k <= token.len(),
            op_index(token@, 0) == op_index(token@, k as int),
        decreases token.len() - k,
    {
        k += 1;
    }
    if k >= token.len() {
        return Filter {
            key: string_of(token),
            op: FilterOp::Eq,
            value: String::new(),
        };
    }
    let c = token[k];
    let op = if c == '~' {
        FilterOp::Contains
    } else if c == '^' {
        FilterOp::Prefix
    } else {
        FilterOp::Eq
    };
    let key = crate::text::copy_chars(token, 0, k);
    let rest = crate::text::copy_chars(token, k + 1, token.len());
    assert(rest@ =~= token@.skip(k + 1));
    let trimmed = crate::text::trim_start_chars(rest.as_slice());
    let value = trim_quotes_exec(trimmed.as_slice());
    assert(key@ =~= token@.take(k as int));
    Filter { key: string_of(key.as_slice()), op, value: string_of(value.as_slice()) }
}

// ---------------------------------------------------------------------------
// Parsing queries
// ---------------------------------------------------------------------------

/// The options of a node, edge or note query read so far.
pub struct ListOptsV {
    pub limit: Option<usize>,
    pub sort: Option<SortV>,
    pub filters: Seq<FilterV>,
}

/// The options after one more query word.
pub open spec fn list_opt_step(st: ListOptsV, part: Seq<char>) -> ListOptsV {
    match strip_prefix(part, "limit="@) {
        Some(v) => ListOptsV { limit: parse_usize_spec(v), ..st },
        None => match strip_prefix(part, "sort="@) {
            Some(s) => match strip_prefix(s, "-"@) {
                Some(k) => ListOptsV { sort: Some(SortV { key: k, desc: true }), ..st },
                None => ListOptsV { sort: Some(SortV { key: s, desc: false }), ..st },
            },
            None => ListOptsV { filters: st.filters.push(filter_of(part)), ..st },
        },
    }
}

/// The options of the query words `parts`.
pub open spec fn list_opts(parts: Seq<Seq<char>>) -> ListOptsV
    decreases parts.len(),
{
    if parts.len() == 0 {
        ListOptsV { limit: None, sort: None, filters: Seq::empty() }
    } else {
        list_opt_step(list_opts(parts.drop_last()), parts.last())
    }
}

/// The state of a `neighbors` query read so far.
pub struct NeighborOptsV {
    pub id: Seq<char>,
    pub hops: usize,
    pub dir: NeighborDir,
    pub limit: Option<usize>,
}

pub open spec fn neighbor_step(st: NeighborOptsV, part: Seq<char>) -> NeighborOptsV {
    if strip_prefix(part, "from="@) is Some {
        NeighborOptsV { id: strip_prefix(part, "from="@)->0, ..st }
    } else if strip_prefix(part, "hops="@) is Some {
        NeighborOptsV {
            hops: match parse_usize_spec(strip_prefix(part, "hops="@)->0) {
                Some(h) => h,
                None => 1,
            },
            ..st
        }
    } else if part == "out"@ {
        NeighborOptsV { dir: NeighborDir::Out, ..st }
    } else if part == "in"@ {
        NeighborOptsV { dir: NeighborDir::In, ..st }
    } else if part == "both"@ {
        NeighborOptsV { dir: NeighborDir::Both, ..st }
    } else if strip_prefix(part, "limit="@) is Some {
        NeighborOptsV { limit: parse_usize_spec(strip_prefix(part, "limit="@)->0), ..st }
    } else if st.id.len() == 0 {
        NeighborOptsV { id: part, ..st }
    } else {
        st
    }
}

pub open spec fn neighbor_opts(parts: Seq<Seq<char>>) -> NeighborOptsV
    decreases parts.len(),
{
    if parts.len() == 0 {
        NeighborOptsV { id: Seq::empty(), hops: 1, dir: NeighborDir::Both, limit: None }
    } else {
        neighbor_step(neighbor_opts(parts.drop_last()), parts.last())
    }
}

/// Whether a word of a `neighbors` query names a direction.
pub open spec fn is_dir_word(w: Seq<char>) -> bool {
    w == "out"@ || w == "in"@ || w == "both"@
}

/// The direction a direction word names.
pub open spec fn word_dir(w: Seq<char>) -> NeighborDir {
    if w == "out"@ {
        NeighborDir::Out
    } else if w == "in"@ {
        NeighborDir::In
    } else {
        NeighborDir::Both
    }
}

proof fn lemma_neighbor_dir(ps: Seq<Seq<char>>)
    ensures
        (forall|i: int| 0 <= i < ps.len() ==> !is_dir_word(#[trigger] ps[i])) ==> neighbor_opts(ps).dir
            == NeighborDir::Both,
        forall|i: int|
            0 <= i < ps.len() && is_dir_word(#[trigger] ps[i]) && (forall|j: int|
                i < j < ps.len() ==> !is_dir_word(#[trigger] ps[j])) ==> neighbor_opts(ps).dir
                == word_dir(ps[i]),
    decreases ps.len(),
{
    if ps.len() > 0 {
        let pre = ps.drop_last();
        let w = ps.last();
        lemma_neighbor_dir(pre);
        reveal_strlit("from=");
        reveal_strlit("hops=");
        reveal_strlit("out");
        reveal_strlit("in");
        reveal_strlit("both");
        if is_dir_word(w) {
            assert(!"from="@.is_prefix_of(w));
            assert(!"hops="@.is_prefix_of(w));
            assert(neighbor_opts(ps).dir == word_dir(w));
        } else {
            assert(neighbor_opts(ps).dir == neighbor_opts(pre).dir);
        }
        assert forall|i: int|
            0 <= i < ps.len() && is_dir_word(#[trigger] ps[i]) && (forall|j: int|
                i < j < ps.len() ==> !is_dir_word(#[trigger] ps[j])) implies neighbor_opts(ps).dir
            == word_dir(ps[i]) by {
            if i < ps.len() - 1 {
                assert(!is_dir_word(ps[ps.len() - 1]));
                assert(pre[i] == ps[i]);
                assert forall|j: int| i < j < pre.len() implies !is_dir_word(#[trigger] pre[j]) by {
                    assert(pre[j] == ps[j]);
                }
            }
        }
        if forall|i: int| 0 <= i < ps.len() ==> !is_dir_word(#[trigger] ps[i]) {
            assert(!is_dir_word(ps[ps.len() - 1]));
            assert forall|i: int| 0 <= i < pre.len() implies !is_dir_word(#[trigger] pre[i]) by {
                assert(pre[i] == ps[i]);
            }
        }
    }
}

/// A `neighbors` query follows edges both ways unless a direction word
/// (`out`, `in`, `both`) follows the keyword; where several are given, the
/// last one decides.
pub proof fn law_neighbors_direction(input: Seq<char>)
    ensures
        parse_query_spec(input) matches Ok(QueryV::Neighbors { dir, .. }) ==> {
            let ps = tokens(trim(input)).drop_first();
            &&& (forall|i: int| 0 <= i < ps.len() ==> !is_dir_word(#[trigger] ps[i])) ==> dir
                == NeighborDir::Both
            &&& forall|i: int|
                0 <= i < ps.len() && is_dir_word(#[trigger] ps[i]) && (forall|j: int|
                    i < j < ps.len() ==> !is_dir_word(#[trigger] ps[j])) ==> dir == word_dir(ps[i])
        },
{
    lemma_neighbor_dir(tokens(trim(input)).drop_first());
}

/// The state of a `path` query read so far.
pub struct PathOptsV {
    pub from: Seq<char>,
    pub to: Seq<char>,
    pub max_hops: usize,
}

pub open spec fn path_step(st: PathOptsV, part: Seq<char>) -> PathOptsV {
    if strip_prefix(part, "from="@) is Some {
        PathOptsV { from: strip_prefix(part, "from="@)->0, ..st }
    } else if strip_prefix(part, "to="@) is Some {
        PathOptsV { to: strip_prefix(part, "to="@)->0, ..st }
    } else if strip_prefix(part, "hops="@) is Some {
        PathOptsV {
            max_hops: match parse_usize_spec(strip_prefix(part, "hops="@)->0) {
                Some(h) => h,
                None => 3,
            },
            ..st
        }
    } else if st.from.len() == 0 {
        PathOptsV { from: part, ..st }
    } else if st.to.len() == 0 {
        PathOptsV { to: part, ..st }
    } else {
        st
    }
}

pub open spec fn path_opts(parts: Seq<Seq<char>>) -> PathOptsV
    decreases parts.len(),
{
    if parts.len() == 0 {
        PathOptsV { from: Seq::empty(), to: Seq::empty(), max_hops: 3 }
    } else {
        path_step(path_opts(parts.drop_last()), parts.last())
    }
}

/// Whether a lowercased word names an entity kind.
pub open spec fn is_kind_word(w: Seq<char>) -> bool {
    w == "node"@ || w == "edge"@ || w == "note"@
}

/// The state of an aggregate query read so far: the kind and the grouping.
pub open spec fn aggregate_step(st: (Seq<char>, Seq<char>), part: Seq<char>) -> (Seq<char>, Seq<char>) {
    if strip_prefix(part, "by="@) is Some {
        (st.0, strip_prefix(part, "by="@)->0)
    } else if !is_kind_word(unicode_lowercase(part)) {
        (unicode_lowercase(part), st.1)
    } else {
        st
    }
}

pub open spec fn aggregate_opts(parts: Seq<Seq<char>>) -> (Seq<char>, Seq<char>)
    decreases parts.len(),
{
    if parts.len() == 0 {
        ("node"@, "type"@)
    } else {
        aggregate_step(aggregate_opts(parts.drop_last()), parts.last())
    }
}

proof fn lemma_neighbor_hops(ps: Seq<Seq<char>>)
    ensures
        (forall|i: int| 0 <= i < ps.len() ==> !"hops="@.is_prefix_of(#[trigger] ps[i])) ==> neighbor_opts(
            ps,
        ).hops == 1,
    decreases ps.len(),
{
    if ps.len() > 0 {
        let pre = ps.drop_last();
        lemma_neighbor_hops(pre);
        if forall|i: int| 0 <= i < ps.len() ==> !"hops="@.is_prefix_of(#[trigger] ps[i]) {
            assert(!"hops="@.is_prefix_of(ps[ps.len() - 1]));
            assert forall|i: int| 0 <= i < pre.len() implies !"hops="@.is_prefix_of(#[trigger] pre[i]) by {
                assert(pre[i] == ps[i]);
            }
        }
    }
}

proof fn lemma_path_hops(ps: Seq<Seq<char>>)
    ensures
        (forall|i: int| 0 <= i < ps.len() ==> !"hops="@.is_prefix_of(#[trigger] ps[i])) ==> path_opts(
            ps,
        ).max_hops == 3,
    decreases ps.len(),
{
    if ps.len() > 0 {
        let pre = ps.drop_last();
        lemma_path_hops(pre);
        if forall|i: int| 0 <= i < ps.len() ==> !"hops="@.is_prefix_of(#[trigger] ps[i]) {
            assert(!"hops="@.is_prefix_of(ps[ps.len() - 1]));
            assert forall|i: int| 0 <= i < pre.len() implies !"hops="@.is_prefix_of(#[trigger] pre[i]) by {
                assert(pre[i] == ps[i]);
            }
        }
    }
}

proof fn lemma_aggregate_by(ps: Seq<Seq<char>>)
    ensures
        (forall|i: int| 0 <= i < ps.len() ==> !"by="@.is_prefix_of(#[trigger] ps[i])) ==> aggregate_opts(
            ps,
        ).1 == "type"@,
    decreases ps.len(),
{
    if ps.len() > 0 {
        let pre = ps.drop_last();
        lemma_aggregate_by(pre);
        if forall|i: int| 0 <= i < ps.len() ==> !"by="@.is_prefix_of(#[trigger] ps[i]) {
            assert(!"by="@.is_prefix_of(ps[ps.len() - 1]));
            assert forall|i: int| 0 <= i < pre.len() implies !"by="@.is_prefix_of(#[trigger] pre[i]) by {
                assert(pre[i] == ps[i]);
            }
        }
    }
}

/// Without a `hops=` word a `neighbors` query goes one hop, a `path` query
/// at most three, and an aggregate without a `by=` word groups by type.
pub proof fn law_query_defaults(input: Seq<char>)
    ensures
        ({
            let ps = tokens(trim(input)).drop_first();
            (forall|i: int| 0 <= i < ps.len() ==> !"hops="@.is_prefix_of(#[trigger] ps[i])) ==> (
            parse_query_spec(input) matches Ok(QueryV::Neighbors { hops, .. }) ==> hops == 1)
        }),
        ({
            let ps = tokens(trim(input)).drop_first();
            (forall|i: int| 0 <= i < ps.len() ==> !"hops="@.is_prefix_of(#[trigger] ps[i])) ==> (
            parse_query_spec(input) matches Ok(QueryV::Path { max_hops, .. }) ==> max_hops == 3)
        }),
        ({
            let ps = tokens(trim(input)).drop_first();
            (forall|i: int| 0 <= i < ps.len() ==> !"by="@.is_prefix_of(#[trigger] ps[i])) ==> (
            parse_query_spec(input) matches Ok(QueryV::Aggregate { group_by, .. }) ==> group_by
                == "type"@)
        }),
{
    let ps = tokens(trim(input)).drop_first();
    lemma_neighbor_hops(ps);
    lemma_path_hops(ps);
    lemma_aggregate_by(ps);
}

/// Whether `t` starts with `p`.
pub open spec fn starts(t: Seq<char>, p: Seq<char>) -> bool {
    p.is_prefix_of(t)
}

/// The query a text stands for, or the error.
pub open spec fn parse_query_spec(input: Seq<char>) -> Result<QueryV, Seq<char>> {
    let t = trim(input);
    let parts = tokens(t);
    if starts(t, "neighbors"@) || starts(t, "neighbour"@) {
        if parts.len() < 2 {
            Err("neighbors requires an id"@)
        } else {
            let o = neighbor_opts(parts.drop_first());
            if o.id.len() == 0 {
                Err("neighbors requires a node id"@)
            } else {
                Ok(QueryV::Neighbors { id: o.id, hops: o.hops, dir: o.dir, limit: o.limit })
            }
        }
    } else if starts(t, "path"@) {
        let o = path_opts(parts.drop_first());
        if o.from.len() == 0 || o.to.len() == 0 {
            Err("path requires from and to"@)
        } else {
            Ok(QueryV::Path { from: o.from, to: o.to, max_hops: o.max_hops })
        }
    } else if starts(t, "count"@) || starts(t, "aggregate"@) {
        if parts.len() < 2 {
            Err("aggregate requires a kind"@)
        } else {
            let o = aggregate_opts(parts.drop_first());
            Ok(QueryV::Aggregate { kind: o.0, group_by: o.1 })
        }
    } else if parts.len() == 0 {
        Err("empty query"@)
    } else {
        let o = list_opts(parts.drop_first());
        let kind = unicode_lowercase(parts[0]);
        if kind == "node"@ || kind == "nodes"@ {
            Ok(QueryV::Node { filters: o.filters, limit: o.limit, sort: o.sort })
        } else if kind == "edge"@ || kind == "edges"@ {
            Ok(QueryV::Edge { filters: o.filters, limit: o.limit, sort: o.sort })
        } else if kind == "note"@ || kind == "notes"@ {
            Ok(QueryV::Note { filters: o.filters, limit: o.limit, sort: o.sort })
        } else {
            Err("unknown query kind: "@ + kind)
        }
    }
}

fn list_opts_exec(parts: &Vec<Vec<char>>) -> (r: (Option<usize>, Option<SortSpec>, Vec<Filter>))
    requires
        parts.len() >= 1,
    ensures
        r.0 == list_opts(seqs_view(parts@).drop_first()).limit,
        sort_view(r.1) == list_opts(seqs_view(parts@).drop_first()).sort,
        filters_view(r.2@) == list_opts(seqs_view(parts@).drop_first()).filters,
{
    let ghost ps = seqs_view(parts@).drop_first();
    let mut limit: Option<usize> = None;
    let mut sort: Option<SortSpec> = None;
    let mut filters: Vec<Filter> = Vec::new();
    let mut i: usize = 1;
    assert(ps.take(0) =~= Seq::<Seq<char>>::empty());
    assert(filters_view(filters@) =~= Seq::<FilterV>::empty());
    while i < parts.len()
        invariant
            1 <= i <= parts.len(),
            ps == seqs_view(parts@).drop_first(),
            limit == list_opts(ps.take(i - 1)).limit,
            sort_view(sort) == list_opts(ps.take(i - 1)).sort,
            filters_view(filters@) == list_opts(ps.take(i - 1)).filters,
        decreases parts.len() - i,
    {
        proof {
            assert(ps.take(i as int).drop_last() =~= ps.take(i - 1));
            assert(ps.take(i as int).last() == parts@[i as int]@);
        }
        let part = parts[i].as_slice();
        match crate::text::strip_prefix_str(part, "limit=") {
            Some(v) => {
                limit = parse_usize(v.as_slice());
            },
            None => match crate::text::strip_prefix_str(part, "sort=") {
                Some(sv) => match crate::text::strip_prefix_str(sv.as_slice(), "-") {
                    Some(k) => {
                        sort = Some(SortSpec { key: string_of(k.as_slice()), desc: true });
                    },
                    None => {
                        sort = Some(SortSpec { key: string_of(sv.as_slice()), desc: false });
                    },
                },
                None => {
                    let f = parse_filter(part);
                    let ghost before = filters_view(filters@);
                    filters.push(f);
                    assert(filters_view(filters@) =~= before.push(f@));
                },
            },
        }
        i += 1;
    }
    assert(ps.take(i - 1) =~= ps);
    (limit, sort, filters)
}

fn neighbor_opts_exec(parts: &Vec<Vec<char>>) -> (r: (Vec<char>, usize, NeighborDir, Option<usize>))
    requires
        parts.len() >= 1,
    ensures
        r.0@ == neighbor_opts(seqs_view(parts@).drop_first()).id,
        r.1 == neighbor_opts(seqs_view(parts@).drop_first()).hops,
        r.2 == neighbor_opts(seqs_view(parts@).drop_first()).dir,
        r.3 == neighbor_opts(seqs_view(parts@).drop_first()).limit,
{
    let ghost ps = seqs_view(parts@).drop_first();
    let mut id: Vec<char> = Vec::new();
    let mut hops: usize = 1;
    let mut dir = NeighborDir::Both;
    let mut limit: Option<usize> = None;
    let mut i: usize = 1;
    assert(ps.take(0) =~= Seq::<Seq<char>>::empty());
    assert(id@ =~= Seq::<char>::empty());
    while i < parts.len()
        invariant
            1 <= i <= parts.len(),
            ps == seqs_view(parts@).drop_first(),
            id@ == neighbor_opts(ps.take(i - 1)).id,
            hops == neighbor_opts(ps.take(i - 1)).hops,
            dir == neighbor_opts(ps.take(i - 1)).dir,
            limit == neighbor_opts(ps.take(i - 1)).limit,
        decreases parts.len() - i,
    {
        proof {
            assert(ps.take(i as int).drop_last() =~= ps.take(i - 1));
            assert(ps.take(i as int).last() == parts@[i as int]@);
        }
        let part = parts[i].as_slice();
        if let Some(v) = crate::text::strip_prefix_str(part, "from=") {
            id = v;
        } else if let Some(v) = crate::text::strip_prefix_str(part, "hops=") {
            hops = match parse_usize(v.as_slice()) {
                Some(h) => h,
                None => 1,
            };
        } else if crate::text::chars_eq_str(part, "out") {
            dir = NeighborDir::Out;
        } else if crate::text::chars_eq_str(part, "in") {
            dir = NeighborDir::In;
        } else if crate::text::chars_eq_str(part, "both") {
            dir = NeighborDir::Both;
        } else if let Some(v) = crate::text::strip_prefix_str(part, "limit=") {
            limit = parse_usize(v.as_slice());
        } else if id.len() == 0 {
            id = crate::text::copy_chars(part, 0, part.len());
            assert(id@ =~= part@);
        }
        i += 1;
    }
    assert(ps.take(i - 1) =~= ps);
    (id, hops, dir, limit)
}

fn path_opts_exec(parts: &Vec<Vec<char>>) -> (r: (Vec<char>, Vec<char>, usize))
    requires
        parts.len() >= 1,
    ensures
        r.0@ == path_opts(seqs_view(parts@).drop_first()).from,
        r.1@ == path_opts(seqs_view(parts@).drop_first()).to,
        r.2 == path_opts(seqs_view(parts@).drop_first()).max_hops,
{
    let ghost ps = seqs_view(parts@).drop_first();
    let mut from: Vec<char> = Vec::new();
    let mut to: Vec<char> = Vec::new();
    let mut max_hops: usize = 3;
    let mut i: usize = 1;
    assert(ps.take(0) =~= Seq::<Seq<char>>::empty());
    assert(from@ =~= Seq::<char>::empty());
    assert(to@ =~= Seq::<char>::empty());
    while i < parts.len()
        invariant
            1 <= i <= parts.len(),
            ps == seqs_view(parts@).drop_first(),
            from@ == path_opts(ps.take(i - 1)).from,
            to@ == path_opts(ps.take(i - 1)).to,
            max_hops == path_opts(ps.take(i - 1)).max_hops,
        decreases parts.len() - i,
    {
        proof {
            assert(ps.take(i as int).drop_last() =~= ps.take(i - 1));
            assert(ps.take(i as int).last() == parts@[i as int]@);
        }
        let part = parts[i].as_slice();
        if let Some(v) = crate::text::strip_prefix_str(part, "from=") {
            from = v;
        } else if let Some(v) = crate::text::strip_prefix_str(part, "to=") {
            to = v;
        } else if let Some(v) = crate::text::strip_prefix_str(part, "hops=") {
            max_hops = match parse_usize(v.as_slice()) {
                Some(h) => h,
                None => 3,
            };
        } else if from.len() == 0 {
            from = crate::text::copy_chars(part, 0, part.len());
            assert(from@ =~= part@);
        } else if to.len() == 0 {
            to = crate::text::copy_chars(part, 0, part.len());
            assert(to@ =~= part@);
        }
        i += 1;
    }
    assert(ps.take(i - 1) =~= ps);
    (from, to, max_hops)
}

fn is_kind_word_exec(w: &[char]) -> (r: bool)
    ensures
        r == is_kind_word(w@),
{
    crate::text::chars_eq_str(w, "node") || crate::text::chars_eq_str(w, "edge")
        || crate::text::chars_eq_str(w, "note")
}

fn aggregate_opts_exec(parts: &Vec<Vec<char>>) -> (r: (Vec<char>, Vec<char>))
    requires
        parts.len() >= 1,
    ensures
        (r.0@, r.1@) == aggregate_opts(seqs_view(parts@).drop_first()),
{
    let ghost ps = seqs_view(parts@).drop_first();
    let mut kind = chars_of("node");
    let mut group_by = chars_of("type");
    let mut i: usize = 1;
    assert(ps.take(0) =~= Seq::<Seq<char>>::empty());
    while i < parts.len()
        invariant
            1 <= i <= parts.len(),
            ps == seqs_view(parts@).drop_first(),
            (kind@, group_by@) == aggregate_opts(ps.take(i - 1)),
        decreases parts.len() - i,
    {
        proof {
            assert(ps.take(i as int).drop_last() =~= ps.take(i - 1));
            assert(ps.take(i as int).last() == parts@[i as int]@);
        }
        let part = parts[i].as_slice();
        if let Some(v) = crate::text::strip_prefix_str(part, "by=") {
            group_by = v;
        } else {
            let lower = to_lowercase(part);
            if !is_kind_word_exec(lower.as_slice()) {
                kind = lower;
            }
        }
        i += 1;
    }
    assert(ps.take(i - 1) =~= ps);
    (kind, group_by)
}

fn err_text(s: &str) -> (r: Result<QueryKind, String>)
    ensures
        r matches Err(e) && e@ == s@,
{
    Err(string_of(chars_of(s).as_slice()))
}

/// Whether a parse result is the value or error the specification gives.
pub open spec fn parse_matches(r: Result<QueryKind, String>, s: Result<QueryV, Seq<char>>) -> bool {
    match (r, s) {
        (Ok(q), Ok(v)) => q@ == v,
        (Err(e), Err(m)) => e@ == m,
        _ => false,
    }
}

/// The query a text stands for, or the error message.
pub fn parse_query(input: &str) -> (r: Result<QueryKind, String>)
    ensures
        parse_matches(r, parse_query_spec(input@)),
{
    let raw = chars_of(input);
    let t = trim_chars(raw.as_slice());
    let parts = tokens_exec(t.as_slice());
    let ghost ps = seqs_view(parts@);
    assert(ps.len() == parts.len());
    if crate::text::starts_with_str(t.as_slice(), "neighbors") || crate::text::starts_with_str(
        t.as_slice(),
        "neighbour",
    ) {
        if parts.len() < 2 {
            return err_text("neighbors requires an id");
        }
        let (id, hops, dir, limit) = neighbor_opts_exec(&parts);
        if id.len() == 0 {
            return err_text("neighbors requires a node id");
        }
        return Ok(QueryKind::Neighbors { id: string_of(id.as_slice()), hops, dir, limit });
    }
    if crate::text::starts_with_str(t.as_slice(), "path") {
        proof {
            assert(parts.len() >= 1) by {
                reveal_strlit("path");
                assert(t@[0] == "path"@[0]);
                lemma_tokens_nonempty(t@);
            }
        }
        let (from, to, max_hops) = path_opts_exec(&parts);
        if from.len() == 0 || to.len() == 0 {
            return err_text("path requires from and to");
        }
        return Ok(
            QueryKind::Path {
                from: string_of(from.as_slice()),
                to: string_of(to.as_slice()),
                max_hops,
            },
        );
    }
    if crate::text::starts_with_str(t.as_slice(), "count") || crate::text::starts_with_str(
        t.as_slice(),
        "aggregate",
    ) {
        if parts.len() < 2 {
            return err_text("aggregate requires a kind");
        }
        let (kind, group_by) = aggregate_opts_exec(&parts);
        return Ok(
            QueryKind::Aggregate {
                kind: string_of(kind.as_slice()),
                group_by: string_of(group_by.as_slice()),
            },
        );
    }
    if parts.len() == 0 {
        return err_text("empty query");
    }
    let (limit, sort, filters) = list_opts_exec(&parts);
    let kind = to_lowercase(parts[0].as_slice());
    proof {
        assert(ps[0] == parts@[0]@);
    }
    if crate::text::chars_eq_str(kind.as_slice(), "node") || crate::text::chars_eq_str(
        kind.as_slice(),
        "nodes",
    ) {
        Ok(QueryKind::Node { filters, limit, sort })
    } else if crate::text::chars_eq_str(kind.as_slice(), "edge") || crate::text::chars_eq_str(
        kind.as_slice(),
        "edges",
    ) {
        Ok(QueryKind::Edge { filters, limit, sort })
    } else if crate::text::chars_eq_str(kind.as_slice(), "note") || crate::text::chars_eq_str(
        kind.as_slice(),
        "notes",
    ) {
        Ok(QueryKind::Note { filters, limit, sort })
    } else {
        let mut m = chars_of("unknown query kind: ");
        append_chars(&mut m, kind.as_slice());
        Err(string_of(m.as_slice()))
    }
}

/// A text that starts with a non-whitespace character has a first token.
proof fn lemma_tokens_nonempty(t: Seq<char>)
    requires
        t.len() > 0,
        !is_ws(t[0]),
    ensures
        tokens(t).len() >= 1,
{
    assert(crate::text::ws_prefix_len(t) == 0);
    assert(t.skip(0) =~= t);
    crate::text::lemma_ws_index_from(t, 0);
}

// ---------------------------------------------------------------------------
// Matching
// ---------------------------------------------------------------------------

/// Whether `pat` occurs in `v`.
pub open spec fn contains_text(v: Seq<char>, pat: Seq<char>) -> bool {
    exists|i: int| 0 <= i <= v.len() - pat.len() && #[trigger] v.subrange(i, i + pat.len()) == pat
}

/// A field against the filter's value.
pub open spec fn compare_spec(value: Seq<char>, f: FilterV) -> bool {
    match f.op {
        FilterOp::Eq => value == f.value,
        FilterOp::NotEq => value != f.value,
        FilterOp::Contains => contains_text(value, f.value),
        FilterOp::Prefix => f.value.is_prefix_of(value),
    }
}

/// Some value of a list field matches.
pub open spec fn compare_list_spec(values: Seq<Seq<char>>, f: FilterV) -> bool {
    exists|i: int| 0 <= i < values.len() && compare_spec(#[trigger] values[i], f)
}

/// A node against one filter; unknown keys match nothing.
pub open spec fn matches_node(n: NodeV, f: FilterV) -> bool {
    let k = f.key;
    if k == "id"@ {
        compare_spec(n.id, f)
    } else if k == "type"@ {
        compare_spec(n.node_type, f)
    } else if k == "name"@ {
        compare_spec(n.name, f)
    } else if k == "description"@ {
        compare_spec(n.props.description, f)
    } else if k == "domain"@ || k == "domain_area"@ {
        compare_spec(n.props.domain_area, f)
    } else if k == "provenance"@ {
        compare_spec(n.props.provenance, f)
    } else if k == "alias"@ {
        compare_list_spec(n.props.alias, f)
    } else if k == "fact"@ || k == "key_fact"@ {
        compare_list_spec(n.props.key_facts, f)
    } else if k == "source"@ || k == "source_file"@ {
        compare_list_spec(n.source_files, f)
    } else if k == "confidence"@ {
        match n.props.confidence {
            Some(c) => compare_spec(c, f),
            None => false,
        }
    } else if k == "importance"@ {
        compare_spec(n.props.importance, f)
    } else {
        false
    }
}

/// Whether an edge satisfies a filter.
pub open spec fn matches_edge(e: EdgeV, f: FilterV) -> bool {
    let k = f.key;
    if k == "source"@ || k == "source_id"@ {
        compare_spec(e.source_id, f)
    } else if k == "relation"@ {
        compare_spec(e.relation, f)
    } else if k == "target"@ || k == "target_id"@ {
        compare_spec(e.target_id, f)
    } else if k == "detail"@ {
        compare_spec(e.props.detail, f)
    } else {
        false
    }
}

/// Whether a note satisfies a filter.
pub open spec fn matches_note(o: NoteV, f: FilterV) -> bool {
    let k = f.key;
    if k == "id"@ {
        compare_spec(o.id, f)
    } else if k == "node"@ || k == "node_id"@ {
        compare_spec(o.node_id, f)
    } else if k == "body"@ {
        compare_spec(o.body, f)
    } else if k == "tag"@ || k == "tags"@ {
        compare_list_spec(o.tags, f)
    } else if k == "author"@ {
        compare_spec(o.author, f)
    } else if k == "provenance"@ {
        compare_spec(o.provenance, f)
    } else if k == "source"@ || k == "source_file"@ {
        compare_list_spec(o.source_files, f)
    } else {
        false
    }
}

/// Whether `pat` occurs in `v` (`str::contains` with a text pattern).
pub fn text_contains(v: &[char], pat: &[char]) -> (r: bool)
    ensures
        r == contains_text(v@, pat@),
{
    if pat.len() > v.len() {
        proof {
            if contains_text(v@, pat@) {
                let i = choose|i: int| 0 <= i <= v@.len() - pat@.len() && #[trigger] v@.subrange(i, i + pat@.len()) == pat@;
            }
        }
        return false;
    }
    if pat.len() == 0 {
        let ghost z: int = 0;
        assert(v@.subrange(z, z + pat@.len()) =~= pat@);
        return true;
    }
    let mut i: usize = 0;
    while i <= v.len() - pat.len()
        invariant
            0 < pat.len() <= v.len(),
            i <= v.len() - pat.len() + 1,
            forall|j: int| 0 <= j < i ==> #[trigger] v@.subrange(j, j + pat@.len()) != pat@,
        decreases v.len() - pat.len() + 1 - i,
    {
        let piece = crate::text::copy_chars(v, i, i + pat.len());
        if crate::text::chars_eq(piece.as_slice(), pat) {
            return true;
        }
        i += 1;
    }
    false
}

fn compare_exec(value: &String, f: &Filter) -> (r: bool)
    ensures
        r == compare_spec(value@, f@),
{
    let v = chars_of(value.as_str());
    let w = chars_of(f.value.as_str());
    match f.op {
        FilterOp::Eq => crate::text::chars_eq(v.as_slice(), w.as_slice()),
        FilterOp::NotEq => !crate::text::chars_eq(v.as_slice(), w.as_slice()),
        FilterOp::Contains => text_contains(v.as_slice(), w.as_slice()),
        FilterOp::Prefix => crate::text::starts_with(v.as_slice(), w.as_slice()),
    }
}

fn compare_list_exec(values: &Vec<String>, f: &Filter) -> (r: bool)
    ensures
        r == compare_list_spec(crate::sorting::views(values@), f@),
{
    let ghost vs = crate::sorting::views(values@);
    let mut i: usize = 0;
    while i < values.len()
        invariant
            i <= values.len(),
            vs == crate::sorting::views(values@),
            forall|j: int| 0 <= j < i ==> !compare_spec(#[trigger] vs[j], f@),
        decreases values.len() - i,
    {
        if compare_exec(&values[i], f) {
            assert(vs[i as int] == values@[i as int]@);
            return true;
        }
        i += 1;
    }
    false
}

fn key_is(f: &Filter, k: &str) -> (r: bool)
    ensures
        r == (f.key@ == k@),
{
    crate::text::str_eq(f.key.as_str(), k)
}

fn matches_node_exec(n: &Node, f: &Filter) -> (r: bool)
    ensures
        r == matches_node(n@, f@),
{
    let p = &n.properties;
    if key_is(f, "id") {
        compare_exec(&n.id, f)
    } else if key_is(f, "type") {
        compare_exec(&n.node_type, f)
    } else if key_is(f, "name") {
        compare_exec(&n.name, f)
    } else if key_is(f, "description") {
        compare_exec(&p.description, f)
    } else if key_is(f, "domain") || key_is(f, "domain_area") {
        compare_exec(&p.domain_area, f)
    } else if key_is(f, "provenance") {
        compare_exec(&p.provenance, f)
    } else if key_is(f, "alias") {
        compare_list_exec(&p.alias, f)
    } else if key_is(f, "fact") || key_is(f, "key_fact") {
        compare_list_exec(&p.key_facts, f)
    } else if key_is(f, "source") || key_is(f, "source_file") {
        compare_list_exec(&n.source_files, f)
    } else if key_is(f, "confidence") {
        match &p.confidence {
            Some(c) => compare_exec(c, f),
            None => false,
        }
    } else if key_is(f, "importance") {
        compare_exec(&p.importance, f)
    } else {
        false
    }
}

fn matches_edge_exec(e: &Edge, f: &Filter) -> (r: bool)
    ensures
        r == matches_edge(e@, f@),
{
    if key_is(f, "source") || key_is(f, "source_id") {
        compare_exec(&e.source_id, f)
    } else if key_is(f, "relation") {
        compare_exec(&e.relation, f)
    } else if key_is(f, "target") || key_is(f, "target_id") {
        compare_exec(&e.target_id, f)
    } else if key_is(f, "detail") {
        compare_exec(&e.properties.detail, f)
    } else {
        false
    }
}

fn matches_note_exec(o: &Note, f: &Filter) -> (r: bool)
    ensures
        r == matches_note(o@, f@),
{
    if key_is(f, "id") {
        compare_exec(&o.id, f)
    } else if key_is(f, "node") || key_is(f, "node_id") {
        compare_exec(&o.node_id, f)
    } else if key_is(f, "body") {
        compare_exec(&o.body, f)
    } else if key_is(f, "tag") || key_is(f, "tags") {
        compare_list_exec(&o.tags, f)
    } else if key_is(f, "author") {
        compare_exec(&o.author, f)
    } else if key_is(f, "provenance") {
        compare_exec(&o.provenance, f)
    } else if key_is(f, "source") || key_is(f, "source_file") {
        compare_list_exec(&o.source_files, f)
    } else {
        false
    }
}

// ---------------------------------------------------------------------------
// Sorting by a text key and limiting
// ---------------------------------------------------------------------------

/// An entity that list queries select, sort and hand out copies of.
pub trait KqlItem: View + Sized {
    /// Whether the entity passes one filter.
    spec fn item_matches(v: Self::V, f: FilterV) -> bool;

    /// Whether `k` names a field the entity sorts by.
    spec fn sort_key_ok(k: Seq<char>) -> bool;

    /// The field named `k`.
    spec fn sort_field(v: Self::V, k: Seq<char>) -> Seq<char>;

    fn dup(&self) -> (r: Self)
        ensures
            r@ == self@,
    ;

    fn matches(&self, f: &Filter) -> (r: bool)
        ensures
            r == Self::item_matches(self@, f@),
    ;

    fn sort_key_ok_exec(k: &String) -> (r: bool)
        ensures
            r == Self::sort_key_ok(k@),
    ;

    fn sort_field_exec(&self, k: &String) -> (r: String)
        ensures
            r@ == Self::sort_field(self@, k@),
    ;
}

impl KqlItem for Node {
    open spec fn item_matches(v: NodeV, f: FilterV) -> bool {
        matches_node(v, f)
    }

    open spec fn sort_key_ok(k: Seq<char>) -> bool {
        k == "name"@ || k == "type"@ || k == "id"@
    }

    open spec fn sort_field(v: NodeV, k: Seq<char>) -> Seq<char> {
        if k == "name"@ {
            v.name
        } else if k == "type"@ {
            v.node_type
        } else {
            v.id
        }
    }

    fn dup(&self) -> (r: Node) {
        self.copy()
    }

    fn matches(&self, f: &Filter) -> (r: bool) {
        matches_node_exec(self, f)
    }

    fn sort_key_ok_exec(k: &String) -> (r: bool) {
        crate::text::str_eq(k.as_str(), "name") || crate::text::str_eq(k.as_str(), "type")
            || crate::text::str_eq(k.as_str(), "id")
    }

    fn sort_field_exec(&self, k: &String) -> (r: String) {
        if crate::text::str_eq(k.as_str(), "name") {
            crate::graph::copy_string(&self.name)
        } else if crate::text::str_eq(k.as_str(), "type") {
            crate::graph::copy_string(&self.node_type)
        } else {
            crate::graph::copy_string(&self.id)
        }
    }
}

impl KqlItem for Edge {
    open spec fn item_matches(v: EdgeV, f: FilterV) -> bool {
        matches_edge(v, f)
    }

    open spec fn sort_key_ok(k: Seq<char>) -> bool {
        k == "source"@ || k == "relation"@ || k == "target"@
    }

    open spec fn sort_field(v: EdgeV, k: Seq<char>) -> Seq<char> {
        if k == "source"@ {
            v.source_id
        } else if k == "relation"@ {
            v.relation
        } else {
            v.target_id
        }
    }

    fn dup(&self) -> (r: Edge) {
        self.copy()
    }

    fn matches(&self, f: &Filter) -> (r: bool) {
        matches_edge_exec(self, f)
    }

    fn sort_key_ok_exec(k: &String) -> (r: bool) {
        crate::text::str_eq(k.as_str(), "source") || crate::text::str_eq(k.as_str(), "relation")
            || crate::text::str_eq(k.as_str(), "target")
    }

    fn sort_field_exec(&self, k: &String) -> (r: String) {
        if crate::text::str_eq(k.as_str(), "source") {
            crate::graph::copy_string(&self.source_id)
        } else if crate::text::str_eq(k.as_str(), "relation") {
            crate::graph::copy_string(&self.relation)
        } else {
            crate::graph::copy_string(&self.target_id)
        }
    }
}

impl KqlItem for Note {
    open spec fn item_matches(v: NoteV, f: FilterV) -> bool {
        matches_note(v, f)
    }

    open spec fn sort_key_ok(k: Seq<char>) -> bool {
        k == "id"@ || k == "node"@ || k == "created"@
    }

    open spec fn sort_field(v: NoteV, k: Seq<char>) -> Seq<char> {
        if k == "id"@ {
            v.id
        } else if k == "node"@ {
            v.node_id
        } else {
            v.created_at
        }
    }

    fn dup(&self) -> (r: Note) {
        self.copy()
    }

    fn matches(&self, f: &Filter) -> (r: bool) {
        matches_note_exec(self, f)
    }

    fn sort_key_ok_exec(k: &String) -> (r: bool) {
        crate::text::str_eq(k.as_str(), "id") || crate::text::str_eq(k.as_str(), "node")
            || crate::text::str_eq(k.as_str(), "created")
    }

    fn sort_field_exec(&self, k: &String) -> (r: String) {
        if crate::text::str_eq(k.as_str(), "id") {
            crate::graph::copy_string(&self.id)
        } else if crate::text::str_eq(k.as_str(), "node") {
            crate::graph::copy_string(&self.node_id)
        } else {
            crate::graph::copy_string(&self.created_at)
        }
    }
}

/// An entity with its sort key, ordered by the key ascending.
pub struct Asc<T>(pub String, pub T);

/// An entity with its sort key, ordered by the key descending.
pub struct Desc<T>(pub String, pub T);

impl<T: View> View for Asc<T> {
    type V = (Seq<char>, T::V);

    open spec fn view(&self) -> (Seq<char>, T::V) {
        (self.0@, self.1@)
    }
}

impl<T: View> View for Desc<T> {
    type V = (Seq<char>, T::V);

    open spec fn view(&self) -> (Seq<char>, T::V) {
        (self.0@, self.1@)
    }
}

fn text_order(a: &String, b: &String) -> (r: i8)
    ensures
        r as int == lex_order(a@, b@),
{
    let x = chars_of(a.as_str());
    let y = chars_of(b.as_str());
    crate::text::lex_order_chars(x.as_slice(), y.as_slice())
}

impl<T: View> KeyOrder for Asc<T> {
    open spec fn spec_after(a: (Seq<char>, T::V), b: (Seq<char>, T::V)) -> bool {
        lex_order(a.0, b.0) > 0
    }

    fn after(&self, other: &Self) -> (r: bool) {
        text_order(&self.0, &other.0) > 0
    }
}

impl<T: View> KeyOrder for Desc<T> {
    open spec fn spec_after(a: (Seq<char>, T::V), b: (Seq<char>, T::V)) -> bool {
        lex_order(b.0, a.0) > 0
    }

    fn after(&self, other: &Self) -> (r: bool) {
        text_order(&other.0, &self.0) > 0
    }
}

/// Each entity with its key.
pub open spec fn zip_keys<V>(keys: Seq<Seq<char>>, items: Seq<V>) -> Seq<(Seq<char>, V)> {
    Seq::new(items.len(), |i: int| (keys[i], items[i]))
}

/// The entities without their keys.
pub open spec fn unkey<V>(ps: Seq<(Seq<char>, V)>) -> Seq<V> {
    ps.map_values(|p: (Seq<char>, V)| p.1)
}

/// The stable sort by key, ascending or descending.
pub open spec fn sort_keyed<T: View>(ps: Seq<(Seq<char>, T::V)>, desc: bool) -> Seq<(Seq<char>, T::V)> {
    if desc {
        sorted_seq::<Desc<T>>(ps)
    } else {
        sorted_seq::<Asc<T>>(ps)
    }
}

/// The first `limit` entities, or all when there is no limit.
pub open spec fn limit_seq<V>(s: Seq<V>, limit: Option<usize>) -> Seq<V> {
    match limit {
        Some(l) => if l < s.len() {
            s.take(l as int)
        } else {
            s
        },
        None => s,
    }
}

fn sort_by_text<T: KqlItem>(items: &Vec<T>, keys: &Vec<String>, desc: bool) -> (r: Vec<T>)
    requires
        keys.len() == items.len(),
    ensures
        views(r@) == unkey(sort_keyed::<T>(zip_keys(views(keys@), views(items@)), desc)),
{
    let ghost z = zip_keys(views(keys@), views(items@));
    if desc {
        let mut v: Vec<Desc<T>> = Vec::new();
        let mut i: usize = 0;
        while i < items.len()
            invariant
                i <= items.len(),
                keys.len() == items.len(),
                z == zip_keys(views(keys@), views(items@)),
                views(v@) == z.take(i as int),
            decreases items.len() - i,
        {
            let ghost before = views(v@);
            let x = Desc(crate::graph::copy_string(&keys[i]), items[i].dup());
            let ghost before = views(v@);
            v.push(x);
            proof {
                assert(views(v@) =~= before.push(x@));
                assert(views(keys@)[i as int] == keys@[i as int]@);
                assert(views(items@)[i as int] == items@[i as int]@);
                assert(z[i as int] == x@);
                assert(z.take(i + 1) =~= z.take(i as int).push(z[i as int]));
            }
            i += 1;
        }
        assert(z.take(i as int) =~= z);
        let sorted = stable_sort(v);
        let mut out: Vec<T> = Vec::new();
        let mut j: usize = 0;
        let ghost sv = views(sorted@);
        while j < sorted.len()
            invariant
                j <= sorted.len(),
                sv == views(sorted@),
                views(out@) == unkey(sv).take(j as int),
            decreases sorted.len() - j,
        {
            let y = sorted[j].1.dup();
            let ghost before = views(out@);
            out.push(y);
            proof {
                assert(views(out@) =~= before.push(y@));
                assert(sv[j as int] == sorted@[j as int]@);
                assert(unkey(sv)[j as int] == y@);
                assert(unkey(sv).take(j + 1) =~= unkey(sv).take(j as int).push(unkey(sv)[j as int]));
            }
            j += 1;
        }
        assert(unkey(sv).take(j as int) =~= unkey(sv));
        out
    } else {
        let mut v: Vec<Asc<T>> = Vec::new();
        let mut i: usize = 0;
        while i < items.len()
            invariant
                i <= items.len(),
                keys.len() == items.len(),
                z == zip_keys(views(keys@), views(items@)),
                views(v@) == z.take(i as int),
            decreases items.len() - i,
        {
            let x = Asc(crate::graph::copy_string(&keys[i]), items[i].dup());
            let ghost before = views(v@);
            v.push(x);
            proof {
                assert(views(v@) =~= before.push(x@));
                assert(views(keys@)[i as int] == keys@[i as int]@);
                assert(views(items@)[i as int] == items@[i as int]@);
                assert(z[i as int] == x@);
                assert(z.take(i + 1) =~= z.take(i as int).push(z[i as int]));
            }
            i += 1;
        }
        assert(z.take(i as int) =~= z);
        let sorted = stable_sort(v);
        let mut out: Vec<T> = Vec::new();
        let mut j: usize = 0;
        let ghost sv = views(sorted@);
        while j < sorted.len()
            invariant
                j <= sorted.len(),
                sv == views(sorted@),
                views(out@) == unkey(sv).take(j as int),
            decreases sorted.len() - j,
        {
            let y = sorted[j].1.dup();
            let ghost before = views(out@);
            out.push(y);
            proof {
                assert(views(out@) =~= before.push(y@));
                assert(sv[j as int] == sorted@[j as int]@);
                assert(unkey(sv)[j as int] == y@);
                assert(unkey(sv).take(j + 1) =~= unkey(sv).take(j as int).push(unkey(sv)[j as int]));
            }
            j += 1;
        }
        assert(unkey(sv).take(j as int) =~= unkey(sv));
        out
    }
}

fn limit_vec<T: KqlItem>(items: Vec<T>, limit: Option<usize>) -> (r: Vec<T>)
    ensures
        views(r@) == limit_seq(views(items@), limit),
{
    let mut items = items;
    match limit {
        Some(l) => {
            if l < items.len() {
                let ghost before = items@;
                items.truncate(l);
                assert(views(items@) =~= views(before).take(l as int));
            }
        },
        None => {},
    }
    items
}

// ---------------------------------------------------------------------------
// Node, edge and note queries
// ---------------------------------------------------------------------------

/// Whether an entity passes every filter.
pub open spec fn all_match<T: KqlItem>(v: T::V, fs: Seq<FilterV>) -> bool {
    forall|i: int| 0 <= i < fs.len() ==> T::item_matches(v, #[trigger] fs[i])
}

/// The entities that pass every filter, in order.
pub open spec fn select<T: KqlItem>(s: Seq<T::V>, fs: Seq<FilterV>) -> Seq<T::V>
    decreases s.len(),
{
    if s.len() == 0 {
        Seq::empty()
    } else if all_match::<T>(s.last(), fs) {
        select::<T>(s.drop_last(), fs).push(s.last())
    } else {
        select::<T>(s.drop_last(), fs)
    }
}

/// The entities sorted as the sort option asks (a field the entity does not
/// sort by leaves the order as it is).
pub open spec fn sort_items<T: KqlItem>(s: Seq<T::V>, sort: Option<SortV>) -> Seq<T::V> {
    match sort {
        Some(x) => if T::sort_key_ok(x.key) {
            unkey(sort_keyed::<T>(zip_keys(s.map_values(|v: T::V| T::sort_field(v, x.key)), s), x.desc))
        } else {
            s
        },
        None => s,
    }
}

/// The answer of a node, edge or note query: the matching entities, sorted,
/// then limited.
pub open spec fn list_result<T: KqlItem>(
    s: Seq<T::V>,
    fs: Seq<FilterV>,
    limit: Option<usize>,
    sort: Option<SortV>,
) -> Seq<T::V> {
    limit_seq(sort_items::<T>(select::<T>(s, fs), sort), limit)
}

fn all_match_exec<T: KqlItem>(x: &T, filters: &Vec<Filter>) -> (r: bool)
    ensures
        r == all_match::<T>(x@, filters_view(filters@)),
{
    let ghost fs = filters_view(filters@);
    let mut i: usize = 0;
    while i < filters.len()
        invariant
            i <= filters.len(),
            fs == filters_view(filters@),
            forall|j: int| 0 <= j < i ==> T::item_matches(x@, #[trigger] fs[j]),
        decreases filters.len() - i,
    {
        if !x.matches(&filters[i]) {
            assert(fs[i as int] == filters@[i as int]@);
            return false;
        }
        assert(fs[i as int] == filters@[i as int]@);
        i += 1;
    }
    true
}

/// A node, edge or note query over `items`: the entities shown and how many matched.
fn list_query<T: KqlItem>(
    items: &Vec<T>,
    filters: &Vec<Filter>,
    limit: Option<usize>,
    sort: &Option<SortSpec>,
) -> (r: (Vec<T>, usize))
    ensures
        views(r.0@) == list_result::<T>(views(items@), filters_view(filters@), limit, sort_view(*sort)),
        r.1 == select::<T>(views(items@), filters_view(filters@)).len(),
{
    let ghost fs = filters_view(filters@);
    let ghost all = views(items@);
    let mut sel: Vec<T> = Vec::new();
    let mut i: usize = 0;
    assert(all.take(0) =~= Seq::<T::V>::empty());
    while i < items.len()
        invariant
            i <= items.len(),
            fs == filters_view(filters@),
            all == views(items@),
            views(sel@) == select::<T>(all.take(i as int), fs),
            sel.len() <= i,
        decreases items.len() - i,
    {
        proof {
            assert(all.take(i + 1).drop_last() =~= all.take(i as int));
            assert(all.take(i + 1).last() == items@[i as int]@);
        }
        if all_match_exec(&items[i], filters) {
            let c = items[i].dup();
            let ghost before = views(sel@);
            sel.push(c);
            assert(views(sel@) =~= before.push(c@));
        }
        i += 1;
    }
    assert(all.take(i as int) =~= all);
    let total = sel.len();
    let ghost sv = views(sel@);
    let sorted = match sort {
        Some(x) => {
            if T::sort_key_ok_exec(&x.key) {
                let mut keys: Vec<String> = Vec::new();
                let mut j: usize = 0;
                while j < sel.len()
                    invariant
                        j <= sel.len(),
                        sv == views(sel@),
                        views(keys@) == sv.map_values(|v: T::V| T::sort_field(v, x.key@)).take(j as int),
                    decreases sel.len() - j,
                {
                    let k = sel[j].sort_field_exec(&x.key);
                    let ghost before = views(keys@);
                    keys.push(k);
                    proof {
                        assert(views(keys@) =~= before.push(k@));
                        assert(sv[j as int] == sel@[j as int]@);
                        assert(sv.map_values(|v: T::V| T::sort_field(v, x.key@)).take(j + 1) =~= sv.map_values(
                            |v: T::V| T::sort_field(v, x.key@),
                        ).take(j as int).push(k@));
                    }
                    j += 1;
                }
                assert(sv.map_values(|v: T::V| T::sort_field(v, x.key@)).take(j as int) =~= sv.map_values(
                    |v: T::V| T::sort_field(v, x.key@),
                ));
                sort_by_text(&sel, &keys, x.desc)
            } else {
                sel
            }
        },
        None => sel,
    };
    (limit_vec(sorted, limit), total)
}

// ---------------------------------------------------------------------------
// Aggregates
// ---------------------------------------------------------------------------

/// `(none)` for an empty text.
pub open spec fn or_none(s: Seq<char>) -> Seq<char> {
    if s.len() == 0 {
        "(none)"@
    } else {
        s
    }
}

/// The group of a node.
pub open spec fn node_group(n: NodeV, by: Seq<char>) -> Seq<char> {
    if by == "type"@ {
        n.node_type
    } else if by == "domain"@ || by == "domain_area"@ {
        or_none(n.props.domain_area)
    } else if by == "source"@ {
        if n.source_files.len() == 0 {
            "(none)"@
        } else {
            n.source_files[0]
        }
    } else if by == "provenance"@ {
        or_none(n.props.provenance)
    } else if by == "importance"@ {
        n.props.importance
    } else {
        n.node_type
    }
}

/// The group of an edge.
pub open spec fn edge_group(e: EdgeV, by: Seq<char>) -> Seq<char> {
    if by == "source"@ {
        e.source_id
    } else if by == "target"@ {
        e.target_id
    } else {
        e.relation
    }
}

/// The group of a note.
pub open spec fn note_group(o: NoteV, by: Seq<char>) -> Seq<char> {
    if by == "node"@ {
        o.node_id
    } else if by == "author"@ {
        or_none(o.author)
    } else if by == "tag"@ {
        if o.tags.len() == 0 {
            "(none)"@
        } else {
            o.tags[0]
        }
    } else {
        "(all)"@
    }
}

/// The groups with their counts, in order of first appearance.
pub open spec fn group_counts(keys: Seq<Seq<char>>) -> Seq<(Seq<char>, nat)>
    decreases keys.len(),
{
    if keys.len() == 0 {
        Seq::empty()
    } else {
        crate::access_report::add_query(group_counts(keys.drop_last()), keys.last())
    }
}

/// A group and its count, ordered by count descending.
pub struct ByCount(pub String, pub usize);

impl View for ByCount {
    type V = (Seq<char>, nat);

    open spec fn view(&self) -> (Seq<char>, nat) {
        (self.0@, self.1 as nat)
    }
}

impl KeyOrder for ByCount {
    open spec fn spec_after(a: (Seq<char>, nat), b: (Seq<char>, nat)) -> bool {
        a.1 < b.1
    }

    fn after(&self, other: &Self) -> (r: bool) {
        self.1 < other.1
    }
}

/// The groups of the entities of `kind` with their counts,
/// most frequent first (groups of equal count in order of first appearance).
pub open spec fn aggregate_spec(g: GraphV, kind: Seq<char>, by: Seq<char>) -> Result<
    Seq<(Seq<char>, nat)>,
    Seq<char>,
> {
    if kind == "node"@ || kind == "nodes"@ {
        Ok(sorted_seq::<ByCount>(group_counts(g.nodes.map_values(|n: NodeV| node_group(n, by)))))
    } else if kind == "edge"@ || kind == "edges"@ {
        Ok(sorted_seq::<ByCount>(group_counts(g.edges.map_values(|e: EdgeV| edge_group(e, by)))))
    } else if kind == "note"@ || kind == "notes"@ {
        Ok(sorted_seq::<ByCount>(group_counts(g.notes.map_values(|o: NoteV| note_group(o, by)))))
    } else {
        Err("unknown aggregate kind: "@ + kind)
    }
}

/// How many times `k` occurs in `keys`.
pub open spec fn occurrences(keys: Seq<Seq<char>>, k: Seq<char>) -> nat
    decreases keys.len(),
{
    if keys.len() == 0 {
        0
    } else {
        occurrences(keys.drop_last(), k) + if keys.last() == k {
            1nat
        } else {
            0nat
        }
    }
}

proof fn lemma_query_index_none(qs: Seq<(Seq<char>, nat)>, q: Seq<char>)
    requires
        crate::access_report::query_index(qs, q) < 0,
    ensures
        forall|j: int| 0 <= j < qs.len() ==> (#[trigger] qs[j]).0 != q,
    decreases qs.len(),
{
    if qs.len() > 0 {
        lemma_query_index_none(qs.drop_last(), q);
        assert forall|j: int| 0 <= j < qs.len() implies (#[trigger] qs[j]).0 != q by {
            if j < qs.len() - 1 {
                assert(qs.drop_last()[j] == qs[j]);
            }
        }
    }
}

proof fn lemma_group_counts(keys: Seq<Seq<char>>)
    ensures
        forall|i: int, j: int|
            0 <= i < j < group_counts(keys).len() ==> (#[trigger] group_counts(keys)[i]).0 != (
            #[trigger] group_counts(keys)[j]).0,
        forall|j: int|
            0 <= j < group_counts(keys).len() ==> (#[trigger] group_counts(keys)[j]).1 == occurrences(
                keys,
                group_counts(keys)[j].0,
            ),
        forall|i: int|
            0 <= i < keys.len() ==> exists|j: int|
                0 <= j < group_counts(keys).len() && (#[trigger] group_counts(keys)[j]).0
                    == #[trigger] keys[i],
        forall|k: Seq<char>|
            (forall|j: int| 0 <= j < group_counts(keys).len() ==> (#[trigger] group_counts(keys)[j]).0 != k)
                ==> #[trigger] occurrences(keys, k) == 0,
    decreases keys.len(),
{
    if keys.len() > 0 {
        let pre = keys.drop_last();
        let q = keys.last();
        let g0 = group_counts(pre);
        let gc = group_counts(keys);
        lemma_group_counts(pre);
        let qi = crate::access_report::query_index(g0, q);
        crate::access_report::lemma_query_index_pub(g0, q);
        if qi >= 0 {
            assert(gc == g0.update(qi, (q, g0[qi].1 + 1)));
            assert forall|j: int| 0 <= j < gc.len() implies (#[trigger] gc[j]).1 == occurrences(keys, gc[j].0) by {
                if j != qi {
                    assert(g0[j].0 != g0[qi].0 || j == qi);
                    if j < qi {
                        assert(g0[j].0 != g0[qi].0);
                    } else {
                        assert(g0[qi].0 != g0[j].0);
                    }
                }
            }
            assert forall|i: int| 0 <= i < keys.len() implies exists|j: int|
                0 <= j < gc.len() && (#[trigger] gc[j]).0 == #[trigger] keys[i] by {
                if i < pre.len() {
                    assert(pre[i] == keys[i]);
                    let j = choose|j: int| 0 <= j < g0.len() && (#[trigger] g0[j]).0 == pre[i];
                    assert(gc[j].0 == keys[i]);
                } else {
                    assert(gc[qi].0 == keys[i]);
                }
            }
            assert forall|k: Seq<char>|
                (forall|j: int| 0 <= j < gc.len() ==> (#[trigger] gc[j]).0 != k) implies #[trigger] occurrences(
                keys,
                k,
            ) == 0 by {
                assert(gc[qi].0 != k);
                assert forall|j: int| 0 <= j < g0.len() implies (#[trigger] g0[j]).0 != k by {
                    assert(gc[j].0 != k);
                }
                assert(occurrences(pre, k) == 0);
                assert(keys.last() != k);
            }
        } else {
            lemma_query_index_none(g0, q);
            assert(gc == g0.push((q, 1nat)));
            assert(occurrences(pre, q) == 0);
            assert forall|j: int| 0 <= j < gc.len() implies (#[trigger] gc[j]).1 == occurrences(keys, gc[j].0) by {
                if j < g0.len() {
                    assert(g0[j].0 != q);
                }
            }
            assert forall|i: int| 0 <= i < keys.len() implies exists|j: int|
                0 <= j < gc.len() && (#[trigger] gc[j]).0 == #[trigger] keys[i] by {
                if i < pre.len() {
                    assert(pre[i] == keys[i]);
                    let j = choose|j: int| 0 <= j < g0.len() && (#[trigger] g0[j]).0 == pre[i];
                    assert(gc[j].0 == keys[i]);
                } else {
                    assert(gc[g0.len() as int].0 == keys[i]);
                }
            }
            assert forall|k: Seq<char>|
                (forall|j: int| 0 <= j < gc.len() ==> (#[trigger] gc[j]).0 != k) implies #[trigger] occurrences(
                keys,
                k,
            ) == 0 by {
                assert(gc[g0.len() as int].0 != k);
                assert forall|j: int| 0 <= j < g0.len() implies (#[trigger] g0[j]).0 != k by {
                    assert(gc[j].0 != k);
                }
                assert(occurrences(pre, k) == 0);
                assert(keys.last() != k);
            }
        }
    }
}

proof fn lemma_counts_of_keys(keys: Seq<Seq<char>>)
    ensures
        forall|i: int|
            0 <= i < sorted_seq::<ByCount>(group_counts(keys)).len() ==> (#[trigger] sorted_seq::<
                ByCount,
            >(group_counts(keys))[i]).1 == occurrences(keys, sorted_seq::<ByCount>(group_counts(keys))[i].0),
        forall|i: int|
            0 <= i < keys.len() ==> exists|j: int|
                0 <= j < sorted_seq::<ByCount>(group_counts(keys)).len() && (#[trigger] sorted_seq::<
                    ByCount,
                >(group_counts(keys))[j]).0 == #[trigger] keys[i],
{
    let gc = group_counts(keys);
    let r = sorted_seq::<ByCount>(gc);
    assert(crate::sorting::preorder_ok::<ByCount>());
    crate::sorting::lemma_sorted_seq_props::<ByCount>(gc);
    lemma_group_counts(keys);
    assert forall|i: int| 0 <= i < r.len() implies (#[trigger] r[i]).1 == occurrences(keys, r[i].0) by {
        assert(r.contains(r[i]));
        assert(gc.contains(r[i]));
        let j = choose|j: int| 0 <= j < gc.len() && gc[j] == r[i];
        assert(gc[j].1 == occurrences(keys, gc[j].0));
    }
    assert forall|i: int| 0 <= i < keys.len() implies exists|j: int|
        0 <= j < r.len() && (#[trigger] r[j]).0 == #[trigger] keys[i] by {
        let j = choose|j: int| 0 <= j < gc.len() && (#[trigger] gc[j]).0 == keys[i];
        assert(gc.contains(gc[j]));
        assert(r.contains(gc[j]));
        let m = choose|m: int| 0 <= m < r.len() && r[m] == gc[j];
        assert(r[m].0 == keys[i]);
    }
}

/// Counting edges `by=source` counts each edge under its source id, and
/// `by=target` under its target id: every group's count is the number of
/// edges with that endpoint, and every edge's endpoint has a group.
pub proof fn law_edge_groups_by_endpoint(g: GraphV)
    ensures
        aggregate_spec(g, "edges"@, "source"@) matches Ok(r) && (forall|i: int|
            0 <= i < r.len() ==> (#[trigger] r[i]).1 == occurrences(
                g.edges.map_values(|e: EdgeV| e.source_id),
                r[i].0,
            )) && (forall|i: int|
            0 <= i < g.edges.len() ==> exists|j: int|
                0 <= j < r.len() && (#[trigger] r[j]).0 == (#[trigger] g.edges[i]).source_id),
        aggregate_spec(g, "edges"@, "target"@) matches Ok(r) && (forall|i: int|
            0 <= i < r.len() ==> (#[trigger] r[i]).1 == occurrences(
                g.edges.map_values(|e: EdgeV| e.target_id),
                r[i].0,
            )) && (forall|i: int|
            0 <= i < g.edges.len() ==> exists|j: int|
                0 <= j < r.len() && (#[trigger] r[j]).0 == (#[trigger] g.edges[i]).target_id),
{
    reveal_strlit("edges");
    reveal_strlit("nodes");
    reveal_strlit("node");
    reveal_strlit("source");
    reveal_strlit("target");
    assert("source"@[0] != "target"@[0]);
    assert("edges"@[0] != "nodes"@[0]);
    let ks = g.edges.map_values(|e: EdgeV| e.source_id);
    let kt = g.edges.map_values(|e: EdgeV| e.target_id);
    assert(g.edges.map_values(|e: EdgeV| edge_group(e, "source"@)) =~= ks);
    assert(g.edges.map_values(|e: EdgeV| edge_group(e, "target"@)) =~= kt);
    lemma_counts_of_keys(ks);
    lemma_counts_of_keys(kt);
    assert forall|i: int| 0 <= i < g.edges.len() implies exists|j: int|
        0 <= j < sorted_seq::<ByCount>(group_counts(ks)).len() && (#[trigger] sorted_seq::<ByCount>(
            group_counts(ks),
        )[j]).0 == (#[trigger] g.edges[i]).source_id by {
        assert(ks[i] == g.edges[i].source_id);
    }
    assert forall|i: int| 0 <= i < g.edges.len() implies exists|j: int|
        0 <= j < sorted_seq::<ByCount>(group_counts(kt)).len() && (#[trigger] sorted_seq::<ByCount>(
            group_counts(kt),
        )[j]).0 == (#[trigger] g.edges[i]).target_id by {
        assert(kt[i] == g.edges[i].target_id);
    }
}

/// Counting nodes `by=type` counts each node under its type, and counting
/// notes `by=node` counts each note under the node it is attached to: every
/// group's count is the number of entities with that value, and every
/// entity's value has a group.
pub proof fn law_node_note_groups(g: GraphV)
    ensures
        aggregate_spec(g, "nodes"@, "type"@) matches Ok(r) && (forall|i: int|
            0 <= i < r.len() ==> (#[trigger] r[i]).1 == occurrences(
                g.nodes.map_values(|n: NodeV| n.node_type),
                r[i].0,
            )) && (forall|i: int|
            0 <= i < g.nodes.len() ==> exists|j: int|
                0 <= j < r.len() && (#[trigger] r[j]).0 == (#[trigger] g.nodes[i]).node_type),
        aggregate_spec(g, "notes"@, "node"@) matches Ok(r) && (forall|i: int|
            0 <= i < r.len() ==> (#[trigger] r[i]).1 == occurrences(
                g.notes.map_values(|o: NoteV| o.node_id),
                r[i].0,
            )) && (forall|i: int|
            0 <= i < g.notes.len() ==> exists|j: int|
                0 <= j < r.len() && (#[trigger] r[j]).0 == (#[trigger] g.notes[i]).node_id),
{
    reveal_strlit("notes");
    reveal_strlit("nodes");
    reveal_strlit("node");
    reveal_strlit("edge");
    reveal_strlit("edges");
    reveal_strlit("type");
    assert("notes"@[2] != "nodes"@[2]);
    assert("notes"@[0] != "edges"@[0]);
    let kn = g.nodes.map_values(|n: NodeV| n.node_type);
    let ko = g.notes.map_values(|o: NoteV| o.node_id);
    assert(g.nodes.map_values(|n: NodeV| node_group(n, "type"@)) =~= kn);
    assert(g.notes.map_values(|o: NoteV| note_group(o, "node"@)) =~= ko);
    lemma_counts_of_keys(kn);
    lemma_counts_of_keys(ko);
    assert forall|i: int| 0 <= i < g.nodes.len() implies exists|j: int|
        0 <= j < sorted_seq::<ByCount>(group_counts(kn)).len() && (#[trigger] sorted_seq::<ByCount>(
            group_counts(kn),
        )[j]).0 == (#[trigger] g.nodes[i]).node_type by {
        assert(kn[i] == g.nodes[i].node_type);
    }
    assert forall|i: int| 0 <= i < g.notes.len() implies exists|j: int|
        0 <= j < sorted_seq::<ByCount>(group_counts(ko)).len() && (#[trigger] sorted_seq::<ByCount>(
            group_counts(ko),
        )[j]).0 == (#[trigger] g.notes[i]).node_id by {
        assert(ko[i] == g.notes[i].node_id);
    }
}

fn none_or(s: &String) -> (r: String)
    ensures
        r@ == or_none(s@),
{
    if chars_of(s.as_str()).len() == 0 {
        string_of(chars_of("(none)").as_slice())
    } else {
        crate::graph::copy_string(s)
    }
}

fn is(s: &String, w: &str) -> (r: bool)
    ensures
        r == (s@ == w@),
{
    crate::text::str_eq(s.as_str(), w)
}

fn node_group_exec(n: &Node, by: &String) -> (r: String)
    ensures
        r@ == node_group(n@, by@),
{
    if is(by, "type") {
        crate::graph::copy_string(&n.node_type)
    } else if is(by, "domain") || is(by, "domain_area") {
        none_or(&n.properties.domain_area)
    } else if is(by, "source") {
        if n.source_files.len() == 0 {
            string_of(chars_of("(none)").as_slice())
        } else {
            assert(views(n.source_files@)[0] == n.source_files@[0]@);
            crate::graph::copy_string(&n.source_files[0])
        }
    } else if is(by, "provenance") {
        none_or(&n.properties.provenance)
    } else if is(by, "importance") {
        crate::graph::copy_string(&n.properties.importance)
    } else {
        crate::graph::copy_string(&n.node_type)
    }
}

fn edge_group_exec(e: &Edge, by: &String) -> (r: String)
    ensures
        r@ == edge_group(e@, by@),
{
    if is(by, "source") {
        crate::graph::copy_string(&e.source_id)
    } else if is(by, "target") {
        crate::graph::copy_string(&e.target_id)
    } else {
        crate::graph::copy_string(&e.relation)
    }
}

fn note_group_exec(o: &Note, by: &String) -> (r: String)
    ensures
        r@ == note_group(o@, by@),
{
    if is(by, "node") {
        crate::graph::copy_string(&o.node_id)
    } else if is(by, "author") {
        none_or(&o.author)
    } else if is(by, "tag") {
        if o.tags.len() == 0 {
            string_of(chars_of("(none)").as_slice())
        } else {
            assert(views(o.tags@)[0] == o.tags@[0]@);
            crate::graph::copy_string(&o.tags[0])
        }
    } else {
        string_of(chars_of("(all)").as_slice())
    }
}

pub open spec fn counts_view(c: Seq<ByCount>) -> Seq<(Seq<char>, nat)> {
    c.map_values(|x: ByCount| x@)
}

fn group_pos(c: &Vec<ByCount>, k: &String) -> (r: Option<usize>)
    ensures
        match r {
            Some(i) => i < c.len() && i as int == crate::access_report::query_index(counts_view(c@), k@),
            None => crate::access_report::query_index(counts_view(c@), k@) == -1,
        },
{
    let ghost v = counts_view(c@);
    let mut j: usize = c.len();
    assert(v.take(j as int) =~= v);
    while j > 0
        invariant
            j <= c.len(),
            v == counts_view(c@),
            crate::access_report::query_index(v, k@) == crate::access_report::query_index(
                v.take(j as int),
                k@,
            ),
        decreases j,
    {
        proof {
            assert(v.take(j as int).drop_last() =~= v.take(j - 1));
            assert(v.take(j as int).last() == c@[j - 1]@);
        }
        if is(&c[j - 1].0, k.as_str()) {
            return Some(j - 1);
        }
        j -= 1;
    }
    assert(v.take(0) =~= Seq::<(Seq<char>, nat)>::empty());
    None
}

/// Counts the groups `keys`, then orders them by count.
fn count_groups(keys: &Vec<String>) -> (r: Vec<ByCount>)
    ensures
        counts_view(r@) == sorted_seq::<ByCount>(group_counts(views(keys@))),
{
    let c = tally(keys);
    stable_sort(c)
}

/// The distinct keys with the number of times each occurs, in order of
/// first appearance.
pub fn tally(keys: &Vec<String>) -> (r: Vec<ByCount>)
    ensures
        counts_view(r@) == group_counts(views(keys@)),
{
    let ghost ks = views(keys@);
    let mut c: Vec<ByCount> = Vec::new();
    let mut i: usize = 0;
    assert(ks.take(0) =~= Seq::<Seq<char>>::empty());
    assert(counts_view(c@) =~= Seq::<(Seq<char>, nat)>::empty());
    while i < keys.len()
        invariant
            i <= keys.len(),
            ks == views(keys@),
            counts_view(c@) == group_counts(ks.take(i as int)),
            forall|k: int| 0 <= k < c.len() ==> (#[trigger] c@[k]).1 <= i,
        decreases keys.len() - i,
    {
        proof {
            assert(ks.take(i + 1).drop_last() =~= ks.take(i as int));
            assert(ks.take(i + 1).last() == keys@[i as int]@);
        }
        let ghost before = counts_view(c@);
        let pos = group_pos(&c, &keys[i]);
        proof {
            crate::access_report::lemma_query_index_pub(before, keys@[i as int]@);
        }
        match pos {
            Some(k) => {
                let n = c[k].1;
                let name = crate::graph::copy_string(&c[k].0);
                c.set(k, ByCount(name, n + 1));
                assert(counts_view(c@) =~= before.update(k as int, (keys@[i as int]@, before[k as int].1 + 1)));
            },
            None => {
                let name = crate::graph::copy_string(&keys[i]);
                c.push(ByCount(name, 1));
                assert(counts_view(c@) =~= before.push((keys@[i as int]@, 1nat)));
            },
        }
        i += 1;
    }
    assert(ks.take(i as int) =~= ks);
    c
}

/// The groups with their counts as pairs.
pub fn group_pairs(c: Vec<ByCount>) -> (r: Vec<(String, usize)>)
    ensures
        pairs_count_view(r@) == counts_view(c@),
{
    let mut out: Vec<(String, usize)> = Vec::new();
    let mut i: usize = 0;
    while i < c.len()
        invariant
            i <= c.len(),
            pairs_count_view(out@) == counts_view(c@).take(i as int),
        decreases c.len() - i,
    {
        let ghost before = pairs_count_view(out@);
        let x = (crate::graph::copy_string(&c[i].0), c[i].1);
        out.push(x);
        proof {
            assert(pairs_count_view(out@) =~= before.push((x.0@, x.1 as nat)));
            assert(counts_view(c@)[i as int] == c@[i as int]@);
            assert(counts_view(c@).take(i + 1) =~= counts_view(c@).take(i as int).push(
                counts_view(c@)[i as int],
            ));
        }
        i += 1;
    }
    assert(counts_view(c@).take(i as int) =~= counts_view(c@));
    out
}

/// The view of groups with counts.
pub open spec fn pairs_count_view(p: Seq<(String, usize)>) -> Seq<(Seq<char>, nat)> {
    p.map_values(|x: (String, usize)| (x.0@, x.1 as nat))
}

/// Counts of the entities of a kind, grouped by a field.
pub fn aggregate(graph: &GraphFile, kind: &String, group_by: &String) -> (r: Result<
    Vec<(String, usize)>,
    String,
>)
    ensures
        match (r, aggregate_spec(graph@, kind@, group_by@)) {
            (Ok(v), Ok(w)) => pairs_count_view(v@) == w,
            (Err(e), Err(m)) => e@ == m,
            _ => false,
        },
{
    let mut keys: Vec<String> = Vec::new();
    if is(kind, "node") || is(kind, "nodes") {
        let ghost want = graph@.nodes.map_values(|n: NodeV| node_group(n, group_by@));
        let mut i: usize = 0;
        while i < graph.nodes.len()
            invariant
                i <= graph.nodes.len(),
                want == graph@.nodes.map_values(|n: NodeV| node_group(n, group_by@)),
                views(keys@) == want.take(i as int),
            decreases graph.nodes.len() - i,
        {
            let k = node_group_exec(&graph.nodes[i], group_by);
            let ghost before = views(keys@);
            keys.push(k);
            proof {
                assert(graph@.nodes[i as int] == graph.nodes@[i as int]@);
                assert(views(keys@) =~= before.push(k@));
                assert(want[i as int] == k@);
                assert(want.take(i + 1) =~= want.take(i as int).push(want[i as int]));
            }
            i += 1;
        }
        assert(want.take(i as int) =~= want);
    } else if is(kind, "edge") || is(kind, "edges") {
        let ghost want = graph@.edges.map_values(|e: EdgeV| edge_group(e, group_by@));
        let mut i: usize = 0;
        while i < graph.edges.len()
            invariant
                i <= graph.edges.len(),
                want == graph@.edges.map_values(|e: EdgeV| edge_group(e, group_by@)),
                views(keys@) == want.take(i as int),
            decreases graph.edges.len() - i,
        {
            let k = edge_group_exec(&graph.edges[i], group_by);
            let ghost before = views(keys@);
            keys.push(k);
            proof {
                assert(graph@.edges[i as int] == graph.edges@[i as int]@);
                assert(views(keys@) =~= before.push(k@));
                assert(want[i as int] == k@);
                assert(want.take(i + 1) =~= want.take(i as int).push(want[i as int]));
            }
            i += 1;
        }
        assert(want.take(i as int) =~= want);
    } else if is(kind, "note") || is(kind, "notes") {
        let ghost want = graph@.notes.map_values(|o: NoteV| note_group(o, group_by@));
        let mut i: usize = 0;
        while i < graph.notes.len()
            invariant
                i <= graph.notes.len(),
                want == graph@.notes.map_values(|o: NoteV| note_group(o, group_by@)),
                views(keys@) == want.take(i as int),
            decreases graph.notes.len() - i,
        {
            let k = note_group_exec(&graph.notes[i], group_by);
            let ghost before = views(keys@);
            keys.push(k);
            proof {
                assert(graph@.notes[i as int] == graph.notes@[i as int]@);
                assert(views(keys@) =~= before.push(k@));
                assert(want[i as int] == k@);
                assert(want.take(i + 1) =~= want.take(i as int).push(want[i as int]));
            }
            i += 1;
        }
        assert(want.take(i as int) =~= want);
    } else {
        let mut m = chars_of("unknown aggregate kind: ");
        crate::text::append_str(&mut m, kind.as_str());
        return Err(string_of(m.as_slice()));
    }
    let counted = count_groups(&keys);
    Ok(group_pairs(counted))
}

// ---------------------------------------------------------------------------
// Neighbourhoods
// ---------------------------------------------------------------------------

/// The id one edge leads to from `cur`, following `dir`.
pub open spec fn step_of(e: EdgeV, dir: NeighborDir, cur: Seq<char>) -> Option<Seq<char>> {
    match dir {
        NeighborDir::Out => if e.source_id == cur {
            Some(e.target_id)
        } else {
            None
        },
        NeighborDir::In => if e.target_id == cur {
            Some(e.source_id)
        } else {
            None
        },
        NeighborDir::Both => if e.source_id == cur {
            Some(e.target_id)
        } else if e.target_id == cur {
            Some(e.source_id)
        } else {
            None
        },
    }
}

/// Whether `x` is at most `k` steps away from `id`: every id an edge leads
/// to from an id at most `k - 1` steps away (only the two ends of an edge
/// can lead anywhere through it).
pub open spec fn in_ball(es: Seq<EdgeV>, dir: NeighborDir, id: Seq<char>, k: nat, x: Seq<char>) -> bool
    decreases k,
{
    if k == 0 {
        x == id
    } else {
        ||| in_ball(es, dir, id, (k - 1) as nat, x)
        ||| exists|j: int|
            0 <= j < es.len() && ((in_ball(es, dir, id, (k - 1) as nat, (#[trigger] es[j]).source_id)
                && step_of(es[j], dir, es[j].source_id) == Some(x)) || (in_ball(
                es,
                dir,
                id,
                (k - 1) as nat,
                es[j].target_id,
            ) && step_of(es[j], dir, es[j].target_id) == Some(x)))
    }
}

/// Whether an edge leads to `x` from an id of `vs`.
pub open spec fn hit(vs: Seq<Seq<char>>, e: EdgeV, dir: NeighborDir, x: Seq<char>) -> bool {
    (vs.contains(e.source_id) && step_of(e, dir, e.source_id) == Some(x)) || (vs.contains(
        e.target_id,
    ) && step_of(e, dir, e.target_id) == Some(x))
}

/// An id reached through an edge is one of its ends.
proof fn lemma_step_end(e: EdgeV, dir: NeighborDir, a: Seq<char>)
    ensures
        step_of(e, dir, a) is Some ==> a == e.source_id || a == e.target_id,
{
}

/// The ball stops growing once one step adds nothing.
proof fn lemma_ball_fixpoint(es: Seq<EdgeV>, dir: NeighborDir, id: Seq<char>, k: nat, j: nat)
    requires
        k <= j,
        forall|x: Seq<char>| in_ball(es, dir, id, k + 1, x) == in_ball(es, dir, id, k, x),
    ensures
        forall|x: Seq<char>| in_ball(es, dir, id, j, x) == in_ball(es, dir, id, k, x),
    decreases j - k,
{
    if j > k {
        let jm = (j - 1) as nat;
        lemma_ball_fixpoint(es, dir, id, k, jm);
        assert forall|x: Seq<char>| in_ball(es, dir, id, j, x) == in_ball(es, dir, id, k, x) by {
            if in_ball(es, dir, id, j, x) && !in_ball(es, dir, id, jm, x) {
                let w = choose|w: int|
                    0 <= w < es.len() && ((in_ball(es, dir, id, jm, (#[trigger] es[w]).source_id)
                        && step_of(es[w], dir, es[w].source_id) == Some(x)) || (in_ball(
                        es,
                        dir,
                        id,
                        jm,
                        es[w].target_id,
                    ) && step_of(es[w], dir, es[w].target_id) == Some(x)));
                assert(in_ball(es, dir, id, k, es[w].source_id) == in_ball(es, dir, id, jm, es[w].source_id));
                assert(in_ball(es, dir, id, k, es[w].target_id) == in_ball(es, dir, id, jm, es[w].target_id));
                assert(in_ball(es, dir, id, k + 1, x));
            }
            if in_ball(es, dir, id, k, x) {
                assert(in_ball(es, dir, id, jm, x));
            }
        }
    }
}

fn step_of_exec(e: &Edge, dir: NeighborDir, cur: &String) -> (r: Option<String>)
    ensures
        match r {
            Some(b) => step_of(e@, dir, cur@) == Some(b@),
            None => step_of(e@, dir, cur@) is None,
        },
{
    let src = crate::graph_diff::string_eq(&e.source_id, cur);
    let tgt = crate::graph_diff::string_eq(&e.target_id, cur);
    match dir {
        NeighborDir::Out => if src {
            Some(crate::graph::copy_string(&e.target_id))
        } else {
            None
        },
        NeighborDir::In => if tgt {
            Some(crate::graph::copy_string(&e.source_id))
        } else {
            None
        },
        NeighborDir::Both => if src {
            Some(crate::graph::copy_string(&e.target_id))
        } else if tgt {
            Some(crate::graph::copy_string(&e.source_id))
        } else {
            None
        },
    }
}

/// Whether `x` is one step from some id of `vs`, through the edges before
/// index `jmax` for the id at index `i` and through any edge for the ids
/// before it.
pub open spec fn stepped(vs: Seq<Seq<char>>, es: Seq<EdgeV>, dir: NeighborDir, i: int, jmax: int, x: Seq<char>) -> bool {
    ||| exists|a: int, j: int|
        0 <= a < i && 0 <= j < es.len() && step_of(#[trigger] es[j], dir, #[trigger] vs[a]) == Some(x)
    ||| exists|j: int| 0 <= j < jmax && step_of(#[trigger] es[j], dir, vs[i]) == Some(x)
}

/// The ids of `visited` and those one step from them.
fn expand(graph: &GraphFile, visited: &Vec<String>, dir: NeighborDir) -> (r: Vec<String>)
    requires
        crate::graph_diff::strictly_sorted(views(visited@)),
    ensures
        crate::graph_diff::strictly_sorted(views(r@)),
        forall|x: Seq<char>|
            #[trigger] views(r@).contains(x) == (views(visited@).contains(x) || exists|j: int|
                0 <= j < graph@.edges.len() && hit(views(visited@), #[trigger] graph@.edges[j], dir, x)),
{
    let ghost vs = views(visited@);
    let ghost es = graph@.edges;
    let mut next: Vec<String> = Vec::new();
    let mut i: usize = 0;
    while i < visited.len()
        invariant
            i <= visited.len(),
            vs == views(visited@),
            crate::graph_diff::strictly_sorted(views(next@)),
            forall|x: Seq<char>| #[trigger] views(next@).contains(x) == vs.take(i as int).contains(x),
        decreases visited.len() - i,
    {
        proof {
            assert(vs.take(i + 1) =~= vs.take(i as int).push(visited@[i as int]@));
            crate::graph_diff::lemma_push_contains(vs.take(i as int), visited@[i as int]@);
        }
        crate::graph_diff::insert_unique_sorted(&mut next, crate::graph::copy_string(&visited[i]));
        i += 1;
    }
    assert(vs.take(i as int) =~= vs);
    let mut i: usize = 0;
    while i < visited.len()
        invariant
            i <= visited.len(),
            vs == views(visited@),
            es == graph@.edges,
            crate::graph_diff::strictly_sorted(views(next@)),
            forall|x: Seq<char>|
                #[trigger] views(next@).contains(x) == (vs.contains(x) || stepped(vs, es, dir, i as int, 0, x)),
        decreases visited.len() - i,
    {
        let mut j: usize = 0;
        while j < graph.edges.len()
            invariant
                i < visited.len(),
                j <= graph.edges.len(),
                vs == views(visited@),
                es == graph@.edges,
                crate::graph_diff::strictly_sorted(views(next@)),
                forall|x: Seq<char>|
                    #[trigger] views(next@).contains(x) == (vs.contains(x) || stepped(
                        vs,
                        es,
                        dir,
                        i as int,
                        j as int,
                        x,
                    )),
            decreases graph.edges.len() - j,
        {
            let st = step_of_exec(&graph.edges[j], dir, &visited[i]);
            proof {
                assert(es[j as int] == graph.edges@[j as int]@);
                assert(vs[i as int] == visited@[i as int]@);
            }
            let ghost before = views(next@);
            match st {
                Some(b) => {
                    let ghost bv = b@;
                    crate::graph_diff::insert_unique_sorted(&mut next, b);
                    assert forall|x: Seq<char>| views(next@).contains(x) == (vs.contains(x) || stepped(
                        vs,
                        es,
                        dir,
                        i as int,
                        j + 1,
                        x,
                    )) by {
                        if x == bv {
                            assert(step_of(es[j as int], dir, vs[i as int]) == Some(x));
                        }
                        if stepped(vs, es, dir, i as int, j + 1, x) && !stepped(vs, es, dir, i as int, j as int, x) {
                            if !(exists|a: int, jj: int|
                                0 <= a < i && 0 <= jj < es.len() && step_of(#[trigger] es[jj], dir, #[trigger] vs[a]) == Some(x)) {
                                let jj = choose|jj: int| 0 <= jj < j + 1 && step_of(#[trigger] es[jj], dir, vs[i as int]) == Some(x);
                                assert(jj == j);
                            }
                        }
                    }
                },
                None => {
                    assert forall|x: Seq<char>| views(next@).contains(x) == (vs.contains(x) || stepped(
                        vs,
                        es,
                        dir,
                        i as int,
                        j + 1,
                        x,
                    )) by {
                        if stepped(vs, es, dir, i as int, j + 1, x) && !stepped(vs, es, dir, i as int, j as int, x) {
                            if !(exists|a: int, jj: int|
                                0 <= a < i && 0 <= jj < es.len() && step_of(#[trigger] es[jj], dir, #[trigger] vs[a]) == Some(x)) {
                                let jj = choose|jj: int| 0 <= jj < j + 1 && step_of(#[trigger] es[jj], dir, vs[i as int]) == Some(x);
                                assert(jj == j);
                            }
                        }
                    }
                },
            }
            j += 1;
        }
        assert forall|x: Seq<char>| views(next@).contains(x) == (vs.contains(x) || stepped(
            vs,
            es,
            dir,
            i + 1,
            0,
            x,
        )) by {
            if stepped(vs, es, dir, i as int, es.len() as int, x) {
                if !(exists|a: int, jj: int|
                    0 <= a < i && 0 <= jj < es.len() && step_of(#[trigger] es[jj], dir, #[trigger] vs[a]) == Some(x)) {
                    let jj = choose|jj: int| 0 <= jj < es.len() && step_of(#[trigger] es[jj], dir, vs[i as int]) == Some(x);
                    assert(0 <= i < i + 1 && step_of(es[jj], dir, vs[i as int]) == Some(x));
                }
            }
            if stepped(vs, es, dir, i + 1, 0, x) {
                let (a, jj) = choose|a: int, jj: int|
                    0 <= a < i + 1 && 0 <= jj < es.len() && step_of(#[trigger] es[jj], dir, #[trigger] vs[a]) == Some(x);
                if a == i {
                    assert(step_of(es[jj], dir, vs[i as int]) == Some(x));
                }
            }
        }
        i += 1;
    }
    assert forall|x: Seq<char>| #[trigger] views(next@).contains(x) == (vs.contains(x) || exists|jj: int|
        0 <= jj < es.len() && hit(vs, #[trigger] es[jj], dir, x)) by {
        if stepped(vs, es, dir, i as int, 0, x) {
            let (a, jj) = choose|a: int, jj: int|
                0 <= a < i && 0 <= jj < es.len() && step_of(#[trigger] es[jj], dir, #[trigger] vs[a]) == Some(x);
            lemma_step_end(es[jj], dir, vs[a]);
            assert(vs.contains(vs[a]));
            assert(hit(vs, es[jj], dir, x));
        }
        if exists|jj: int| 0 <= jj < es.len() && hit(vs, #[trigger] es[jj], dir, x) {
            let jj = choose|jj: int| 0 <= jj < es.len() && hit(vs, #[trigger] es[jj], dir, x);
            let e = es[jj];
            if vs.contains(e.source_id) && step_of(e, dir, e.source_id) == Some(x) {
                let ai = choose|ai: int| 0 <= ai < vs.len() && vs[ai] == e.source_id;
                assert(step_of(es[jj], dir, vs[ai]) == Some(x));
            } else {
                let ai = choose|ai: int| 0 <= ai < vs.len() && vs[ai] == e.target_id;
                assert(step_of(es[jj], dir, vs[ai]) == Some(x));
            }
        }
    }
    next
}

proof fn lemma_expand_ball(vs: Seq<Seq<char>>, es: Seq<EdgeV>, dir: NeighborDir, id: Seq<char>, k: nat)
    requires
        forall|a: Seq<char>| vs.contains(a) == in_ball(es, dir, id, k, a),
    ensures
        forall|x: Seq<char>|
            (vs.contains(x) || exists|j: int| 0 <= j < es.len() && hit(vs, #[trigger] es[j], dir, x))
                == in_ball(es, dir, id, k + 1, x),
{
    assert forall|x: Seq<char>|
        (vs.contains(x) || exists|j: int| 0 <= j < es.len() && hit(vs, #[trigger] es[j], dir, x))
            == in_ball(es, dir, id, k + 1, x) by {
        assert forall|j: int| 0 <= j < es.len() implies hit(vs, #[trigger] es[j], dir, x) == ((
        in_ball(es, dir, id, k, es[j].source_id) && step_of(es[j], dir, es[j].source_id) == Some(x))
            || (in_ball(es, dir, id, k, es[j].target_id) && step_of(es[j], dir, es[j].target_id)
            == Some(x))) by {
            assert(vs.contains(es[j].source_id) == in_ball(es, dir, id, k, es[j].source_id));
            assert(vs.contains(es[j].target_id) == in_ball(es, dir, id, k, es[j].target_id));
        }
    }
}

pub(crate) fn contains_string(v: &Vec<String>, x: &String) -> (r: bool)
    ensures
        r == views(v@).contains(x@),
{
    let mut i: usize = 0;
    while i < v.len()
        invariant
            i <= v.len(),
            forall|j: int| 0 <= j < i ==> views(v@)[j] != x@,
        decreases v.len() - i,
    {
        if crate::graph_diff::string_eq(&v[i], x) {
            assert(views(v@)[i as int] == x@);
            return true;
        }
        i += 1;
    }
    false
}

/// The ids at most `hops` steps away from `id`, sorted.
fn ball_exec(graph: &GraphFile, id: &String, hops: usize, dir: NeighborDir) -> (r: Vec<String>)
    ensures
        crate::graph_diff::strictly_sorted(views(r@)),
        forall|x: Seq<char>| #[trigger] views(r@).contains(x) == in_ball(graph@.edges, dir, id@, hops as nat, x),
{
    let ghost es = graph@.edges;
    let mut visited: Vec<String> = Vec::new();
    crate::graph_diff::insert_unique_sorted(&mut visited, crate::graph::copy_string(id));
    let mut k: usize = 0;
    loop
        invariant
            k <= hops,
            es == graph@.edges,
            crate::graph_diff::strictly_sorted(views(visited@)),
            forall|x: Seq<char>| #[trigger] views(visited@).contains(x) == in_ball(es, dir, id@, k as nat, x),
        ensures
            crate::graph_diff::strictly_sorted(views(visited@)),
            forall|x: Seq<char>| #[trigger] views(visited@).contains(x) == in_ball(es, dir, id@, hops as nat, x),
        decreases hops - k,
    {
        if k >= hops {
            break;
        }
        let next = expand(graph, &visited, dir);
        proof {
            lemma_expand_ball(views(visited@), es, dir, id@, k as nat);
        }
        let mut same = true;
        let mut t: usize = 0;
        while t < next.len()
            invariant
                t <= next.len(),
                same ==> forall|u: int| 0 <= u < t ==> views(visited@).contains(#[trigger] views(next@)[u]),
            decreases next.len() - t,
        {
            if !contains_string(&visited, &next[t]) {
                same = false;
            }
            proof {
                assert(views(next@)[t as int] == next@[t as int]@);
            }
            t += 1;
        }
        if same {
            proof {
                assert forall|x: Seq<char>| in_ball(es, dir, id@, (k + 1) as nat, x) == in_ball(
                    es,
                    dir,
                    id@,
                    k as nat,
                    x,
                ) by {
                    if views(next@).contains(x) {
                        let u = choose|u: int| 0 <= u < views(next@).len() && views(next@)[u] == x;
                    }
                }
                lemma_ball_fixpoint(es, dir, id@, k as nat, hops as nat);
            }
            break;
        }
        visited = next;
        k += 1;
    }
    visited
}

/// Whether some node has id `x`.
pub open spec fn has_node(ns: Seq<NodeV>, x: Seq<char>) -> bool {
    exists|i: int| 0 <= i < ns.len() && (#[trigger] ns[i]).id == x
}

/// Whether `i` is the index of the first node with id `x`.
pub open spec fn is_first_node(ns: Seq<NodeV>, x: Seq<char>, i: int) -> bool {
    0 <= i < ns.len() && ns[i].id == x && forall|j: int| 0 <= j < i ==> (#[trigger] ns[j]).id != x
}

/// The first node with id `x` (what `node_by_id` finds).
pub open spec fn first_node(ns: Seq<NodeV>, x: Seq<char>) -> NodeV {
    ns[choose|i: int| is_first_node(ns, x, i)]
}

proof fn lemma_first_node(ns: Seq<NodeV>, x: Seq<char>, i: int)
    requires
        is_first_node(ns, x, i),
    ensures
        first_node(ns, x) == ns[i],
{
    let c = choose|c: int| is_first_node(ns, x, c);
    assert(is_first_node(ns, x, c));
    if c < i {
        assert(ns[c].id != x);
    } else if c > i {
        assert(ns[i].id != x);
    }
}

/// The ids a neighbourhood query lists: within `hops` steps, not the start,
/// and the id of a node.
pub open spec fn neighbor_id(g: GraphV, id: Seq<char>, hops: usize, dir: NeighborDir, x: Seq<char>) -> bool {
    in_ball(g.edges, dir, id, hops as nat, x) && x != id && has_node(g.nodes, x)
}

/// The nodes within `hops` steps of `id` (not `id` itself),
/// sorted by id, then limited.
pub open spec fn neighbors_result(
    g: GraphV,
    id: Seq<char>,
    hops: usize,
    dir: NeighborDir,
    limit: Option<usize>,
    r: Seq<NodeV>,
) -> bool {
    exists|ids: Seq<Seq<char>>|
        #[trigger] neighbor_listing(g, id, hops, dir, ids) && r == limit_seq(
            ids.map_values(|x: Seq<char>| first_node(g.nodes, x)),
            limit,
        )
}

/// The sorted listing of the neighbourhood's ids.
pub open spec fn neighbor_listing(g: GraphV, id: Seq<char>, hops: usize, dir: NeighborDir, ids: Seq<Seq<char>>) -> bool {
    crate::graph_diff::lists(ids, |x: Seq<char>| neighbor_id(g, id, hops, dir, x))
}

/// The nodes within `hops` steps of a node, in the given direction, up to a limit.
pub fn find_neighbors(graph: &GraphFile, id: &String, hops: usize, dir: NeighborDir, limit: Option<usize>) -> (r: Vec<Node>)
    ensures
        neighbors_result(graph@, id@, hops, dir, limit, views(r@)),
{
    let ball = ball_exec(graph, id, hops, dir);
    let ghost bv = views(ball@);
    let ghost g = graph@;
    let mut out: Vec<Node> = Vec::new();
    let ghost mut ids: Seq<Seq<char>> = Seq::empty();
    let mut i: usize = 0;
    while i < ball.len()
        invariant
            i <= ball.len(),
            bv == views(ball@),
            g == graph@,
            crate::graph_diff::strictly_sorted(bv),
            forall|x: Seq<char>| #[trigger] bv.contains(x) == in_ball(g.edges, dir, id@, hops as nat, x),
            crate::graph_diff::strictly_sorted(ids),
            forall|u: int| 0 <= u < ids.len() ==> exists|v: int| 0 <= v < i && bv[v] == #[trigger] ids[u],
            forall|x: Seq<char>| #[trigger] ids.contains(x) == (bv.take(i as int).contains(x) && x != id@ && has_node(g.nodes, x)),
            views(out@) == ids.map_values(|x: Seq<char>| first_node(g.nodes, x)),
        decreases ball.len() - i,
    {
        let b = &ball[i];
        let ghost ids0 = ids;
        proof {
            assert(bv[i as int] == b@);
            assert(bv.take(i + 1) =~= bv.take(i as int).push(b@));
            crate::graph_diff::lemma_push_contains(bv.take(i as int), b@);
        }
        if !crate::graph_diff::string_eq(b, id) {
            match graph.node_by_id(b.as_str()) {
                Some(n) => {
                    let c = graph.nodes[n].copy();
                    let ghost before_ids = ids;
                    let ghost before_out = views(out@);
                    out.push(c);
                    proof {
                        assert(g.nodes[n as int] == graph.nodes@[n as int]@);
                        assert(is_first_node(g.nodes, b@, n as int));
                        lemma_first_node(g.nodes, b@, n as int);
                        ids = ids.push(b@);
                        crate::graph_diff::lemma_push_contains(before_ids, b@);
                        assert(views(out@) =~= before_out.push(c@));
                        assert(c@ == first_node(g.nodes, b@));
                        assert(ids.map_values(|x: Seq<char>| first_node(g.nodes, x)) =~= before_ids.map_values(
                            |x: Seq<char>| first_node(g.nodes, x),
                        ).push(first_node(g.nodes, b@)));
                        assert(views(out@) =~= ids.map_values(|x: Seq<char>| first_node(g.nodes, x)));
                        assert forall|u: int, w: int| 0 <= u < w < ids.len() implies lex_order(ids[u], ids[w]) < 0 by {
                            if w == ids.len() - 1 && u < w {
                                let v = choose|v: int| 0 <= v < i && bv[v] == #[trigger] before_ids[u];
                                assert(lex_order(bv[v], bv[i as int]) < 0);
                            } else {
                                assert(ids[u] == before_ids[u] && ids[w] == before_ids[w]);
                            }
                        }
                        assert forall|u: int| 0 <= u < ids.len() implies exists|v: int| 0 <= v < i + 1 && bv[v] == #[trigger] ids[u] by {
                            if u == ids.len() - 1 {
                                assert(bv[i as int] == ids[u]);
                            } else {
                                assert(ids[u] == before_ids[u]);
                                let v = choose|v: int| 0 <= v < i && bv[v] == #[trigger] before_ids[u];
                                assert(bv[v] == ids[u]);
                            }
                        }
                        assert(has_node(g.nodes, b@));
                    }
                },
                None => {
                    proof {
                        if has_node(g.nodes, b@) {
                            let w = choose|w: int| 0 <= w < g.nodes.len() && (#[trigger] g.nodes[w]).id == b@;
                        }
                    }
                },
            }
        }
        proof {
            crate::graph_diff::lemma_push_contains(ids0, b@);
            assert forall|x: Seq<char>| #[trigger] ids.contains(x) == (bv.take(i + 1).contains(x) && x
                != id@ && has_node(g.nodes, x)) by {
                assert(ids0.contains(x) == (bv.take(i as int).contains(x) && x != id@ && has_node(
                    g.nodes,
                    x,
                )));
                assert(bv.take(i + 1).contains(x) == (bv.take(i as int).contains(x) || x == b@));
            }
        }
        i += 1;
    }
    proof {
        assert(bv.take(i as int) =~= bv);
        assert(neighbor_listing(g, id@, hops, dir, ids));
    }
    limit_vec(out, limit)
}

// ---------------------------------------------------------------------------
// Paths
// ---------------------------------------------------------------------------

/// A walk over edges in either direction, starting at `from`, without
/// repeated ids.
pub open spec fn simple_walk(es: Seq<EdgeV>, from: Seq<char>, w: Seq<Seq<char>>) -> bool {
    &&& w.len() > 0
    &&& w[0] == from
    &&& forall|t: int| 0 <= t < w.len() - 1 ==> #[trigger] walk_step(es, w, t)
    &&& forall|a: int, b: int| 0 <= a < b < w.len() ==> w[a] != w[b]
}

/// Whether an edge leads from `a` to `b` in either direction.
pub open spec fn adjacent(es: Seq<EdgeV>, a: Seq<char>, b: Seq<char>) -> bool {
    exists|j: int| 0 <= j < es.len() && step_of(#[trigger] es[j], NeighborDir::Both, a) == Some(b)
}

/// Whether the walk's step from position `t` follows an edge.
pub open spec fn walk_step(es: Seq<EdgeV>, w: Seq<Seq<char>>, t: int) -> bool {
    adjacent(es, w[t], w[t + 1])
}

/// The nodes of a walk's ids, skipping ids without a node.
pub open spec fn walk_nodes(ns: Seq<NodeV>, w: Seq<Seq<char>>) -> Seq<NodeV>
    decreases w.len(),
{
    if w.len() == 0 {
        Seq::empty()
    } else if has_node(ns, w.last()) {
        walk_nodes(ns, w.drop_last()).push(first_node(ns, w.last()))
    } else {
        walk_nodes(ns, w.drop_last())
    }
}

/// The message when no path is found.
pub open spec fn no_path_msg(from: Seq<char>, to: Seq<char>, max_hops: usize) -> Seq<char> {
    "no path found from "@ + from + " to "@ + to + " (max "@ + crate::text::decimal(max_hops as nat)
        + " hops)"@
}

/// A walk over edges in either direction from `from` to `to`, ids
/// possibly repeated.
pub open spec fn any_walk(es: Seq<EdgeV>, from: Seq<char>, to: Seq<char>, w: Seq<Seq<char>>) -> bool {
    &&& w.len() > 0
    &&& w[0] == from
    &&& w.last() == to
    &&& forall|t: int| 0 <= t < w.len() - 1 ==> #[trigger] walk_step(es, w, t)
}

/// What `find_path` answers: an error naming a missing end node; or the
/// nodes of a shortest walk from `from` to `to` when one has at most
/// `max_hops` ids; or, when none has, the message that no path was found.
pub open spec fn path_answer(g: GraphV, from: Seq<char>, to: Seq<char>, max_hops: usize, r: Result<Seq<NodeV>, Seq<char>>) -> bool {
    if !has_node(g.nodes, from) {
        r == Err::<Seq<NodeV>, Seq<char>>("node not found: "@ + from)
    } else if !has_node(g.nodes, to) {
        r == Err::<Seq<NodeV>, Seq<char>>("node not found: "@ + to)
    } else {
        match r {
            Ok(nodes) => exists|w: Seq<Seq<char>>|
                #[trigger] simple_walk(g.edges, from, w) && w.last() == to && w.len() <= max_hops
                    && nodes == walk_nodes(g.nodes, w) && forall|w2: Seq<Seq<char>>|
                    #[trigger] any_walk(g.edges, from, to, w2) ==> w.len() <= w2.len(),
            Err(m) => m == no_path_msg(from, to, max_hops) && forall|w2: Seq<Seq<char>>|
                #[trigger] any_walk(g.edges, from, to, w2) ==> w2.len() > max_hops,
        }
    }
}

/// The number of unset flags.
pub open spec fn unset(f: Seq<bool>) -> nat
    decreases f.len(),
{
    if f.len() == 0 {
        0
    } else {
        unset(f.drop_last()) + if f.last() {
            0nat
        } else {
            1nat
        }
    }
}

proof fn lemma_unset_set(f: Seq<bool>, i: int)
    requires
        0 <= i < f.len(),
        !f[i],
    ensures
        unset(f.update(i, true)) + 1 == unset(f),
    decreases f.len(),
{
    let g = f.update(i, true);
    if i == f.len() - 1 {
        assert(g.drop_last() =~= f.drop_last());
    } else {
        lemma_unset_set(f.drop_last(), i);
        assert(g.drop_last() =~= f.drop_last().update(i, true));
    }
}

/// The position of `x` in a list of texts.
fn index_of(v: &Vec<String>, x: &String) -> (r: Option<usize>)
    ensures
        match r {
            Some(i) => i < v.len() && views(v@)[i as int] == x@,
            None => !views(v@).contains(x@),
        },
{
    let mut i: usize = 0;
    while i < v.len()
        invariant
            i <= v.len(),
            forall|j: int| 0 <= j < i ==> views(v@)[j] != x@,
        decreases v.len() - i,
    {
        if crate::graph_diff::string_eq(&v[i], x) {
            assert(views(v@)[i as int] == v@[i as int]@);
            return Some(i);
        }
        assert(views(v@)[i as int] == v@[i as int]@);
        i += 1;
    }
    false_to_none(v, x)
}

fn false_to_none(v: &Vec<String>, x: &String) -> (r: Option<usize>)
    requires
        forall|j: int| 0 <= j < v.len() ==> views(v@)[j] != x@,
    ensures
        r is None,
        !views(v@).contains(x@),
{
    None
}

/// Whether `x` is a candidate whose flag is set.
pub open spec fn seen_id(cands: Seq<Seq<char>>, seen: Seq<bool>, x: Seq<char>) -> bool {
    exists|i: int| 0 <= i < cands.len() && cands[i] == x && #[trigger] seen[i]
}

/// The queue of the search: each entry's id and the walk that reached it.
pub open spec fn queue_ok(
    es: Seq<EdgeV>,
    from: Seq<char>,
    cands: Seq<Seq<char>>,
    seen: Seq<bool>,
    q: Seq<(String, Vec<String>)>,
) -> bool {
    forall|k: int|
        0 <= k < q.len() ==> {
            let w = views(#[trigger] q[k].1@);
            &&& simple_walk(es, from, w)
            &&& q[k].0@ == w.last()
            &&& forall|t: int| 0 <= t < w.len() ==> seen_id(cands, seen, #[trigger] w[t])
        }
}

proof fn lemma_seen_grow(cands: Seq<Seq<char>>, seen: Seq<bool>, i: int, x: Seq<char>)
    requires
        0 <= i < seen.len(),
        seen.len() == cands.len(),
        seen_id(cands, seen, x),
    ensures
        seen_id(cands, seen.update(i, true), x),
{
    let k = choose|k: int| 0 <= k < cands.len() && cands[k] == x && #[trigger] seen[k];
    assert(seen.update(i, true)[k]);
}

/// The id of a queue entry.
pub open spec fn qid(q: Seq<(String, Vec<String>)>, k: int) -> Seq<char> {
    q[k].0@
}

/// The length of the walk of a queue entry.
pub open spec fn qlen(q: Seq<(String, Vec<String>)>, k: int) -> nat {
    q[k].1@.len()
}

/// The walks in the queue never get shorter.
pub open spec fn layered(q: Seq<(String, Vec<String>)>) -> bool {
    forall|a: int, b: int| 0 <= a < b < q.len() ==> #[trigger] qlen(q, a) <= #[trigger] qlen(q, b)
}

/// Each id has at most one queue entry.
pub open spec fn unique_ids(q: Seq<(String, Vec<String>)>) -> bool {
    forall|a: int, b: int|
        0 <= a < q.len() && 0 <= b < q.len() && #[trigger] qid(q, a) == #[trigger] qid(q, b) ==> a == b
}

/// Every id that is marked seen has a queue entry.
pub open spec fn seen_queued(cands: Seq<Seq<char>>, seen: Seq<bool>, q: Seq<(String, Vec<String>)>) -> bool {
    forall|x: Seq<char>|
        #[trigger] seen_id(cands, seen, x) ==> exists|k: int| 0 <= k < q.len() && #[trigger] qid(q, k) == x
}

/// The entries before `n` that were expanded (walks of at most `limit`
/// ids) have every neighbour queued with a walk at most one id longer.
pub open spec fn closed_upto(es: Seq<EdgeV>, q: Seq<(String, Vec<String>)>, n: int, limit: nat) -> bool {
    forall|k: int, y: Seq<char>|
        0 <= k < n && qlen(q, k) <= limit && #[trigger] adjacent(es, qid(q, k), y) ==> exists|k2: int|
            0 <= k2 < q.len() && #[trigger] qid(q, k2) == y && qlen(q, k2) <= qlen(q, k) + 1
}

/// The expanded entries before `n` are not the target.
pub open spec fn target_unreached(q: Seq<(String, Vec<String>)>, n: int, to: Seq<char>, limit: nat) -> bool {
    forall|k: int| 0 <= k < n && qlen(q, k) <= limit ==> #[trigger] qid(q, k) != to
}

/// Every id of a walk whose steps follow edges, and whose first id is the
/// first queue entry, is queued with a walk no longer than its position
/// in the walk plus one, as far as the processed entries reach.
proof fn lemma_reach(
    es: Seq<EdgeV>,
    q: Seq<(String, Vec<String>)>,
    n: int,
    limit: nat,
    bound: nat,
    w: Seq<Seq<char>>,
    t: int,
)
    requires
        closed_upto(es, q, n, limit),
        forall|k: int| 0 <= k < q.len() && qlen(q, k) <= bound ==> k < n,
        bound <= limit,
        q.len() > 0,
        qid(q, 0) == w[0],
        qlen(q, 0) == 1,
        forall|u: int| 0 <= u < w.len() - 1 ==> #[trigger] walk_step(es, w, u),
        0 <= t < w.len(),
        t <= bound,
    ensures
        exists|k: int| 0 <= k < q.len() && #[trigger] qid(q, k) == w[t] && qlen(q, k) <= t + 1,
    decreases t,
{
    if t == 0 {
        assert(qid(q, 0) == w[0]);
    } else {
        lemma_reach(es, q, n, limit, bound, w, t - 1);
        let k = choose|k: int| 0 <= k < q.len() && #[trigger] qid(q, k) == w[t - 1] && qlen(q, k) <= t;
        assert(walk_step(es, w, t - 1));
        assert(adjacent(es, qid(q, k), w[t]));
        assert(k < n);
        let k2 = choose|k2: int| 0 <= k2 < q.len() && #[trigger] qid(q, k2) == w[t] && qlen(q, k2) <= qlen(q, k) + 1;
        assert(qid(q, k2) == w[t]);
    }
}

proof fn lemma_closed_grow(
    es: Seq<EdgeV>,
    q: Seq<(String, Vec<String>)>,
    q2: Seq<(String, Vec<String>)>,
    n: int,
    limit: nat,
)
    requires
        closed_upto(es, q, n, limit),
        q.len() <= q2.len(),
        forall|k: int| 0 <= k < q.len() ==> #[trigger] q2[k] == q[k],
        n <= q.len(),
    ensures
        closed_upto(es, q2, n, limit),
{
    assert forall|k: int, y: Seq<char>|
        0 <= k < n && qlen(q2, k) <= limit && #[trigger] adjacent(es, qid(q2, k), y) implies exists|k2: int|
            0 <= k2 < q2.len() && #[trigger] qid(q2, k2) == y && qlen(q2, k2) <= qlen(q2, k) + 1 by {
        assert(q2[k] == q[k]);
        assert(adjacent(es, qid(q, k), y));
        let k2 = choose|k2: int| 0 <= k2 < q.len() && #[trigger] qid(q, k2) == y && qlen(q, k2) <= qlen(q, k) + 1;
        assert(q2[k2] == q[k2]);
        assert(qid(q2, k2) == y);
    }
}

fn walk_nodes_exec(graph: &GraphFile, w: &Vec<String>) -> (r: Vec<Node>)
    ensures
        views(r@) == walk_nodes(graph@.nodes, views(w@)),
{
    let ghost wv = views(w@);
    let ghost g = graph@;
    let mut out: Vec<Node> = Vec::new();
    let mut i: usize = 0;
    assert(wv.take(0) =~= Seq::<Seq<char>>::empty());
    while i < w.len()
        invariant
            i <= w.len(),
            wv == views(w@),
            g == graph@,
            views(out@) == walk_nodes(g.nodes, wv.take(i as int)),
        decreases w.len() - i,
    {
        proof {
            assert(wv.take(i + 1).drop_last() =~= wv.take(i as int));
            assert(wv.take(i + 1).last() == w@[i as int]@);
        }
        match graph.node_by_id(w[i].as_str()) {
            Some(n) => {
                let c = graph.nodes[n].copy();
                let ghost before = views(out@);
                out.push(c);
                proof {
                    assert(g.nodes[n as int] == graph.nodes@[n as int]@);
                    assert(is_first_node(g.nodes, w@[i as int]@, n as int));
                    lemma_first_node(g.nodes, w@[i as int]@, n as int);
                    assert(has_node(g.nodes, w@[i as int]@));
                    assert(views(out@) =~= before.push(c@));
                }
            },
            None => {
                proof {
                    if has_node(g.nodes, w@[i as int]@) {
                        let k = choose|k: int| 0 <= k < g.nodes.len() && (#[trigger] g.nodes[k]).id == w@[i as int]@;
                    }
                }
            },
        }
        i += 1;
    }
    assert(wv.take(i as int) =~= wv);
    out
}

fn not_found(id: &String) -> (r: Result<Vec<Node>, String>)
    ensures
        r matches Err(e) && e@ == "node not found: "@ + id@,
{
    let mut m = chars_of("node not found: ");
    crate::text::append_str(&mut m, id.as_str());
    Err(string_of(m.as_slice()))
}

/// The view of a path answer.
pub open spec fn path_view(r: Result<Vec<Node>, String>) -> Result<Seq<NodeV>, Seq<char>> {
    match r {
        Ok(v) => Ok(views(v@)),
        Err(e) => Err(e@),
    }
}

/// A breadth-first search from `from`, over edges in either
/// direction, for `to`; it gives the nodes of a shortest walk when one has
/// at most `max_hops` ids, and says no path was found when none has.
pub fn find_path(graph: &GraphFile, from: &String, to: &String, max_hops: usize) -> (r: Result<Vec<Node>, String>)
    ensures
        path_answer(graph@, from@, to@, max_hops, path_view(r)),
{
    let ghost g = graph@;
    let ghost es = g.edges;
    match graph.node_by_id(from.as_str()) {
        Some(fi0) => {
            proof {
                assert(g.nodes[fi0 as int] == graph.nodes@[fi0 as int]@);
                assert(has_node(g.nodes, from@));
            }
        },
        None => {
            proof {
                if has_node(g.nodes, from@) {
                    let k = choose|k: int| 0 <= k < g.nodes.len() && (#[trigger] g.nodes[k]).id == from@;
                }
            }
            return not_found(from);
        },
    }
    match graph.node_by_id(to.as_str()) {
        Some(ti0) => {
            proof {
                assert(g.nodes[ti0 as int] == graph.nodes@[ti0 as int]@);
                assert(has_node(g.nodes, to@));
            }
        },
        None => {
            proof {
                if has_node(g.nodes, to@) {
                    let k = choose|k: int| 0 <= k < g.nodes.len() && (#[trigger] g.nodes[k]).id == to@;
                }
            }
            return not_found(to);
        },
    }
    // the ids the search can meet: `from` and the ends of the edges
    let mut cands: Vec<String> = Vec::new();
    crate::graph_diff::insert_unique_sorted(&mut cands, crate::graph::copy_string(from));
    let mut e: usize = 0;
    while e < graph.edges.len()
        invariant
            e <= graph.edges.len(),
            es == graph@.edges,
            crate::graph_diff::strictly_sorted(views(cands@)),
            views(cands@).contains(from@),
            forall|k: int| 0 <= k < e ==> views(cands@).contains(#[trigger] es[k].source_id)
                && views(cands@).contains(es[k].target_id),
        decreases graph.edges.len() - e,
    {
        assert(es[e as int] == graph.edges@[e as int]@);
        crate::graph_diff::insert_unique_sorted(&mut cands, crate::graph::copy_string(&graph.edges[e].source_id));
        crate::graph_diff::insert_unique_sorted(&mut cands, crate::graph::copy_string(&graph.edges[e].target_id));
        e += 1;
    }
    let ghost cv = views(cands@);
    let mut seen: Vec<bool> = Vec::new();
    let mut s: usize = 0;
    while s < cands.len()
        invariant
            s <= cands.len(),
            seen.len() == s,
            forall|k: int| 0 <= k < s ==> !#[trigger] seen@[k],
        decreases cands.len() - s,
    {
        seen.push(false);
        s += 1;
    }
    let fi = match index_of(&cands, from) {
        Some(i) => i,
        None => {
            return not_found(from);
        },
    };
    seen.set(fi, true);
    let mut queue: Vec<(String, Vec<String>)> = Vec::new();
    let mut start: Vec<String> = Vec::new();
    start.push(crate::graph::copy_string(from));
    queue.push((crate::graph::copy_string(from), start));
    proof {
        let w = views(queue@[0].1@);
        assert(w =~= seq![from@]);
        assert(cv[fi as int] == from@ && seen@[fi as int]);
        assert(seen_id(cv, seen@, from@));
        assert(queue_ok(es, from@, cv, seen@, queue@));
    }
    let mut qh: usize = 0;
    proof {
        assert(layered(queue@));
        assert(unique_ids(queue@));
        assert forall|x: Seq<char>| #[trigger] seen_id(cv, seen@, x) implies exists|k: int|
            0 <= k < queue@.len() && #[trigger] qid(queue@, k) == x by {
            let k = choose|k: int| 0 <= k < cv.len() && cv[k] == x && #[trigger] seen@[k];
            if k != fi as int {
                assert(!seen@[k]);
            }
            assert(qid(queue@, 0) == from@);
        }
        assert(qid(queue@, 0) == from@ && qlen(queue@, 0) == 1);
    }
    while qh < queue.len()
        invariant
            qh <= queue.len(),
            es == graph@.edges,
            g == graph@,
            cv == views(cands@),
            crate::graph_diff::strictly_sorted(cv),
            seen.len() == cands.len(),
            has_node(g.nodes, from@),
            has_node(g.nodes, to@),
            forall|k: int| 0 <= k < es.len() ==> cv.contains(#[trigger] es[k].source_id) && cv.contains(es[k].target_id),
            queue_ok(es, from@, cv, seen@, queue@),
            queue.len() > 0,
            qid(queue@, 0) == from@,
            qlen(queue@, 0) == 1,
            layered(queue@),
            unique_ids(queue@),
            seen_queued(cv, seen@, queue@),
            closed_upto(es, queue@, qh as int, max_hops as nat),
            target_unreached(queue@, qh as int, to@, max_hops as nat),
            qh < queue.len() ==> qlen(queue@, queue.len() - 1) <= qlen(queue@, qh as int) + 1,
        decreases unset(seen@), queue.len() - qh,
    {
        let ghost c = qh as int;
        let ghost q0 = queue@;
        let cur = crate::graph::copy_string(&queue[qh].0);
        let path = crate::graph::copy_strings(&queue[qh].1);
        let ghost pv = views(path@);
        proof {
            assert(pv == views(queue@[qh as int].1@));
            assert(pv.len() == qlen(q0, c));
            assert(cur@ == qid(q0, c));
        }
        qh += 1;
        if path.len() > max_hops {
            proof {
                assert forall|k: int, y: Seq<char>|
                    0 <= k < qh && qlen(queue@, k) <= max_hops as nat && #[trigger] adjacent(es, qid(queue@, k), y) implies exists|k2: int|
                        0 <= k2 < queue@.len() && #[trigger] qid(queue@, k2) == y && qlen(queue@, k2) <= qlen(queue@, k) + 1 by {
                    assert(k < c);
                }
                if qh < queue.len() {
                    assert(qlen(q0, c) <= qlen(q0, qh as int));
                }
            }
            continue;
        }
        if crate::graph_diff::string_eq(&cur, to) {
            let nodes = walk_nodes_exec(graph, &path);
            proof {
                assert(simple_walk(es, from@, pv) && pv.last() == to@ && pv.len() <= max_hops);
                assert forall|w2: Seq<Seq<char>>| #[trigger] any_walk(es, from@, to@, w2) implies pv.len() <= w2.len() by {
                    if w2.len() < pv.len() {
                        let bound = (pv.len() - 1) as nat;
                        assert forall|k: int| 0 <= k < q0.len() && qlen(q0, k) <= bound implies k < c by {
                            if k >= c {
                                if k > c {
                                    assert(qlen(q0, c) <= qlen(q0, k));
                                }
                            }
                        }
                        lemma_reach(es, q0, c, max_hops as nat, bound, w2, w2.len() - 1);
                        let k = choose|k: int| 0 <= k < q0.len() && #[trigger] qid(q0, k) == w2[w2.len() - 1] && qlen(q0, k) <= w2.len();
                        assert(qid(q0, k) == qid(q0, c));
                    }
                }
            }
            return Ok(nodes);
        }
        let ghost unset_before = unset(seen@);
        let ghost qlen_before = queue.len();
        let mut j: usize = 0;
        while j < graph.edges.len()
            invariant
                j <= graph.edges.len(),
                qh <= qlen_before <= queue.len(),
                qlen_before == q0.len(),
                c + 1 == qh,
                es == graph@.edges,
                cv == views(cands@),
                crate::graph_diff::strictly_sorted(cv),
                seen.len() == cands.len(),
                forall|k: int| 0 <= k < es.len() ==> cv.contains(#[trigger] es[k].source_id) && cv.contains(es[k].target_id),
                queue_ok(es, from@, cv, seen@, queue@),
                simple_walk(es, from@, pv),
                pv == views(path@),
                cur@ == pv.last(),
                cur@ == qid(q0, c),
                pv.len() == qlen(q0, c),
                forall|t: int| 0 <= t < pv.len() ==> seen_id(cv, seen@, #[trigger] pv[t]),
                unset(seen@) + (queue.len() - qlen_before) <= unset_before,
                forall|k: int| 0 <= k < q0.len() ==> #[trigger] queue@[k] == q0[k],
                forall|k: int| 0 <= k < queue.len() ==> #[trigger] qlen(queue@, k) <= pv.len() + 1,
                layered(queue@),
                unique_ids(queue@),
                seen_queued(cv, seen@, queue@),
                forall|jj: int|
                    0 <= jj < j && #[trigger] step_of(es[jj], NeighborDir::Both, cur@) is Some ==> seen_id(
                        cv,
                        seen@,
                        step_of(es[jj], NeighborDir::Both, cur@)->0,
                    ),
            decreases graph.edges.len() - j,
        {
            let st = step_of_exec(&graph.edges[j], NeighborDir::Both, &cur);
            proof {
                assert(es[j as int] == graph.edges@[j as int]@);
            }
            match st {
                Some(nid) => {
                    proof {
                        lemma_step_end(es[j as int], NeighborDir::Both, cur@);
                    }
                    match index_of(&cands, &nid) {
                        Some(ix) => {
                            if !seen[ix] {
                                let ghost old_seen = seen@;
                                let ghost old_queue = queue@;
                                proof {
                                    lemma_unset_set(old_seen, ix as int);
                                }
                                seen.set(ix, true);
                                let mut np = crate::graph::copy_strings(&path);
                                let ghost npv0 = views(np@);
                                np.push(crate::graph::copy_string(&nid));
                                let ghost npv = views(np@);
                                proof {
                                    assert(npv =~= pv.push(nid@));
                                    assert forall|x: Seq<char>| seen_id(cv, old_seen, x) implies seen_id(cv, seen@, x) by {
                                        lemma_seen_grow(cv, old_seen, ix as int, x);
                                    }
                                    assert(seen_id(cv, seen@, nid@)) by {
                                        assert(cv[ix as int] == nid@ && seen@[ix as int]);
                                    }
                                    assert forall|t: int| 0 <= t < pv.len() implies pv[t] != nid@ by {
                                        if pv[t] == nid@ {
                                            assert(seen_id(cv, old_seen, nid@));
                                            let k = choose|k: int| 0 <= k < cv.len() && cv[k] == nid@ && #[trigger] old_seen[k];
                                            crate::graph_diff::lemma_sorted_unique(cv, k, ix as int);
                                        }
                                    }
                                    assert(walk_step(es, npv, pv.len() - 1)) by {
                                        assert(npv[pv.len() - 1] == cur@);
                                        assert(npv[pv.len() as int] == nid@);
                                        assert(step_of(es[j as int], NeighborDir::Both, cur@) == Some(nid@));
                                    }
                                    assert forall|t: int| 0 <= t < npv.len() - 1 implies #[trigger] walk_step(es, npv, t) by {
                                        if t < pv.len() - 1 {
                                            assert(walk_step(es, pv, t));
                                            assert(npv[t] == pv[t] && npv[t + 1] == pv[t + 1]);
                                        }
                                    }
                                    assert(simple_walk(es, from@, npv));
                                    // no queued entry has the new id yet
                                    assert forall|k: int| 0 <= k < old_queue.len() implies #[trigger] qid(old_queue, k) != nid@ by {
                                        let w = views(old_queue[k].1@);
                                        assert(qid(old_queue, k) == w.last());
                                        assert(seen_id(cv, old_seen, w[w.len() - 1]));
                                        if qid(old_queue, k) == nid@ {
                                            let k2 = choose|k2: int| 0 <= k2 < cv.len() && cv[k2] == nid@ && #[trigger] old_seen[k2];
                                            crate::graph_diff::lemma_sorted_unique(cv, k2, ix as int);
                                        }
                                    }
                                }
                                let ghost nidv = nid@;
                                queue.push((nid, np));
                                proof {
                                    let nq = queue@;
                                    assert(qid(nq, nq.len() - 1) == nidv);
                                    assert(qlen(nq, nq.len() - 1) == pv.len() + 1);
                                    assert forall|k: int| 0 <= k < queue@.len() implies {
                                        let w = views(#[trigger] queue@[k].1@);
                                        &&& simple_walk(es, from@, w)
                                        &&& queue@[k].0@ == w.last()
                                        &&& forall|t: int| 0 <= t < w.len() ==> seen_id(cv, seen@, #[trigger] w[t])
                                    } by {
                                        if k < old_queue.len() {
                                            assert(queue@[k] == old_queue[k]);
                                            let w = views(old_queue[k].1@);
                                            assert forall|t: int| 0 <= t < w.len() implies seen_id(cv, seen@, #[trigger] w[t]) by {
                                                lemma_seen_grow(cv, old_seen, ix as int, w[t]);
                                            }
                                        } else {
                                            assert(views(queue@[k].1@) == npv);
                                            assert forall|t: int| 0 <= t < npv.len() implies seen_id(cv, seen@, #[trigger] npv[t]) by {
                                                if t < pv.len() {
                                                    assert(npv[t] == pv[t]);
                                                    lemma_seen_grow(cv, old_seen, ix as int, pv[t]);
                                                }
                                            }
                                        }
                                    }
                                    assert forall|t: int| 0 <= t < pv.len() implies seen_id(cv, seen@, #[trigger] pv[t]) by {
                                        lemma_seen_grow(cv, old_seen, ix as int, pv[t]);
                                    }
                                    assert forall|k: int| 0 <= k < q0.len() implies #[trigger] queue@[k] == q0[k] by {
                                        assert(queue@[k] == old_queue[k]);
                                    }
                                    assert forall|k: int| 0 <= k < queue.len() implies #[trigger] qlen(queue@, k) <= pv.len() + 1 by {
                                        if k < old_queue.len() {
                                            assert(queue@[k] == old_queue[k]);
                                            assert(qlen(old_queue, k) <= pv.len() + 1);
                                        }
                                    }
                                    assert forall|a: int, b: int| 0 <= a < b < nq.len() implies #[trigger] qlen(nq, a) <= #[trigger] qlen(nq, b) by {
                                        assert(nq[a] == old_queue[a]);
                                        if b < old_queue.len() {
                                            assert(nq[b] == old_queue[b]);
                                            assert(qlen(old_queue, a) <= qlen(old_queue, b));
                                        } else {
                                            assert(qlen(old_queue, a) <= pv.len() + 1);
                                        }
                                    }
                                    assert forall|a: int, b: int|
                                        0 <= a < nq.len() && 0 <= b < nq.len() && #[trigger] qid(nq, a) == #[trigger] qid(nq, b) implies a == b by {
                                        if a < old_queue.len() && b < old_queue.len() {
                                            assert(nq[a] == old_queue[a] && nq[b] == old_queue[b]);
                                            assert(qid(old_queue, a) == qid(old_queue, b));
                                        } else if a < old_queue.len() {
                                            assert(nq[a] == old_queue[a]);
                                            assert(qid(old_queue, a) != nidv);
                                        } else if b < old_queue.len() {
                                            assert(nq[b] == old_queue[b]);
                                            assert(qid(old_queue, b) != nidv);
                                        }
                                    }
                                    assert forall|x: Seq<char>| #[trigger] seen_id(cv, seen@, x) implies exists|k: int|
                                        0 <= k < nq.len() && #[trigger] qid(nq, k) == x by {
                                        let k1 = choose|k1: int| 0 <= k1 < cv.len() && cv[k1] == x && #[trigger] seen@[k1];
                                        if k1 == ix as int {
                                            assert(qid(nq, nq.len() - 1) == x);
                                        } else {
                                            assert(old_seen[k1]);
                                            assert(seen_id(cv, old_seen, x));
                                            let k = choose|k: int| 0 <= k < old_queue.len() && #[trigger] qid(old_queue, k) == x;
                                            assert(nq[k] == old_queue[k]);
                                            assert(qid(nq, k) == x);
                                        }
                                    }
                                    assert forall|jj: int|
                                        0 <= jj < j + 1 && #[trigger] step_of(es[jj], NeighborDir::Both, cur@) is Some implies seen_id(
                                            cv,
                                            seen@,
                                            step_of(es[jj], NeighborDir::Both, cur@)->0,
                                        ) by {
                                        if jj < j {
                                            lemma_seen_grow(cv, old_seen, ix as int, step_of(es[jj], NeighborDir::Both, cur@)->0);
                                        }
                                    }
                                }
                            } else {
                                proof {
                                    assert(seen_id(cv, seen@, nid@)) by {
                                        assert(cv[ix as int] == nid@ && seen@[ix as int]);
                                    }
                                }
                            }
                        },
                        None => {
                            proof {
                                assert(false);
                            }
                        },
                    }
                },
                None => {},
            }
            j += 1;
        }
        proof {
            let nq = queue@;
            assert forall|k: int, y: Seq<char>|
                0 <= k < qh && qlen(nq, k) <= max_hops as nat && #[trigger] adjacent(es, qid(nq, k), y) implies exists|k2: int|
                    0 <= k2 < nq.len() && #[trigger] qid(nq, k2) == y && qlen(nq, k2) <= qlen(nq, k) + 1 by {
                assert(nq[k] == q0[k]);
                if k < c {
                    assert(adjacent(es, qid(q0, k), y));
                    let k2 = choose|k2: int| 0 <= k2 < q0.len() && #[trigger] qid(q0, k2) == y && qlen(q0, k2) <= qlen(q0, k) + 1;
                    assert(nq[k2] == q0[k2]);
                    assert(qid(nq, k2) == y);
                } else {
                    let jj = choose|jj: int| 0 <= jj < es.len() && step_of(#[trigger] es[jj], NeighborDir::Both, qid(nq, k)) == Some(y);
                    assert(step_of(es[jj], NeighborDir::Both, cur@) is Some);
                    assert(seen_id(cv, seen@, y));
                    let k2 = choose|k2: int| 0 <= k2 < nq.len() && #[trigger] qid(nq, k2) == y;
                    assert(qlen(nq, k2) <= pv.len() + 1);
                }
            }
            assert forall|k: int| 0 <= k < qh && qlen(nq, k) <= max_hops as nat implies #[trigger] qid(nq, k) != to@ by {
                assert(nq[k] == q0[k]);
                if k < c {
                    assert(qid(q0, k) != to@);
                }
            }
            assert(qid(nq, 0) == from@ && qlen(nq, 0) == 1) by {
                assert(nq[0] == q0[0]);
            }
            if qh < queue.len() {
                assert(qlen(nq, c) <= qlen(nq, qh as int));
                assert(nq[c] == q0[c]);
            }
        }
    }
    proof {
        let q = queue@;
        assert forall|w2: Seq<Seq<char>>| #[trigger] any_walk(es, from@, to@, w2) implies w2.len() > max_hops by {
            if w2.len() <= max_hops {
                lemma_reach(es, q, q.len() as int, max_hops as nat, max_hops as nat, w2, w2.len() - 1);
                let k = choose|k: int| 0 <= k < q.len() && #[trigger] qid(q, k) == w2[w2.len() - 1] && qlen(q, k) <= w2.len();
                assert(qid(q, k) != to@);
            }
        }
    }
    let mut m = chars_of("no path found from ");
    crate::text::append_str(&mut m, from.as_str());
    crate::text::append_str(&mut m, " to ");
    crate::text::append_str(&mut m, to.as_str());
    crate::text::append_str(&mut m, " (max ");
    let d = crate::text::decimal_usize(max_hops);
    append_chars(&mut m, d.as_slice());
    crate::text::append_str(&mut m, " hops)");
    assert(m@ =~= no_path_msg(from@, to@, max_hops));
    Err(string_of(m.as_slice()))
}

// ---------------------------------------------------------------------------
// Answers
// ---------------------------------------------------------------------------

/// The answer to a query.
pub enum KqlResponse {
    Nodes { nodes: Vec<Node>, total: usize },
    Edges { edges: Vec<Edge>, total: usize },
    Notes { notes: Vec<Note>, total: usize },
    Neighbors { nodes: Vec<Node>, distance: usize },
    Path { nodes: Vec<Node>, length: usize },
    Aggregate { groups: Vec<(String, usize)> },
}

/// What `query` answers for a graph and a query text.
pub open spec fn query_answer(g: GraphV, input: Seq<char>, r: Result<KqlResponse, String>) -> bool {
    match parse_query_spec(input) {
        Err(m) => r matches Err(e) && e@ == m,
        Ok(q) => match q {
            QueryV::Node { filters, limit, sort } => r matches Ok(KqlResponse::Nodes { nodes, total })
                && views(nodes@) == list_result::<Node>(g.nodes, filters, limit, sort) && total
                == select::<Node>(g.nodes, filters).len(),
            QueryV::Edge { filters, limit, sort } => r matches Ok(KqlResponse::Edges { edges, total })
                && views(edges@) == list_result::<Edge>(g.edges, filters, limit, sort) && total
                == select::<Edge>(g.edges, filters).len(),
            QueryV::Note { filters, limit, sort } => r matches Ok(KqlResponse::Notes { notes, total })
                && views(notes@) == list_result::<Note>(g.notes, filters, limit, sort) && total
                == select::<Note>(g.notes, filters).len(),
            QueryV::Neighbors { id, hops, dir, limit } => r matches Ok(
                KqlResponse::Neighbors { nodes, distance },
            ) && distance == hops && neighbors_result(g, id, hops, dir, limit, views(nodes@)),
            QueryV::Path { from, to, max_hops } => match r {
                Ok(KqlResponse::Path { nodes, length }) => length == max_hops && path_answer(
                    g,
                    from,
                    to,
                    max_hops,
                    Ok(views(nodes@)),
                ),
                Err(e) => path_answer(g, from, to, max_hops, Err(e@)),
                _ => false,
            },
            QueryV::Aggregate { kind, group_by } => match aggregate_spec(g, kind, group_by) {
                Ok(w) => r matches Ok(KqlResponse::Aggregate { groups }) && pairs_count_view(groups@)
                    == w,
                Err(m) => r matches Err(e) && e@ == m,
            },
        },
    }
}

/// Parses the query text and answers it over the graph.
pub fn query(graph: &GraphFile, input: &str) -> (r: Result<KqlResponse, String>)
    ensures
        query_answer(graph@, input@, r),
{
    let q = match parse_query(input) {
        Ok(q) => q,
        Err(e) => {
            return Err(e);
        },
    };
    match q {
        QueryKind::Node { filters, limit, sort } => {
            let (nodes, total) = list_query(&graph.nodes, &filters, limit, &sort);
            Ok(KqlResponse::Nodes { nodes, total })
        },
        QueryKind::Edge { filters, limit, sort } => {
            let (edges, total) = list_query(&graph.edges, &filters, limit, &sort);
            Ok(KqlResponse::Edges { edges, total })
        },
        QueryKind::Note { filters, limit, sort } => {
            let (notes, total) = list_query(&graph.notes, &filters, limit, &sort);
            Ok(KqlResponse::Notes { notes, total })
        },
        QueryKind::Neighbors { id, hops, dir, limit } => {
            let nodes = find_neighbors(graph, &id, hops, dir, limit);
            Ok(KqlResponse::Neighbors { nodes, distance: hops })
        },
        QueryKind::Path { from, to, max_hops } => {
            match find_path(graph, &from, &to, max_hops) {
                Ok(nodes) => Ok(KqlResponse::Path { nodes, length: max_hops }),
                Err(e) => Err(e),
            }
        },
        QueryKind::Aggregate { kind, group_by } => {
            match aggregate(graph, &kind, &group_by) {
                Ok(groups) => Ok(KqlResponse::Aggregate { groups }),
                Err(e) => Err(e),
            }
        },
    }
}

// ---------------------------------------------------------------------------
// The text of an answer
// ---------------------------------------------------------------------------

/// `# id | name [type]`.
pub open spec fn node_line(n: NodeV) -> Seq<char> {
    "# "@ + n.id + " | "@ + n.name + " ["@ + n.node_type + "]"@
}

/// `# id | name`.
pub open spec fn path_node_line(n: NodeV) -> Seq<char> {
    "# "@ + n.id + " | "@ + n.name
}

/// `- source relation target`.
pub open spec fn edge_line(e: EdgeV) -> Seq<char> {
    "- "@ + e.source_id + " "@ + e.relation + " "@ + e.target_id
}

/// `- id | node`.
pub open spec fn note_line(o: NoteV) -> Seq<char> {
    "- "@ + o.id + " | "@ + o.node_id
}

/// `- group: count`.
pub open spec fn group_line(g: (Seq<char>, nat)) -> Seq<char> {
    "- "@ + g.0 + ": "@ + crate::text::decimal(g.1)
}

/// The lines of an answer after the header.
pub open spec fn answer_lines(r: KqlResponse) -> Seq<Seq<char>> {
    match r {
        KqlResponse::Nodes { nodes, total } => seq!["nodes: "@ + crate::text::decimal(nodes.len() as nat) + " (total: "@
            + crate::text::decimal(total as nat) + ")"@] + views(nodes@).map_values(|n: NodeV| node_line(n)),
        KqlResponse::Edges { edges, total } => seq!["edges: "@ + crate::text::decimal(edges.len() as nat) + " (total: "@
            + crate::text::decimal(total as nat) + ")"@] + views(edges@).map_values(|e: EdgeV| edge_line(e)),
        KqlResponse::Notes { notes, total } => seq!["notes: "@ + crate::text::decimal(notes.len() as nat) + " (total: "@
            + crate::text::decimal(total as nat) + ")"@] + views(notes@).map_values(|o: NoteV| note_line(o)),
        KqlResponse::Neighbors { nodes, distance } => seq!["neighbors: "@ + crate::text::decimal(
            nodes.len() as nat,
        ) + " (max distance: "@ + crate::text::decimal(distance as nat) + ")"@] + views(nodes@).map_values(
            |n: NodeV| node_line(n),
        ),
        KqlResponse::Path { nodes, length } => seq!["path: "@ + crate::text::decimal(length as nat) + " hops"@]
            + views(nodes@).map_values(|n: NodeV| path_node_line(n)),
        KqlResponse::Aggregate { groups } => seq!["aggregate: "@ + crate::text::decimal(groups.len() as nat)
            + " groups"@] + pairs_count_view(groups@).map_values(|g: (Seq<char>, nat)| group_line(g)),
    }
}

/// The text of an answer: a header naming the query, then the answer's lines.
pub open spec fn render_text(input: Seq<char>, r: KqlResponse) -> Seq<char> {
    crate::text::join_with(seq!["= kql "@ + input] + answer_lines(r), '\n') + "\n"@
}

fn push_chars(out: &mut Vec<Vec<char>>, l: Vec<char>)
    ensures
        seqs_view(final(out)@) == seqs_view(old(out)@).push(l@),
{
    let ghost before = seqs_view(out@);
    out.push(l);
    assert(seqs_view(out@) =~= before.push(l@));
}

fn count_line(label: &str, n: usize, mid: &str, m: usize, tail: &str) -> (r: Vec<char>)
    ensures
        r@ == label@ + crate::text::decimal(n as nat) + mid@ + crate::text::decimal(m as nat) + tail@,
{
    let mut l = chars_of(label);
    let d = crate::text::decimal_usize(n);
    append_chars(&mut l, d.as_slice());
    append_str(&mut l, mid);
    let d2 = crate::text::decimal_usize(m);
    append_chars(&mut l, d2.as_slice());
    append_str(&mut l, tail);
    l
}

fn node_line_exec(n: &Node, with_type: bool) -> (r: Vec<char>)
    ensures
        r@ == if with_type {
            node_line(n@)
        } else {
            path_node_line(n@)
        },
{
    let mut l = chars_of("# ");
    append_str(&mut l, n.id.as_str());
    append_str(&mut l, " | ");
    append_str(&mut l, n.name.as_str());
    if with_type {
        append_str(&mut l, " [");
        append_str(&mut l, n.node_type.as_str());
        append_str(&mut l, "]");
    }
    l
}

fn push_node_lines(out: &mut Vec<Vec<char>>, nodes: &Vec<Node>, with_type: bool)
    ensures
        seqs_view(final(out)@) == seqs_view(old(out)@) + views(nodes@).map_values(
            |n: NodeV| if with_type {
                node_line(n)
            } else {
                path_node_line(n)
            },
        ),
{
    let ghost start = seqs_view(out@);
    let ghost want = views(nodes@).map_values(
        |n: NodeV| if with_type {
            node_line(n)
        } else {
            path_node_line(n)
        },
    );
    let mut i: usize = 0;
    assert(start + want.take(0) =~= start);
    while i < nodes.len()
        invariant
            i <= nodes.len(),
            want == views(nodes@).map_values(
                |n: NodeV| if with_type {
                    node_line(n)
                } else {
                    path_node_line(n)
                },
            ),
            seqs_view(out@) == start + want.take(i as int),
        decreases nodes.len() - i,
    {
        let l = node_line_exec(&nodes[i], with_type);
        push_chars(out, l);
        assert(want[i as int] == l@);
        assert(start + want.take(i + 1) =~= (start + want.take(i as int)).push(l@));
        i += 1;
    }
    assert(want.take(i as int) =~= want);
}

/// The text of the answer, or the error.
pub fn render_query(graph: &GraphFile, input: &str) -> (r: Result<String, String>)
    ensures
        match r {
            Ok(t) => exists|a: KqlResponse| query_answer(graph@, input@, Ok(a)) && t@ == render_text(input@, a),
            Err(e) => query_answer(graph@, input@, Err(e)),
        },
{
    let answered = query(graph, input);
    let response = match answered {
        Ok(a) => a,
        Err(e) => {
            return Err(e);
        },
    };
    let mut lines: Vec<Vec<char>> = Vec::new();
    let mut head = chars_of("= kql ");
    append_str(&mut head, input);
    push_chars(&mut lines, head);
    let ghost h = seqs_view(lines@);
    match &response {
        KqlResponse::Nodes { nodes, total } => {
            push_chars(&mut lines, count_line("nodes: ", nodes.len(), " (total: ", *total, ")"));
            push_node_lines(&mut lines, nodes, true);
        },
        KqlResponse::Edges { edges, total } => {
            push_chars(&mut lines, count_line("edges: ", edges.len(), " (total: ", *total, ")"));
            let ghost start = seqs_view(lines@);
            let ghost want = views(edges@).map_values(|e: EdgeV| edge_line(e));
            let mut i: usize = 0;
            assert(start + want.take(0) =~= start);
            while i < edges.len()
                invariant
                    i <= edges.len(),
                    want == views(edges@).map_values(|e: EdgeV| edge_line(e)),
                    seqs_view(lines@) == start + want.take(i as int),
                decreases edges.len() - i,
            {
                let e = &edges[i];
                let mut l = chars_of("- ");
                append_str(&mut l, e.source_id.as_str());
                append_str(&mut l, " ");
                append_str(&mut l, e.relation.as_str());
                append_str(&mut l, " ");
                append_str(&mut l, e.target_id.as_str());
                let ghost lv = l@;
                push_chars(&mut lines, l);
                assert(want[i as int] == lv);
                assert(start + want.take(i + 1) =~= (start + want.take(i as int)).push(lv));
                i += 1;
            }
            assert(want.take(i as int) =~= want);
        },
        KqlResponse::Notes { notes, total } => {
            push_chars(&mut lines, count_line("notes: ", notes.len(), " (total: ", *total, ")"));
            let ghost start = seqs_view(lines@);
            let ghost want = views(notes@).map_values(|o: NoteV| note_line(o));
            let mut i: usize = 0;
            assert(start + want.take(0) =~= start);
            while i < notes.len()
                invariant
                    i <= notes.len(),
                    want == views(notes@).map_values(|o: NoteV| note_line(o)),
                    seqs_view(lines@) == start + want.take(i as int),
                decreases notes.len() - i,
            {
                let o = &notes[i];
                let mut l = chars_of("- ");
                append_str(&mut l, o.id.as_str());
                append_str(&mut l, " | ");
                append_str(&mut l, o.node_id.as_str());
                let ghost lv = l@;
                push_chars(&mut lines, l);
                assert(want[i as int] == lv);
                assert(start + want.take(i + 1) =~= (start + want.take(i as int)).push(lv));
                i += 1;
            }
            assert(want.take(i as int) =~= want);
        },
        KqlResponse::Neighbors { nodes, distance } => {
            push_chars(
                &mut lines,
                count_line("neighbors: ", nodes.len(), " (max distance: ", *distance, ")"),
            );
            push_node_lines(&mut lines, nodes, true);
        },
        KqlResponse::Path { nodes, length } => {
            let mut l = chars_of("path: ");
            let d = crate::text::decimal_usize(*length);
            append_chars(&mut l, d.as_slice());
            append_str(&mut l, " hops");
            push_chars(&mut lines, l);
            push_node_lines(&mut lines, nodes, false);
        },
        KqlResponse::Aggregate { groups } => {
            let mut l = chars_of("aggregate: ");
            let d = crate::text::decimal_usize(groups.len());
            append_chars(&mut l, d.as_slice());
            append_str(&mut l, " groups");
            push_chars(&mut lines, l);
            let ghost start = seqs_view(lines@);
            let ghost want = pairs_count_view(groups@).map_values(|g: (Seq<char>, nat)| group_line(g));
            let mut i: usize = 0;
            assert(start + want.take(0) =~= start);
            while i < groups.len()
                invariant
                    i <= groups.len(),
                    want == pairs_count_view(groups@).map_values(|g: (Seq<char>, nat)| group_line(g)),
                    seqs_view(lines@) == start + want.take(i as int),
                decreases groups.len() - i,
            {
                let mut l = chars_of("- ");
                append_str(&mut l, groups[i].0.as_str());
                append_str(&mut l, ": ");
                let d = crate::text::decimal_usize(groups[i].1);
                append_chars(&mut l, d.as_slice());
                let ghost lv = l@;
                push_chars(&mut lines, l);
                assert(want[i as int] == lv);
                assert(start + want.take(i + 1) =~= (start + want.take(i as int)).push(lv));
                i += 1;
            }
            assert(want.take(i as int) =~= want);
        },
    }
    assert(seqs_view(lines@) =~= seq!["= kql "@ + input@] + answer_lines(response));
    let mut out = crate::text::join_chars(&lines, '\n');
    append_str(&mut out, "\n");
    assert(out@ == render_text(input@, response));
    assert(query_answer(graph@, input@, Ok(response)));
    Ok(string_of(out.as_slice()))
}

} // verus!
