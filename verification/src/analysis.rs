//! Quality reports on a graph: counts, nodes without descriptions or
//! facts, and data stores and processes that lack expected edges.
use vstd::prelude::*;
use crate::cli::{EdgeGapsArgs, MissingDescriptionsArgs, MissingFactsArgs, MissingFactsSort, StatsArgs};
use crate::graph::{copy_string, Edge, EdgeV, GraphFile, Node, NodeV};
use crate::sorting::{KeyOrder, sorted_seq, stable_sort, views};
use crate::text::{
    append_chars, append_str, chars_of, decimal, decimal_usize, join_chars, join_with,
    lex_order, lex_order_chars, seqs_view, str_eq, string_of, trim, trim_chars,
};

verus! {

broadcast use vstd::string::group_string_axioms;

// ---------------------------------------------------------------------------
// Selecting nodes
// ---------------------------------------------------------------------------

/// Whether a report looks at a node: features only when asked for, and
/// only the listed types when some are listed.
pub open spec fn node_kept(n: NodeV, types: Seq<Seq<char>>, include_features: bool) -> bool {
    &&& (include_features || n.node_type != "Feature"@)
    &&& (types.len() == 0 || types.contains(n.node_type))
}

/// The nodes a report looks at, in graph order.
pub open spec fn kept_nodes(ns: Seq<NodeV>, types: Seq<Seq<char>>, include_features: bool) -> Seq<
    NodeV,
>
    decreases ns.len(),
{
    if ns.len() == 0 {
        Seq::empty()
    } else if node_kept(ns.last(), types, include_features) {
        kept_nodes(ns.drop_last(), types, include_features).push(ns.last())
    } else {
        kept_nodes(ns.drop_last(), types, include_features)
    }
}

/// The views of a sequence of node references.
pub open spec fn node_refs_view(s: Seq<&Node>) -> Seq<NodeV> {
    s.map_values(|n: &Node| n@)
}

fn contains_text_exec(list: &Vec<String>, s: &String) -> (r: bool)
    ensures
        r == views(list@).contains(s@),
{
    let mut i: usize = 0;
    while i < list.len()
        invariant
            i <= list.len(),
            forall|j: int| 0 <= j < i ==> views(list@)[j] != s@,
        decreases list.len() - i,
    {
        if str_eq(list[i].as_str(), s.as_str()) {
            assert(views(list@)[i as int] == s@);
            return true;
        }
        i += 1;
    }
    proof {
        if views(list@).contains(s@) {
            let k = choose|k: int| 0 <= k < views(list@).len() && views(list@)[k] == s@;
            assert(views(list@)[k] != s@);
        }
    }
    false
}

fn node_kept_exec(n: &Node, types: &Vec<String>, include_features: bool) -> (r: bool)
    ensures
        r == node_kept(n@, views(types@), include_features),
{
    if !include_features && str_eq(n.node_type.as_str(), "Feature") {
        return false;
    }
    types.len() == 0 || contains_text_exec(types, &n.node_type)
}

/// The nodes a report looks at: without features unless
/// `include_features`, and of the listed types when some are listed.
pub fn filtered_nodes<'a>(graph: &'a GraphFile, node_types: &Vec<String>, include_features: bool) -> (r:
    Vec<&'a Node>)
    ensures
        node_refs_view(r@) == kept_nodes(views(graph.nodes@), views(node_types@), include_features),
{
    let ghost ns = views(graph.nodes@);
    let mut out: Vec<&'a Node> = Vec::new();
    let mut i: usize = 0;
    while i < graph.nodes.len()
        invariant
            i <= graph.nodes.len(),
            ns == views(graph.nodes@),
            node_refs_view(out@) == kept_nodes(ns.take(i as int), views(node_types@), include_features),
        decreases graph.nodes.len() - i,
    {
        proof {
            assert(ns.take(i + 1).drop_last() =~= ns.take(i as int));
            assert(ns.take(i + 1).last() == graph.nodes@[i as int]@);
        }
        let n = &graph.nodes[i];
        if node_kept_exec(n, node_types, include_features) {
            let ghost before = node_refs_view(out@);
            out.push(n);
            assert(node_refs_view(out@) =~= before.push(n@));
        }
        i += 1;
    }
    assert(ns.take(graph.nodes.len() as int) =~= ns);
    out
}

/// The report text of some lines: each line followed by a newline.
pub open spec fn report(lines: Seq<Seq<char>>) -> Seq<char> {
    join_with(lines, '\n') + seq!['\n']
}

fn report_exec(lines: &Vec<Vec<char>>) -> (r: String)
    ensures
        r@ == report(seqs_view(lines@)),
{
    let mut j = join_chars(lines, '\n');
    j.push('\n');
    assert(j@ =~= join_with(seqs_view(lines@), '\n') + seq!['\n']);
    string_of(j.as_slice())
}

fn lit(s: &str) -> (r: Vec<char>)
    ensures
        r@ == s@,
{
    chars_of(s)
}

fn push_line(lines: &mut Vec<Vec<char>>, line: Vec<char>)
    ensures
        seqs_view(final(lines)@) == seqs_view(old(lines)@).push(line@),
{
    lines.push(line);
    assert(seqs_view(lines@) =~= seqs_view(old(lines)@).push(line@));
}

/// `<a><b>` as a line.
fn cat(a: &str, b: &[char]) -> (r: Vec<char>)
    ensures
        r@ == a@ + b@,
{
    let mut out = chars_of(a);
    append_chars(&mut out, b);
    out
}

// ---------------------------------------------------------------------------
// Missing descriptions
// ---------------------------------------------------------------------------

/// A listed node: its type, id and name.
pub struct NodeRow(pub String, pub String, pub String);

impl View for NodeRow {
    type V = (Seq<char>, Seq<char>, Seq<char>);

    open spec fn view(&self) -> (Seq<char>, Seq<char>, Seq<char>) {
        (self.0@, self.1@, self.2@)
    }
}

/// Rows ordered by type, then by id.
impl KeyOrder for NodeRow {
    open spec fn spec_after(a: (Seq<char>, Seq<char>, Seq<char>), b: (Seq<char>, Seq<char>, Seq<char>)) -> bool {
        lex_order(a.0, b.0) > 0 || (lex_order(a.0, b.0) == 0 && lex_order(a.1, b.1) > 0)
    }

    fn after(&self, other: &Self) -> (r: bool) {
        let a0 = chars_of(self.0.as_str());
        let b0 = chars_of(other.0.as_str());
        let c = lex_order_chars(a0.as_slice(), b0.as_slice());
        if c != 0 {
            return c > 0;
        }
        let a1 = chars_of(self.1.as_str());
        let b1 = chars_of(other.1.as_str());
        lex_order_chars(a1.as_slice(), b1.as_slice()) > 0
    }
}

/// The row of a node.
pub open spec fn node_row(n: NodeV) -> (Seq<char>, Seq<char>, Seq<char>) {
    (n.node_type, n.id, n.name)
}

/// The rows of the nodes whose description is blank.
pub open spec fn blank_description_rows(ns: Seq<NodeV>) -> Seq<(Seq<char>, Seq<char>, Seq<char>)>
    decreases ns.len(),
{
    if ns.len() == 0 {
        Seq::empty()
    } else if trim(ns.last().props.description).len() == 0 {
        blank_description_rows(ns.drop_last()).push(node_row(ns.last()))
    } else {
        blank_description_rows(ns.drop_last())
    }
}

/// The first `n` items of a sequence (all of them when there are fewer).
pub open spec fn first_n<A>(s: Seq<A>, n: nat) -> Seq<A> {
    if s.len() <= n {
        s
    } else {
        s.take(n as int)
    }
}

/// `- <type> | <id> | <name>`.
pub open spec fn row_line(r: (Seq<char>, Seq<char>, Seq<char>)) -> Seq<char> {
    "- "@ + r.0 + " | "@ + r.1 + " | "@ + r.2
}

/// The lines of the missing-descriptions report: a header with the number
/// of selected nodes whose description is blank, then the first `limit` of
/// them ordered by type and id.
pub open spec fn missing_descriptions_lines(g: Seq<NodeV>, types: Seq<Seq<char>>, include_features: bool, limit: nat) -> Seq<Seq<char>> {
    let rows = sorted_seq::<NodeRow>(blank_description_rows(kept_nodes(g, types, include_features)));
    seq!["= missing-descriptions ("@ + decimal(rows.len()) + ")"@] + first_n(rows, limit).map_values(
        |r: (Seq<char>, Seq<char>, Seq<char>)| row_line(r),
    )
}

fn row_line_exec(r: &NodeRow) -> (out: Vec<char>)
    ensures
        out@ == row_line(r@),
{
    let mut out = lit("- ");
    append_str(&mut out, r.0.as_str());
    append_str(&mut out, " | ");
    append_str(&mut out, r.1.as_str());
    append_str(&mut out, " | ");
    append_str(&mut out, r.2.as_str());
    out
}

/// Lists the selected nodes whose description is blank, ordered by type
/// and id, at most `limit` of them after a header with their number.
pub fn render_missing_descriptions(graph: &GraphFile, args: &MissingDescriptionsArgs) -> (r: String)
    ensures
        r@ == report(
            missing_descriptions_lines(
                views(graph.nodes@),
                views(args.node_types@),
                args.include_features,
                args.limit as nat,
            ),
        ),
{
    let nodes = filtered_nodes(graph, &args.node_types, args.include_features);
    let ghost kv = node_refs_view(nodes@);
    let mut rows: Vec<NodeRow> = Vec::new();
    let mut i: usize = 0;
    while i < nodes.len()
        invariant
            i <= nodes.len(),
            kv == node_refs_view(nodes@),
            views(rows@) == blank_description_rows(kv.take(i as int)),
        decreases nodes.len() - i,
    {
        let n = nodes[i];
        proof {
            assert(kv.take(i + 1).drop_last() =~= kv.take(i as int));
            assert(kv.take(i + 1).last() == n@);
        }
        let d = trim_chars(chars_of(n.properties.description.as_str()).as_slice());
        if d.len() == 0 {
            let ghost before = views(rows@);
            let row = NodeRow(copy_string(&n.node_type), copy_string(&n.id), copy_string(&n.name));
            rows.push(row);
            assert(views(rows@) =~= before.push(node_row(n@)));
        }
        i += 1;
    }
    assert(kv.take(nodes.len() as int) =~= kv);
    let sorted = stable_sort(rows);
    let ghost sv = views(sorted@);
    let mut lines: Vec<Vec<char>> = Vec::new();
    let count = decimal_usize(sorted.len());
    let mut head = cat("= missing-descriptions (", count.as_slice());
    append_str(&mut head, ")");
    push_line(&mut lines, head);
    let shown: usize = if sorted.len() <= args.limit { sorted.len() } else { args.limit };
    let mut k: usize = 0;
    while k < shown
        invariant
            k <= shown <= sorted.len(),
            sv == views(sorted@),
            seqs_view(lines@) == seq![seqs_view(lines@)[0]] + sv.take(k as int).map_values(
                |r: (Seq<char>, Seq<char>, Seq<char>)| row_line(r),
            ),
            seqs_view(lines@)[0] == "= missing-descriptions ("@ + decimal(sv.len()) + ")"@,
        decreases shown - k,
    {
        let ghost before = seqs_view(lines@);
        let line = row_line_exec(&sorted[k]);
        push_line(&mut lines, line);
        assert(sv.take(k + 1).map_values(|r: (Seq<char>, Seq<char>, Seq<char>)| row_line(r))
            =~= sv.take(k as int).map_values(|r: (Seq<char>, Seq<char>, Seq<char>)| row_line(r)).push(
            row_line(sv[k as int]),
        ));
        assert(seqs_view(lines@) =~= seq![seqs_view(lines@)[0]] + sv.take(k + 1).map_values(
            |r: (Seq<char>, Seq<char>, Seq<char>)| row_line(r),
        ));
        k += 1;
    }
    assert(sv.take(shown as int) =~= first_n(sv, args.limit as nat));
    report_exec(&lines)
}

// ---------------------------------------------------------------------------
// Missing facts
// ---------------------------------------------------------------------------

/// How many edge ends (sources and targets) are the node `id`.
pub open spec fn endpoint_count(es: Seq<EdgeV>, id: Seq<char>) -> nat
    decreases es.len(),
{
    if es.len() == 0 {
        0
    } else {
        endpoint_count(es.drop_last(), id) + (if es.last().source_id == id {
            1nat
        } else {
            0nat
        }) + (if es.last().target_id == id {
            1nat
        } else {
            0nat
        })
    }
}

fn endpoint_count_exec(edges: &Vec<Edge>, id: &String) -> (r: usize)
    requires
        2 * edges.len() <= usize::MAX,
    ensures
        r == endpoint_count(views(edges@), id@),
{
    let ghost es = views(edges@);
    let mut c: usize = 0;
    let mut i: usize = 0;
    while i < edges.len()
        invariant
            i <= edges.len(),
            2 * edges.len() <= usize::MAX,
            es == views(edges@),
            c == endpoint_count(es.take(i as int), id@),
            c <= 2 * i,
        decreases edges.len() - i,
    {
        proof {
            assert(es.take(i + 1).drop_last() =~= es.take(i as int));
            assert(es.take(i + 1).last() == edges@[i as int]@);
        }
        if str_eq(edges[i].source_id.as_str(), id.as_str()) {
            c += 1;
        }
        if str_eq(edges[i].target_id.as_str(), id.as_str()) {
            c += 1;
        }
        i += 1;
    }
    assert(es.take(edges.len() as int) =~= es);
    c
}

/// The ends of the edges, source then target of each, in graph order.
pub open spec fn endpoint_ids(es: Seq<EdgeV>) -> Seq<Seq<char>>
    decreases es.len(),
{
    if es.len() == 0 {
        Seq::empty()
    } else {
        endpoint_ids(es.drop_last()).push(es.last().source_id).push(es.last().target_id)
    }
}

/// The number of edge ends at each node id that has any, in order of first
/// appearance.
pub fn edge_counts(graph: &GraphFile) -> (r: Vec<(String, usize)>)
    ensures
        crate::kql::pairs_count_view(r@) == crate::kql::group_counts(endpoint_ids(views(graph.edges@))),
{
    let ghost es = views(graph.edges@);
    let mut ends: Vec<String> = Vec::new();
    let mut i: usize = 0;
    while i < graph.edges.len()
        invariant
            i <= graph.edges.len(),
            es == views(graph.edges@),
            views(ends@) == endpoint_ids(es.take(i as int)),
        decreases graph.edges.len() - i,
    {
        proof {
            assert(es.take(i + 1).drop_last() =~= es.take(i as int));
            assert(es.take(i + 1).last() == graph.edges@[i as int]@);
        }
        let ghost before = views(ends@);
        ends.push(copy_string(&graph.edges[i].source_id));
        ends.push(copy_string(&graph.edges[i].target_id));
        assert(views(ends@) =~= before.push(graph.edges@[i as int].source_id@).push(
            graph.edges@[i as int].target_id@,
        ));
        i += 1;
    }
    assert(es.take(graph.edges.len() as int) =~= es);
    let t = crate::kql::tally(&ends);
    crate::kql::group_pairs(t)
}

/// A node without facts: its type, id, name and number of edge ends.
pub struct FactRow(pub String, pub String, pub String, pub usize);

/// The same rows, ordered by id.
pub struct FactRowById(pub String, pub String, pub String, pub usize);

impl View for FactRow {
    type V = (Seq<char>, Seq<char>, Seq<char>, nat);

    open spec fn view(&self) -> (Seq<char>, Seq<char>, Seq<char>, nat) {
        (self.0@, self.1@, self.2@, self.3 as nat)
    }
}

impl View for FactRowById {
    type V = (Seq<char>, Seq<char>, Seq<char>, nat);

    open spec fn view(&self) -> (Seq<char>, Seq<char>, Seq<char>, nat) {
        (self.0@, self.1@, self.2@, self.3 as nat)
    }
}

/// Most edge ends first, then by id.
impl KeyOrder for FactRow {
    open spec fn spec_after(a: (Seq<char>, Seq<char>, Seq<char>, nat), b: (Seq<char>, Seq<char>, Seq<char>, nat)) -> bool {
        a.3 < b.3 || (a.3 == b.3 && lex_order(a.1, b.1) > 0)
    }

    fn after(&self, other: &Self) -> (r: bool) {
        if self.3 != other.3 {
            return self.3 < other.3;
        }
        let a = chars_of(self.1.as_str());
        let b = chars_of(other.1.as_str());
        lex_order_chars(a.as_slice(), b.as_slice()) > 0
    }
}

/// By id.
impl KeyOrder for FactRowById {
    open spec fn spec_after(a: (Seq<char>, Seq<char>, Seq<char>, nat), b: (Seq<char>, Seq<char>, Seq<char>, nat)) -> bool {
        lex_order(a.1, b.1) > 0
    }

    fn after(&self, other: &Self) -> (r: bool) {
        let a = chars_of(self.1.as_str());
        let b = chars_of(other.1.as_str());
        lex_order_chars(a.as_slice(), b.as_slice()) > 0
    }
}

/// The rows of the selected nodes that have no key facts.
pub open spec fn no_fact_rows(ns: Seq<NodeV>, es: Seq<EdgeV>) -> Seq<(Seq<char>, Seq<char>, Seq<char>, nat)>
    decreases ns.len(),
{
    if ns.len() == 0 {
        Seq::empty()
    } else if ns.last().props.key_facts.len() == 0 {
        let n = ns.last();
        no_fact_rows(ns.drop_last(), es).push((n.node_type, n.id, n.name, endpoint_count(es, n.id)))
    } else {
        no_fact_rows(ns.drop_last(), es)
    }
}

/// `- <type> | <id> | <name> | edges:<count>`.
pub open spec fn fact_row_line(r: (Seq<char>, Seq<char>, Seq<char>, nat)) -> Seq<char> {
    "- "@ + r.0 + " | "@ + r.1 + " | "@ + r.2 + " | edges:"@ + decimal(r.3)
}

/// The rows of the missing-facts report in its order.
pub open spec fn fact_rows_sorted(rows: Seq<(Seq<char>, Seq<char>, Seq<char>, nat)>, sort: MissingFactsSort) -> Seq<
    (Seq<char>, Seq<char>, Seq<char>, nat),
> {
    match sort {
        MissingFactsSort::Edges => sorted_seq::<FactRow>(rows),
        MissingFactsSort::Id => sorted_seq::<FactRowById>(rows),
    }
}

/// The lines of the missing-facts report: a header with the number of
/// selected nodes without key facts, then the first `limit` of them, most
/// connected first (ties by id) or by id.
pub open spec fn missing_facts_lines(
    ns: Seq<NodeV>,
    es: Seq<EdgeV>,
    types: Seq<Seq<char>>,
    include_features: bool,
    sort: MissingFactsSort,
    limit: nat,
) -> Seq<Seq<char>> {
    let rows = fact_rows_sorted(no_fact_rows(kept_nodes(ns, types, include_features), es), sort);
    seq!["= missing-facts ("@ + decimal(rows.len()) + ")"@] + first_n(rows, limit).map_values(
        |r: (Seq<char>, Seq<char>, Seq<char>, nat)| fact_row_line(r),
    )
}

fn fact_row_line_exec(t: &String, id: &String, name: &String, c: usize) -> (out: Vec<char>)
    ensures
        out@ == fact_row_line((t@, id@, name@, c as nat)),
{
    let mut out = lit("- ");
    append_str(&mut out, t.as_str());
    append_str(&mut out, " | ");
    append_str(&mut out, id.as_str());
    append_str(&mut out, " | ");
    append_str(&mut out, name.as_str());
    append_str(&mut out, " | edges:");
    let d = decimal_usize(c);
    append_chars(&mut out, d.as_slice());
    out
}

/// Building and reading a row of the missing-facts report.
pub trait FactRowOf: KeyOrder + View<V = (Seq<char>, Seq<char>, Seq<char>, nat)> {
    fn make(t: String, id: String, name: String, c: usize) -> (r: Self)
        ensures
            r@ == (t@, id@, name@, c as nat),
    ;

    fn line(&self) -> (r: Vec<char>)
        ensures
            r@ == fact_row_line(self@),
    ;
}

impl FactRowOf for FactRow {
    fn make(t: String, id: String, name: String, c: usize) -> (r: Self) {
        FactRow(t, id, name, c)
    }

    fn line(&self) -> (r: Vec<char>) {
        fact_row_line_exec(&self.0, &self.1, &self.2, self.3)
    }
}

impl FactRowOf for FactRowById {
    fn make(t: String, id: String, name: String, c: usize) -> (r: Self) {
        FactRowById(t, id, name, c)
    }

    fn line(&self) -> (r: Vec<char>) {
        fact_row_line_exec(&self.0, &self.1, &self.2, self.3)
    }
}

/// The lines of the missing-facts report with rows ordered by `T`.
fn fact_report<T: FactRowOf>(graph: &GraphFile, args: &MissingFactsArgs) -> (r: Vec<Vec<char>>)
    requires
        2 * graph.edges.len() <= usize::MAX,
    ensures
        ({
            let rows = sorted_seq::<T>(
                no_fact_rows(
                    kept_nodes(views(graph.nodes@), views(args.node_types@), args.include_features),
                    views(graph.edges@),
                ),
            );
            seqs_view(r@) == seq!["= missing-facts ("@ + decimal(rows.len()) + ")"@] + first_n(
                rows,
                args.limit as nat,
            ).map_values(|x: (Seq<char>, Seq<char>, Seq<char>, nat)| fact_row_line(x))
        }),
{
    let nodes = filtered_nodes(graph, &args.node_types, args.include_features);
    let ghost kv = node_refs_view(nodes@);
    let ghost es = views(graph.edges@);
    let mut rows: Vec<T> = Vec::new();
    let mut i: usize = 0;
    while i < nodes.len()
        invariant
            i <= nodes.len(),
            2 * graph.edges.len() <= usize::MAX,
            kv == node_refs_view(nodes@),
            es == views(graph.edges@),
            views(rows@) == no_fact_rows(kv.take(i as int), es),
        decreases nodes.len() - i,
    {
        let n = nodes[i];
        proof {
            assert(kv.take(i + 1).drop_last() =~= kv.take(i as int));
            assert(kv.take(i + 1).last() == n@);
        }
        if n.properties.key_facts.len() == 0 {
            let c = endpoint_count_exec(&graph.edges, &n.id);
            let ghost before = views(rows@);
            let row = T::make(copy_string(&n.node_type), copy_string(&n.id), copy_string(&n.name), c);
            rows.push(row);
            assert(views(rows@) =~= before.push((n@.node_type, n@.id, n@.name, c as nat)));
        }
        i += 1;
    }
    assert(kv.take(nodes.len() as int) =~= kv);
    let sorted = stable_sort(rows);
    let ghost sv = views(sorted@);
    let mut lines: Vec<Vec<char>> = Vec::new();
    let count = decimal_usize(sorted.len());
    let mut head = cat("= missing-facts (", count.as_slice());
    append_str(&mut head, ")");
    push_line(&mut lines, head);
    let shown: usize = if sorted.len() <= args.limit { sorted.len() } else { args.limit };
    let mut k: usize = 0;
    while k < shown
        invariant
            k <= shown <= sorted.len(),
            sv == views(sorted@),
            seqs_view(lines@) == seq![seqs_view(lines@)[0]] + sv.take(k as int).map_values(
                |x: (Seq<char>, Seq<char>, Seq<char>, nat)| fact_row_line(x),
            ),
            seqs_view(lines@)[0] == "= missing-facts ("@ + decimal(sv.len()) + ")"@,
        decreases shown - k,
    {
        let line = sorted[k].line();
        push_line(&mut lines, line);
        assert(sv.take(k + 1).map_values(|x: (Seq<char>, Seq<char>, Seq<char>, nat)| fact_row_line(x))
            =~= sv.take(k as int).map_values(|x: (Seq<char>, Seq<char>, Seq<char>, nat)| fact_row_line(x)).push(
            fact_row_line(sv[k as int]),
        ));
        assert(seqs_view(lines@) =~= seq![seqs_view(lines@)[0]] + sv.take(k + 1).map_values(
            |x: (Seq<char>, Seq<char>, Seq<char>, nat)| fact_row_line(x),
        ));
        k += 1;
    }
    assert(sv.take(shown as int) =~= first_n(sv, args.limit as nat));
    lines
}

/// Lists the selected nodes without key facts with their number of edge
/// ends, most connected first (ties by id) or by id, at most `limit` of
/// them after a header with their number.
pub fn render_missing_facts(graph: &GraphFile, args: &MissingFactsArgs) -> (r: String)
    requires
        2 * graph.edges.len() <= usize::MAX,
    ensures
        r@ == report(
            missing_facts_lines(
                views(graph.nodes@),
                views(graph.edges@),
                views(args.node_types@),
                args.include_features,
                args.sort,
                args.limit as nat,
            ),
        ),
{
    let lines = match args.sort {
        MissingFactsSort::Edges => fact_report::<FactRow>(graph, args),
        MissingFactsSort::Id => fact_report::<FactRowById>(graph, args),
    };
    report_exec(&lines)
}

// ---------------------------------------------------------------------------
// Edge gaps
// ---------------------------------------------------------------------------

/// Whether some edge ends at `id` with a relation that `rel` accepts:
/// `Some(r)` accepts `r` only, `None` any relation.
pub open spec fn has_incoming(es: Seq<EdgeV>, id: Seq<char>, rel: Option<Seq<char>>) -> bool {
    exists|i: int|
        0 <= i < es.len() && (#[trigger] es[i]).target_id == id && match rel {
            Some(r) => es[i].relation == r,
            None => true,
        }
}

/// A node listed by the edge-gaps report: its id and name.
pub struct GapRow(pub String, pub String);

impl View for GapRow {
    type V = (Seq<char>, Seq<char>);

    open spec fn view(&self) -> (Seq<char>, Seq<char>) {
        (self.0@, self.1@)
    }
}

/// Ordered by id, then by name.
impl KeyOrder for GapRow {
    open spec fn spec_after(a: (Seq<char>, Seq<char>), b: (Seq<char>, Seq<char>)) -> bool {
        lex_order(a.0, b.0) > 0 || (lex_order(a.0, b.0) == 0 && lex_order(a.1, b.1) > 0)
    }

    fn after(&self, other: &Self) -> (r: bool) {
        let a0 = chars_of(self.0.as_str());
        let b0 = chars_of(other.0.as_str());
        let c = lex_order_chars(a0.as_slice(), b0.as_slice());
        if c != 0 {
            return c > 0;
        }
        let a1 = chars_of(self.1.as_str());
        let b1 = chars_of(other.1.as_str());
        lex_order_chars(a1.as_slice(), b1.as_slice()) > 0
    }
}

/// The rows of the nodes of type `t` that lack an incoming edge `rel`
/// accepts.
pub open spec fn gap_rows(ns: Seq<NodeV>, es: Seq<EdgeV>, t: Seq<char>, rel: Option<Seq<char>>) -> Seq<
    (Seq<char>, Seq<char>),
>
    decreases ns.len(),
{
    if ns.len() == 0 {
        Seq::empty()
    } else {
        let n = ns.last();
        if n.node_type == t && !has_incoming(es, n.id, rel) {
            gap_rows(ns.drop_last(), es, t, rel).push((n.id, n.name))
        } else {
            gap_rows(ns.drop_last(), es, t, rel)
        }
    }
}

/// `- <type> | <id> | <name>`.
pub open spec fn gap_line(t: Seq<char>, r: (Seq<char>, Seq<char>)) -> Seq<char> {
    "- "@ + t + " | "@ + r.0 + " | "@ + r.1
}

/// The lines listing the first `limit` rows.
pub open spec fn gap_lines(t: Seq<char>, rows: Seq<(Seq<char>, Seq<char>)>, limit: nat) -> Seq<Seq<char>> {
    first_n(rows, limit).map_values(|r: (Seq<char>, Seq<char>)| gap_line(t, r))
}

/// The lines of the edge-gaps report: data stores with no incoming edge of
/// the given relation (`STORED_IN` unless one is given), then processes
/// with no incoming edge (of the given relation, when one is given); each
/// list ordered by id and name, headed by its size and cut at `limit`.
pub open spec fn edge_gaps_lines(ns: Seq<NodeV>, es: Seq<EdgeV>, types: Seq<Seq<char>>, relation: Option<Seq<char>>, limit: nat) -> Seq<Seq<char>> {
    let kept = kept_nodes(ns, types, true);
    let stored = match relation {
        Some(r) => r,
        None => "STORED_IN"@,
    };
    let ds = sorted_seq::<GapRow>(gap_rows(kept, es, "DataStore"@, Some(stored)));
    let ps = sorted_seq::<GapRow>(gap_rows(kept, es, "Process"@, relation));
    seq!["= edge-gaps"@, "datastore-missing-stored-in: "@ + decimal(ds.len())] + gap_lines(
        "DataStore"@,
        ds,
        limit,
    ) + seq!["process-missing-incoming: "@ + decimal(ps.len())] + gap_lines("Process"@, ps, limit)
}

fn has_incoming_exec(edges: &Vec<Edge>, id: &String, rel: &Option<String>) -> (r: bool)
    ensures
        r == has_incoming(
            views(edges@),
            id@,
            match rel {
                Some(x) => Some(x@),
                None => None,
            },
        ),
{
    let ghost es = views(edges@);
    let ghost rv = match rel {
        Some(x) => Some(x@),
        None => None::<Seq<char>>,
    };
    let mut i: usize = 0;
    while i < edges.len()
        invariant
            i <= edges.len(),
            es == views(edges@),
            rv == match rel {
                Some(x) => Some(x@),
                None => None::<Seq<char>>,
            },
            forall|j: int|
                0 <= j < i ==> !((#[trigger] es[j]).target_id == id@ && match rv {
                    Some(r) => es[j].relation == r,
                    None => true,
                }),
        decreases edges.len() - i,
    {
        let e = &edges[i];
        assert(es[i as int] == e@);
        if str_eq(e.target_id.as_str(), id.as_str()) {
            let ok = match rel {
                Some(r) => str_eq(e.relation.as_str(), r.as_str()),
                None => true,
            };
            if ok {
                return true;
            }
        }
        i += 1;
    }
    false
}

fn gap_rows_exec(nodes: &Vec<&Node>, edges: &Vec<Edge>, t: &str, rel: &Option<String>) -> (r: Vec<GapRow>)
    ensures
        views(r@) == gap_rows(
            node_refs_view(nodes@),
            views(edges@),
            t@,
            match rel {
                Some(x) => Some(x@),
                None => None,
            },
        ),
{
    let ghost kv = node_refs_view(nodes@);
    let ghost rv = match rel {
        Some(x) => Some(x@),
        None => None::<Seq<char>>,
    };
    let mut rows: Vec<GapRow> = Vec::new();
    let mut i: usize = 0;
    while i < nodes.len()
        invariant
            i <= nodes.len(),
            kv == node_refs_view(nodes@),
            rv == match rel {
                Some(x) => Some(x@),
                None => None::<Seq<char>>,
            },
            views(rows@) == gap_rows(kv.take(i as int), views(edges@), t@, rv),
        decreases nodes.len() - i,
    {
        let n = nodes[i];
        proof {
            assert(kv.take(i + 1).drop_last() =~= kv.take(i as int));
            assert(kv.take(i + 1).last() == n@);
        }
        if str_eq(n.node_type.as_str(), t) && !has_incoming_exec(edges, &n.id, rel) {
            let ghost before = views(rows@);
            rows.push(GapRow(copy_string(&n.id), copy_string(&n.name)));
            assert(views(rows@) =~= before.push((n@.id, n@.name)));
        }
        i += 1;
    }
    assert(kv.take(nodes.len() as int) =~= kv);
    rows
}

fn push_gap_lines(lines: &mut Vec<Vec<char>>, t: &str, rows: &Vec<GapRow>, limit: usize)
    ensures
        seqs_view(final(lines)@) == seqs_view(old(lines)@) + gap_lines(t@, views(rows@), limit as nat),
{
    let ghost start = seqs_view(lines@);
    let ghost rv = views(rows@);
    let shown: usize = if rows.len() <= limit { rows.len() } else { limit };
    let mut k: usize = 0;
    while k < shown
        invariant
            k <= shown <= rows.len(),
            rv == views(rows@),
            seqs_view(lines@) == start + rv.take(k as int).map_values(
                |r: (Seq<char>, Seq<char>)| gap_line(t@, r),
            ),
        decreases shown - k,
    {
        let mut line = lit("- ");
        append_str(&mut line, t);
        append_str(&mut line, " | ");
        append_str(&mut line, rows[k].0.as_str());
        append_str(&mut line, " | ");
        append_str(&mut line, rows[k].1.as_str());
        assert(line@ == gap_line(t@, rv[k as int]));
        push_line(lines, line);
        assert(rv.take(k + 1).map_values(|r: (Seq<char>, Seq<char>)| gap_line(t@, r)) =~= rv.take(
            k as int,
        ).map_values(|r: (Seq<char>, Seq<char>)| gap_line(t@, r)).push(gap_line(t@, rv[k as int])));
        k += 1;
    }
    assert(rv.take(shown as int) =~= first_n(rv, limit as nat));
}

/// Lists the data stores that no edge stores anything in (relation
/// `STORED_IN`, or the given one) and the processes without incoming edges
/// (of the given relation, when one is given), among the nodes of the given
/// types.
pub fn render_edge_gaps(graph: &GraphFile, args: &EdgeGapsArgs) -> (r: String)
    ensures
        r@ == report(
            edge_gaps_lines(
                views(graph.nodes@),
                views(graph.edges@),
                views(args.node_types@),
                match args.relation {
                    Some(x) => Some(x@),
                    None => None,
                },
                args.limit as nat,
            ),
        ),
{
    let nodes = filtered_nodes(graph, &args.node_types, true);
    let stored: Option<String> = match &args.relation {
        Some(r) => Some(copy_string(r)),
        None => Some(string_of(lit("STORED_IN").as_slice())),
    };
    let ds = stable_sort(gap_rows_exec(&nodes, &graph.edges, "DataStore", &stored));
    let ps = stable_sort(gap_rows_exec(&nodes, &graph.edges, "Process", &args.relation));
    let mut lines: Vec<Vec<char>> = Vec::new();
    push_line(&mut lines, lit("= edge-gaps"));
    let dn = decimal_usize(ds.len());
    push_line(&mut lines, cat("datastore-missing-stored-in: ", dn.as_slice()));
    push_gap_lines(&mut lines, "DataStore", &ds, args.limit);
    let pn = decimal_usize(ps.len());
    push_line(&mut lines, cat("process-missing-incoming: ", pn.as_slice()));
    push_gap_lines(&mut lines, "Process", &ps, args.limit);
    let ghost exp = edge_gaps_lines(
        views(graph.nodes@),
        views(graph.edges@),
        views(args.node_types@),
        crate::graph::opt_view(args.relation),
        args.limit as nat,
    );
    assert(seqs_view(lines@) =~= exp);
    report_exec(&lines)
}

// ---------------------------------------------------------------------------
// Stats
// ---------------------------------------------------------------------------

/// A group and its count, ordered by the group.
pub struct ByKey(pub String, pub usize);

impl View for ByKey {
    type V = (Seq<char>, nat);

    open spec fn view(&self) -> (Seq<char>, nat) {
        (self.0@, self.1 as nat)
    }
}

impl KeyOrder for ByKey {
    open spec fn spec_after(a: (Seq<char>, nat), b: (Seq<char>, nat)) -> bool {
        lex_order(a.0, b.0) > 0
    }

    fn after(&self, other: &Self) -> (r: bool) {
        let a = chars_of(self.0.as_str());
        let b = chars_of(other.0.as_str());
        lex_order_chars(a.as_slice(), b.as_slice()) > 0
    }
}

/// The distinct keys with their counts, ordered by key.
pub(crate) fn counted_by_key(keys: &Vec<String>) -> (r: Vec<ByKey>)
    ensures
        views(r@) == sorted_seq::<ByKey>(crate::kql::group_counts(views(keys@))),
{
    let t = crate::kql::tally(keys);
    let pairs = crate::kql::group_pairs(t);
    let ghost pv = crate::kql::pairs_count_view(pairs@);
    let mut out: Vec<ByKey> = Vec::new();
    let mut i: usize = 0;
    while i < pairs.len()
        invariant
            i <= pairs.len(),
            pv == crate::kql::pairs_count_view(pairs@),
            views(out@) == pv.take(i as int),
        decreases pairs.len() - i,
    {
        let ghost before = views(out@);
        out.push(ByKey(copy_string(&pairs[i].0), pairs[i].1));
        assert(views(out@) =~= before.push(pv[i as int]));
        assert(pv.take(i + 1) =~= pv.take(i as int).push(pv[i as int]));
        i += 1;
    }
    assert(pv.take(pairs.len() as int) =~= pv);
    stable_sort(out)
}

/// The types of the nodes.
pub open spec fn node_types_of(ns: Seq<NodeV>) -> Seq<Seq<char>> {
    ns.map_values(|n: NodeV| n.node_type)
}

/// Whether some node has the id `id`.
pub open spec fn has_node(ns: Seq<NodeV>, id: Seq<char>) -> bool {
    exists|i: int| 0 <= i < ns.len() && (#[trigger] ns[i]).id == id
}

/// The relations of the edges between two of the nodes.
pub open spec fn inner_relations(es: Seq<EdgeV>, ns: Seq<NodeV>) -> Seq<Seq<char>>
    decreases es.len(),
{
    if es.len() == 0 {
        Seq::empty()
    } else if has_node(ns, es.last().source_id) && has_node(ns, es.last().target_id) {
        inner_relations(es.drop_last(), ns).push(es.last().relation)
    } else {
        inner_relations(es.drop_last(), ns)
    }
}

/// The source files of the nodes, in order.
pub open spec fn all_sources(ns: Seq<NodeV>) -> Seq<Seq<char>>
    decreases ns.len(),
{
    if ns.len() == 0 {
        Seq::empty()
    } else {
        all_sources(ns.drop_last()) + ns.last().source_files
    }
}

/// `  - <group>: <count>`.
pub open spec fn count_line(p: (Seq<char>, nat)) -> Seq<char> {
    "  - "@ + p.0 + ": "@ + decimal(p.1)
}

/// A titled list of groups with counts, ordered by group.
pub open spec fn count_section(title: Seq<char>, keys: Seq<Seq<char>>) -> Seq<Seq<char>> {
    seq![title] + sorted_seq::<ByKey>(crate::kql::group_counts(keys)).map_values(
        |p: (Seq<char>, nat)| count_line(p),
    )
}

/// The lines of the stats report: the number of nodes (features only when
/// asked for) and of edges; optionally the nodes per type, the edges
/// between counted nodes per relation, and the number of distinct source
/// files of the counted nodes.
pub open spec fn stats_lines(ns: Seq<NodeV>, es: Seq<EdgeV>, include_features: bool, by_type: bool, by_relation: bool, show_sources: bool) -> Seq<Seq<char>> {
    let kept = kept_nodes(ns, Seq::empty(), include_features);
    seq!["= stats"@, "nodes: "@ + decimal(kept.len()), "edges: "@ + decimal(es.len())] + (if by_type {
        count_section("types:"@, node_types_of(kept))
    } else {
        Seq::empty()
    }) + (if by_relation {
        count_section("relations:"@, inner_relations(es, kept))
    } else {
        Seq::empty()
    }) + (if show_sources {
        seq!["sources: "@ + decimal(crate::kql::group_counts(all_sources(kept)).len())]
    } else {
        Seq::empty()
    })
}

fn push_count_section(lines: &mut Vec<Vec<char>>, title: &str, keys: &Vec<String>)
    ensures
        seqs_view(final(lines)@) == seqs_view(old(lines)@) + count_section(title@, views(keys@)),
{
    let ghost start = seqs_view(lines@);
    push_line(lines, lit(title));
    let groups = counted_by_key(keys);
    let ghost gv = views(groups@);
    let mut k: usize = 0;
    while k < groups.len()
        invariant
            k <= groups.len(),
            gv == views(groups@),
            seqs_view(lines@) == start + seq![title@] + gv.take(k as int).map_values(
                |p: (Seq<char>, nat)| count_line(p),
            ),
        decreases groups.len() - k,
    {
        let mut line = lit("  - ");
        append_str(&mut line, groups[k].0.as_str());
        append_str(&mut line, ": ");
        let d = decimal_usize(groups[k].1);
        append_chars(&mut line, d.as_slice());
        assert(line@ == count_line(gv[k as int]));
        push_line(lines, line);
        assert(gv.take(k + 1).map_values(|p: (Seq<char>, nat)| count_line(p)) =~= gv.take(
            k as int,
        ).map_values(|p: (Seq<char>, nat)| count_line(p)).push(count_line(gv[k as int])));
        k += 1;
    }
    assert(gv.take(groups.len() as int) =~= gv);
    assert(seqs_view(lines@) =~= start + count_section(title@, views(keys@)));
}

fn has_node_exec(nodes: &Vec<&Node>, id: &String) -> (r: bool)
    ensures
        r == has_node(node_refs_view(nodes@), id@),
{
    let ghost kv = node_refs_view(nodes@);
    let mut i: usize = 0;
    while i < nodes.len()
        invariant
            i <= nodes.len(),
            kv == node_refs_view(nodes@),
            forall|j: int| 0 <= j < i ==> (#[trigger] kv[j]).id != id@,
        decreases nodes.len() - i,
    {
        assert(kv[i as int] == nodes@[i as int]@);
        if str_eq(nodes[i].id.as_str(), id.as_str()) {
            return true;
        }
        i += 1;
    }
    false
}

/// Counts the nodes and edges of a graph, optionally per node type, per
/// relation (of edges between counted nodes) and the distinct source files.
pub fn render_stats(graph: &GraphFile, args: &StatsArgs) -> (r: String)
    ensures
        r@ == report(
            stats_lines(
                views(graph.nodes@),
                views(graph.edges@),
                args.include_features,
                args.by_type,
                args.by_relation,
                args.show_sources,
            ),
        ),
{
    let no_types: Vec<String> = Vec::new();
    let nodes = filtered_nodes(graph, &no_types, args.include_features);
    let ghost kv = node_refs_view(nodes@);
    assert(views(no_types@) =~= Seq::<Seq<char>>::empty());
    let mut lines: Vec<Vec<char>> = Vec::new();
    push_line(&mut lines, lit("= stats"));
    let nn = decimal_usize(nodes.len());
    push_line(&mut lines, cat("nodes: ", nn.as_slice()));
    let ne = decimal_usize(graph.edges.len());
    push_line(&mut lines, cat("edges: ", ne.as_slice()));
    let ghost head = seqs_view(lines@);
    if args.by_type {
        let mut types: Vec<String> = Vec::new();
        let mut i: usize = 0;
        while i < nodes.len()
            invariant
                i <= nodes.len(),
                kv == node_refs_view(nodes@),
                views(types@) == node_types_of(kv.take(i as int)),
            decreases nodes.len() - i,
        {
            let ghost before = views(types@);
            types.push(copy_string(&nodes[i].node_type));
            proof {
                assert(kv[i as int] == nodes@[i as int]@);
                assert(kv.take(i + 1) =~= kv.take(i as int).push(kv[i as int]));
                assert(node_types_of(kv.take(i + 1)) =~= node_types_of(kv.take(i as int)).push(
                    kv[i as int].node_type,
                ));
                assert(views(types@) =~= before.push(nodes@[i as int].node_type@));
            }
            i += 1;
        }
        assert(kv.take(nodes.len() as int) =~= kv);
        push_count_section(&mut lines, "types:", &types);
    }
    let ghost after_types = seqs_view(lines@);
    if args.by_relation {
        let ghost es = views(graph.edges@);
        let mut rels: Vec<String> = Vec::new();
        let mut i: usize = 0;
        while i < graph.edges.len()
            invariant
                i <= graph.edges.len(),
                es == views(graph.edges@),
                kv == node_refs_view(nodes@),
                views(rels@) == inner_relations(es.take(i as int), kv),
            decreases graph.edges.len() - i,
        {
            proof {
                assert(es.take(i + 1).drop_last() =~= es.take(i as int));
                assert(es.take(i + 1).last() == graph.edges@[i as int]@);
            }
            let e = &graph.edges[i];
            if has_node_exec(&nodes, &e.source_id) && has_node_exec(&nodes, &e.target_id) {
                let ghost before = views(rels@);
                rels.push(copy_string(&e.relation));
                assert(views(rels@) =~= before.push(e@.relation));
            }
            i += 1;
        }
        assert(es.take(graph.edges.len() as int) =~= es);
        push_count_section(&mut lines, "relations:", &rels);
    }
    let ghost after_rels = seqs_view(lines@);
    if args.show_sources {
        let mut sources: Vec<String> = Vec::new();
        let mut i: usize = 0;
        while i < nodes.len()
            invariant
                i <= nodes.len(),
                kv == node_refs_view(nodes@),
                views(sources@) == all_sources(kv.take(i as int)),
            decreases nodes.len() - i,
        {
            proof {
                assert(kv.take(i + 1).drop_last() =~= kv.take(i as int));
                assert(kv.take(i + 1).last() == nodes@[i as int]@);
            }
            let files = crate::graph::copy_strings(&nodes[i].source_files);
            let ghost before = views(sources@);
            let mut files = files;
            sources.append(&mut files);
            assert(views(sources@) =~= before + views(nodes@[i as int].source_files@));
            i += 1;
        }
        assert(kv.take(nodes.len() as int) =~= kv);
        let t = crate::kql::tally(&sources);
        let d = decimal_usize(t.len());
        assert(crate::kql::counts_view(t@).len() == t@.len());
        push_line(&mut lines, cat("sources: ", d.as_slice()));
    }
    let ghost exp = stats_lines(
        views(graph.nodes@),
        views(graph.edges@),
        args.include_features,
        args.by_type,
        args.by_relation,
        args.show_sources,
    );
    assert(seqs_view(lines@) =~= exp);
    report_exec(&lines)
}

} // verus!
