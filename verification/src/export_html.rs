//! Pieces of the HTML export: where it is written, its title, the
//! escaping of texts placed in its script, note lines and type colours.
use vstd::prelude::*;
use crate::analysis::{counted_by_key, ByKey};
use crate::generated_edits::{endpoint_count, first_node, lemma_endpoint_count_bound, lemma_first_node_at};
use crate::graph::{Edge, EdgeV, GraphFile, Node, NodeV, Note, NoteV};
use crate::html_page::{
    PAGE_0, PAGE_1, PAGE_10, PAGE_2, PAGE_3, PAGE_4, PAGE_5, PAGE_6, PAGE_7, PAGE_8, PAGE_9,
};
use crate::kql::group_counts;
use crate::sorting::{sorted_seq, stable_sort, KeyOrder};
use crate::text::{append_chars, decimal, decimal_usize, str_eq};
use crate::mcp_text::join_sep;
use crate::sorting::views;
use crate::text::{append_str, chars_eq_str, chars_of, string_of};

verus! {

broadcast use vstd::string::group_string_axioms;

/// Where the export goes and what it is called.
#[derive(Debug)]
pub struct ExportHtmlOptions {
    /// The output file; `<graph>.html` unless given.
    pub output: Option<String>,
    /// The page title; the graph's name unless given.
    pub title: Option<String>,
}

/// The file the export is written to.
pub open spec fn output_path_spec(output: Option<Seq<char>>, graph_name: Seq<char>) -> Seq<char> {
    match output {
        Some(p) => p,
        None => graph_name + ".html"@,
    }
}

/// The file the export is written to: the given one, or `<graph>.html`.
pub fn export_output_path(opts: &ExportHtmlOptions, graph_name: &str) -> (r: String)
    ensures
        r@ == output_path_spec(crate::graph::opt_view(opts.output), graph_name@),
{
    match &opts.output {
        Some(p) => crate::graph::copy_string(p),
        None => {
            let mut c = chars_of(graph_name);
            append_str(&mut c, ".html");
            string_of(c.as_slice())
        },
    }
}

/// Each `"` replaced by `&quot;`.
pub open spec fn quote_entities(s: Seq<char>) -> Seq<char>
    decreases s.len(),
{
    if s.len() == 0 {
        Seq::empty()
    } else {
        quote_entities(s.drop_last()) + if s.last() == '"' {
            "&quot;"@
        } else {
            seq![s.last()]
        }
    }
}

/// The page title: the given one, else the graph's name, with its double
/// quotes written as `&quot;`.
pub fn export_title(opts: &ExportHtmlOptions, metadata_name: &str) -> (r: String)
    ensures
        r@ == quote_entities(
            match opts.title {
                Some(t) => t@,
                None => metadata_name@,
            },
        ),
{
    let src = match &opts.title {
        Some(t) => chars_of(t.as_str()),
        None => chars_of(metadata_name),
    };
    let mut out: Vec<char> = Vec::new();
    let mut i: usize = 0;
    while i < src.len()
        invariant
            i <= src.len(),
            out@ == quote_entities(src@.take(i as int)),
        decreases src.len() - i,
    {
        if src[i] == '"' {
            append_str(&mut out, "&quot;");
        } else {
            out.push(src[i]);
        }
        proof {
            let t = src@.take(i + 1);
            assert(t.drop_last() =~= src@.take(i as int));
            assert(t.last() == src@[i as int]);
        }
        i += 1;
    }
    assert(src@.take(src.len() as int) =~= src@);
    string_of(out.as_slice())
}

/// The message after a successful export.
pub fn exported_message(path: &str) -> (r: String)
    ensures
        r@ == "+ exported "@ + path@ + "\n"@,
{
    let mut c = chars_of("+ exported ");
    append_str(&mut c, path);
    append_str(&mut c, "\n");
    string_of(c.as_slice())
}

/// How a character is written inside a double-quoted script string:
/// backslash, double quote, newline, carriage return and tab escaped.
pub open spec fn js_escape_char(c: char) -> Seq<char> {
    if c == '\\' {
        "\\\\"@
    } else if c == '"' {
        "\\\""@
    } else if c == '\n' {
        "\\n"@
    } else if c == '\r' {
        "\\r"@
    } else if c == '\t' {
        "\\t"@
    } else {
        seq![c]
    }
}

/// A text escaped for a double-quoted script string.
pub open spec fn js_escape(s: Seq<char>) -> Seq<char>
    decreases s.len(),
{
    if s.len() == 0 {
        Seq::empty()
    } else {
        js_escape(s.drop_last()) + js_escape_char(s.last())
    }
}

/// A text escaped for a double-quoted script string.
pub fn escape_js_string(s: &str) -> (r: String)
    ensures
        r@ == js_escape(s@),
{
    let c = chars_of(s);
    let mut out: Vec<char> = Vec::new();
    let mut i: usize = 0;
    while i < c.len()
        invariant
            i <= c.len(),
            out@ == js_escape(c@.take(i as int)),
        decreases c.len() - i,
    {
        let ch = c[i];
        if ch == '\\' {
            append_str(&mut out, "\\\\");
        } else if ch == '"' {
            append_str(&mut out, "\\\"");
        } else if ch == '\n' {
            append_str(&mut out, "\\n");
        } else if ch == '\r' {
            append_str(&mut out, "\\r");
        } else if ch == '\t' {
            append_str(&mut out, "\\t");
        } else {
            out.push(ch);
        }
        proof {
            let t = c@.take(i + 1);
            assert(t.drop_last() =~= c@.take(i as int));
            assert(t.last() == ch);
        }
        i += 1;
    }
    assert(c@.take(c.len() as int) =~= c@);
    string_of(out.as_slice())
}

/// The text of a note in the export: date, author, body and tags.
pub open spec fn note_line_spec(o: NoteV) -> Seq<char> {
    (if o.created_at.len() > 0 {
        o.created_at + " "@
    } else {
        Seq::empty()
    }) + (if o.author.len() > 0 {
        o.author + ": "@
    } else {
        Seq::empty()
    }) + o.body + (if o.tags.len() > 0 {
        " ["@ + join_sep(o.tags, ", "@) + "]"@
    } else {
        Seq::empty()
    })
}

/// The text of a note in the export.
pub fn format_note(note: &Note) -> (r: String)
    ensures
        r@ == note_line_spec(note@),
{
    let mut out: Vec<char> = Vec::new();
    if note.created_at.as_str().unicode_len() > 0 {
        append_str(&mut out, note.created_at.as_str());
        append_str(&mut out, " ");
    }
    if note.author.as_str().unicode_len() > 0 {
        append_str(&mut out, note.author.as_str());
        append_str(&mut out, ": ");
    }
    append_str(&mut out, note.body.as_str());
    if note.tags.len() > 0 {
        append_str(&mut out, " [");
        let ghost tv = views(note.tags@);
        let ghost before = out@;
        let mut joined: Vec<char> = Vec::new();
        let mut i: usize = 0;
        while i < note.tags.len()
            invariant
                i <= note.tags.len(),
                tv == views(note.tags@),
                joined@ == join_sep(tv.take(i as int), ", "@),
            decreases note.tags.len() - i,
        {
            let ghost jb = joined@;
            if i > 0 {
                append_str(&mut joined, ", ");
            }
            append_str(&mut joined, note.tags[i].as_str());
            proof {
                let t = tv.take(i + 1);
                assert(t.drop_last() =~= tv.take(i as int));
                assert(t.last() == note.tags@[i as int]@);
                if i == 0 {
                    assert(jb =~= Seq::<char>::empty());
                }
            }
            i += 1;
        }
        assert(tv.take(note.tags.len() as int) =~= tv);
        crate::text::append_chars(&mut out, joined.as_slice());
        append_str(&mut out, "]");
    }
    string_of(out.as_slice())
}

/// The colour of a node type in the export.
pub open spec fn node_color_spec(t: Seq<char>) -> Seq<char> {
    if t == "Concept"@ {
        "#4A90D9"@
    } else if t == "Process"@ {
        "#7ED321"@
    } else if t == "DataStore"@ {
        "#F5A623"@
    } else if t == "Interface"@ {
        "#BD10E0"@
    } else if t == "Rule"@ {
        "#D0021B"@
    } else if t == "Feature"@ {
        "#50E3C2"@
    } else if t == "Decision"@ {
        "#B8E986"@
    } else if t == "Convention"@ {
        "#9B9B9B"@
    } else if t == "Note"@ {
        "#F8E71C"@
    } else if t == "Bug"@ {
        "#FF6B6B"@
    } else {
        "#CCCCCC"@
    }
}

/// The colour of a node type in the export.
pub fn node_color(node_type: &str) -> (r: &'static str)
    ensures
        r@ == node_color_spec(node_type@),
{
    let t = chars_of(node_type);
    let s = t.as_slice();
    if chars_eq_str(s, "Concept") {
        "#4A90D9"
    } else if chars_eq_str(s, "Process") {
        "#7ED321"
    } else if chars_eq_str(s, "DataStore") {
        "#F5A623"
    } else if chars_eq_str(s, "Interface") {
        "#BD10E0"
    } else if chars_eq_str(s, "Rule") {
        "#D0021B"
    } else if chars_eq_str(s, "Feature") {
        "#50E3C2"
    } else if chars_eq_str(s, "Decision") {
        "#B8E986"
    } else if chars_eq_str(s, "Convention") {
        "#9B9B9B"
    } else if chars_eq_str(s, "Note") {
        "#F8E71C"
    } else if chars_eq_str(s, "Bug") {
        "#FF6B6B"
    } else {
        "#CCCCCC"
    }
}

// ---------------------------------------------------------------------------
// The page
// ---------------------------------------------------------------------------

/// A text as a double-quoted script string.
pub open spec fn quoted_js(s: Seq<char>) -> Seq<char> {
    "\""@ + js_escape(s) + "\""@
}

/// Texts as the items of a script array.
pub open spec fn js_list(items: Seq<Seq<char>>) -> Seq<char> {
    join_sep(items.map_values(|s: Seq<char>| quoted_js(s)), ","@)
}

/// The note texts shown for the node `id`, in note order.
pub open spec fn notes_of(os: Seq<NoteV>, id: Seq<char>) -> Seq<Seq<char>> {
    os.filter(|o: NoteV| o.node_id == id).map_values(|o: NoteV| note_line_spec(o))
}

/// The script object of a node; `confidence` is the confidence as shown.
pub open spec fn node_js(n: NodeV, os: Seq<NoteV>, confidence: Seq<char>) -> Seq<char> {
    "{data:{id:\""@ + js_escape(n.id) + "\",label:\""@ + js_escape(n.name) + "\",type:\""@ + js_escape(
        n.node_type,
    ) + "\",desc:\""@ + js_escape(n.props.description) + "\",facts:["@ + js_list(n.props.key_facts)
        + "],aliases:["@ + js_list(n.props.alias) + "],sources:["@ + js_list(n.source_files)
        + "],notes:["@ + js_list(notes_of(os, n.id)) + "],confidence:\""@ + confidence + "\",color:\""@
        + node_color_spec(n.node_type) + "\"}}"@
}

/// The script objects of all nodes, one per line.
pub open spec fn nodes_js(ns: Seq<NodeV>, os: Seq<NoteV>, confidences: Seq<Seq<char>>) -> Seq<char> {
    join_sep(Seq::new(ns.len(), |i: int| node_js(ns[i], os, confidences[i])), ",\n"@)
}

/// The script object of the edge at position `i`.
pub open spec fn edge_js(i: nat, e: EdgeV) -> Seq<char> {
    "{data:{id:\"e"@ + decimal(i) + "\",source:\""@ + js_escape(e.source_id) + "\",target:\""@
        + js_escape(e.target_id) + "\",relation:\""@ + js_escape(e.relation) + "\",detail:\""@
        + js_escape(e.props.detail) + "\"}}"@
}

/// The script objects of all edges, one per line.
pub open spec fn edges_js(es: Seq<EdgeV>) -> Seq<char> {
    join_sep(Seq::new(es.len(), |i: int| edge_js(i as nat, es[i])), ",\n"@)
}

/// The distinct texts, each once, in ascending order.
pub open spec fn distinct_sorted(keys: Seq<Seq<char>>) -> Seq<Seq<char>> {
    sorted_seq::<ByKey>(group_counts(keys)).map_values(|p: (Seq<char>, nat)| p.0)
}

/// The filter entry of a node type.
pub open spec fn type_checkbox(t: Seq<char>) -> Seq<char> {
    "<label class=\"filter-label\"><input type=\"checkbox\" class=\"type-filter\" value=\""@ + t
        + "\" checked> <span class=\"dot\" style=\"background:"@ + node_color_spec(t) + "\"></span>"@ + t
        + "</label>"@
}

/// The filter entry of a relation.
pub open spec fn rel_checkbox(r: Seq<char>) -> Seq<char> {
    "<label class=\"filter-label rel-filter-label\"><input type=\"checkbox\" class=\"rel-filter\" value=\""@
        + r + "\" checked> <span class=\"rel-tag\">"@ + r + "</span></label>"@
}

/// The filter entries of the node types, one per line.
pub open spec fn type_checkboxes(ns: Seq<NodeV>) -> Seq<char> {
    join_sep(
        distinct_sorted(ns.map_values(|n: NodeV| n.node_type)).map_values(|t: Seq<char>| type_checkbox(t)),
        "\n"@,
    )
}

/// The filter entries of the relations, one per line.
pub open spec fn rel_checkboxes(es: Seq<EdgeV>) -> Seq<char> {
    join_sep(
        distinct_sorted(es.map_values(|e: EdgeV| e.relation)).map_values(|r: Seq<char>| rel_checkbox(r)),
        "\n"@,
    )
}

/// A node's position and its degree, ordered by degree, highest first.
pub struct Hub(pub usize, pub usize);

impl View for Hub {
    type V = (nat, nat);

    open spec fn view(&self) -> (nat, nat) {
        (self.0 as nat, self.1 as nat)
    }
}

impl KeyOrder for Hub {
    open spec fn spec_after(a: (nat, nat), b: (nat, nat)) -> bool {
        a.1 < b.1
    }

    fn after(&self, other: &Self) -> (r: bool) {
        self.1 < other.1
    }
}

/// Every node with its degree (the edge ends at its id), highest degree
/// first, nodes of equal degree in graph order.
pub open spec fn hubs_by_degree(ns: Seq<NodeV>, es: Seq<EdgeV>) -> Seq<(nat, nat)> {
    sorted_seq::<Hub>(Seq::new(ns.len(), |i: int| (i as nat, endpoint_count(es, ns[i].id))))
}

/// The script object of a hub: id, then name, type and colour of the first
/// node with that id, and the degree.
pub open spec fn hub_js(ns: Seq<NodeV>, h: (nat, nat)) -> Seq<char> {
    let id = ns[h.0 as int].id;
    hub_text(id, ns[first_node(ns, id)->0], h.1)
}

/// The script object of a hub with id `id`, shown as node `m`.
pub open spec fn hub_text(id: Seq<char>, m: NodeV, degree: nat) -> Seq<char> {
    "{id:\""@ + js_escape(id) + "\",label:\""@ + js_escape(m.name) + "\",type_:\""@ + js_escape(m.node_type)
        + "\",color:\""@ + node_color_spec(m.node_type) + "\",degree:"@ + decimal(degree) + "}"@
}

fn hub_text_exec(id: &String, node: &Node, degree: usize) -> (r: String)
    ensures
        r@ == hub_text(id@, node@, degree as nat),
{
    let mut out = chars_of("{id:\"");
    append_str(&mut out, escape_js_string(id.as_str()).as_str());
    append_str(&mut out, "\",label:\"");
    append_str(&mut out, escape_js_string(node.name.as_str()).as_str());
    append_str(&mut out, "\",type_:\"");
    append_str(&mut out, escape_js_string(node.node_type.as_str()).as_str());
    append_str(&mut out, "\",color:\"");
    append_str(&mut out, node_color(node.node_type.as_str()));
    append_str(&mut out, "\",degree:");
    append_chars(&mut out, decimal_usize(degree).as_slice());
    append_str(&mut out, "}");
    string_of(out.as_slice())
}

/// The ten nodes of highest degree (fewer when the graph has fewer).
pub open spec fn top_hubs_js(ns: Seq<NodeV>, es: Seq<EdgeV>) -> Seq<char> {
    let hs = hubs_by_degree(ns, es);
    let top = if hs.len() <= 10 { hs } else { hs.take(10) };
    join_sep(top.map_values(|h: (nat, nat)| hub_js(ns, h)), ","@)
}

/// The exported page of a graph under `title`; `confidences` holds, per
/// node, its confidence as shown (two decimals, or empty).
pub open spec fn html_page(g: crate::graph::GraphV, title: Seq<char>, confidences: Seq<Seq<char>>) -> Seq<char> {
    PAGE_0@ + title + PAGE_1@ + title + PAGE_2@ + decimal(g.nodes.len()) + PAGE_3@ + decimal(g.edges.len())
        + PAGE_4@ + type_checkboxes(g.nodes) + PAGE_5@ + rel_checkboxes(g.edges) + PAGE_6@ + js_escape(
        g.metadata.name,
    ) + PAGE_7@ + top_hubs_js(g.nodes, g.edges) + PAGE_8@ + nodes_js(g.nodes, g.notes, confidences)
        + PAGE_9@ + edges_js(g.edges) + PAGE_10@
}

/// Texts joined with a separator.
fn join_strs(items: &Vec<String>, sep: &str) -> (r: Vec<char>)
    ensures
        r@ == join_sep(views(items@), sep@),
{
    let ghost iv = views(items@);
    let mut out: Vec<char> = Vec::new();
    let mut i: usize = 0;
    while i < items.len()
        invariant
            i <= items.len(),
            iv == views(items@),
            out@ == join_sep(iv.take(i as int), sep@),
        decreases items.len() - i,
    {
        let ghost before = out@;
        if i > 0 {
            append_str(&mut out, sep);
        }
        append_str(&mut out, items[i].as_str());
        proof {
            let t = iv.take(i + 1);
            assert(t.drop_last() =~= iv.take(i as int));
            assert(t.last() == items@[i as int]@);
            if i == 0 {
                assert(before =~= Seq::<char>::empty());
            }
        }
        i += 1;
    }
    assert(iv.take(items.len() as int) =~= iv);
    out
}

fn quoted_js_exec(s: &str) -> (r: String)
    ensures
        r@ == quoted_js(s@),
{
    let mut out = chars_of("\"");
    let e = escape_js_string(s);
    append_str(&mut out, e.as_str());
    append_str(&mut out, "\"");
    string_of(out.as_slice())
}

fn js_list_exec(items: &Vec<String>) -> (r: Vec<char>)
    ensures
        r@ == js_list(views(items@)),
{
    let mut q: Vec<String> = Vec::new();
    let mut i: usize = 0;
    while i < items.len()
        invariant
            i <= items.len(),
            q.len() == i,
            forall|j: int| 0 <= j < i ==> (#[trigger] q@[j])@ == quoted_js(items@[j]@),
        decreases items.len() - i,
    {
        q.push(quoted_js_exec(items[i].as_str()));
        i += 1;
    }
    assert(views(q@) =~= views(items@).map_values(|s: Seq<char>| quoted_js(s)));
    join_strs(&q, ",")
}

fn notes_for(notes: &Vec<Note>, id: &String) -> (r: Vec<String>)
    ensures
        views(r@) == notes_of(views(notes@), id@),
{
    let ghost pred = |o: NoteV| o.node_id == id@;
    let ghost f = |o: NoteV| note_line_spec(o);
    let ghost os = views(notes@);
    let mut out: Vec<String> = Vec::new();
    let mut i: usize = 0;
    assert(os.take(0) =~= Seq::<NoteV>::empty());
    assert(os.take(0).filter(pred) =~= Seq::<NoteV>::empty()) by {
        reveal_with_fuel(Seq::<_>::filter, 1);
    }
    while i < notes.len()
        invariant
            i <= notes.len(),
            os == views(notes@),
            pred == (|o: NoteV| o.node_id == id@),
            f == (|o: NoteV| note_line_spec(o)),
            views(out@) == os.take(i as int).filter(pred).map_values(f),
        decreases notes.len() - i,
    {
        proof {
            reveal_with_fuel(Seq::<_>::filter, 1);
            assert(os.take(i + 1).drop_last() =~= os.take(i as int));
            assert(os.take(i + 1).last() == notes@[i as int]@);
        }
        if str_eq(notes[i].node_id.as_str(), id.as_str()) {
            let line = format_note(&notes[i]);
            let ghost before = views(out@);
            out.push(line);
            assert(views(out@) =~= before.push(f(notes@[i as int]@)));
            assert(os.take(i + 1).filter(pred) == os.take(i as int).filter(pred).push(notes@[i as int]@));
            assert(os.take(i + 1).filter(pred).map_values(f) =~= os.take(i as int).filter(pred).map_values(f).push(
                f(notes@[i as int]@),
            ));
        } else {
            assert(os.take(i + 1).filter(pred) == os.take(i as int).filter(pred));
        }
        i += 1;
    }
    assert(os.take(notes.len() as int) =~= os);
    out
}

fn node_js_exec(n: &Node, notes: &Vec<Note>, confidence: &String) -> (r: String)
    ensures
        r@ == node_js(n@, views(notes@), confidence@),
{
    let mut out = chars_of("{data:{id:\"");
    append_str(&mut out, escape_js_string(n.id.as_str()).as_str());
    append_str(&mut out, "\",label:\"");
    append_str(&mut out, escape_js_string(n.name.as_str()).as_str());
    append_str(&mut out, "\",type:\"");
    append_str(&mut out, escape_js_string(n.node_type.as_str()).as_str());
    append_str(&mut out, "\",desc:\"");
    append_str(&mut out, escape_js_string(n.properties.description.as_str()).as_str());
    append_str(&mut out, "\",facts:[");
    append_chars(&mut out, js_list_exec(&n.properties.key_facts).as_slice());
    append_str(&mut out, "],aliases:[");
    append_chars(&mut out, js_list_exec(&n.properties.alias).as_slice());
    append_str(&mut out, "],sources:[");
    append_chars(&mut out, js_list_exec(&n.source_files).as_slice());
    append_str(&mut out, "],notes:[");
    let ns = notes_for(notes, &n.id);
    append_chars(&mut out, js_list_exec(&ns).as_slice());
    append_str(&mut out, "],confidence:\"");
    append_str(&mut out, confidence.as_str());
    append_str(&mut out, "\",color:\"");
    append_str(&mut out, node_color(n.node_type.as_str()));
    append_str(&mut out, "\"}}");
    string_of(out.as_slice())
}

fn edge_js_exec(i: usize, e: &Edge) -> (r: String)
    ensures
        r@ == edge_js(i as nat, e@),
{
    let mut out = chars_of("{data:{id:\"e");
    append_chars(&mut out, decimal_usize(i).as_slice());
    append_str(&mut out, "\",source:\"");
    append_str(&mut out, escape_js_string(e.source_id.as_str()).as_str());
    append_str(&mut out, "\",target:\"");
    append_str(&mut out, escape_js_string(e.target_id.as_str()).as_str());
    append_str(&mut out, "\",relation:\"");
    append_str(&mut out, escape_js_string(e.relation.as_str()).as_str());
    append_str(&mut out, "\",detail:\"");
    append_str(&mut out, escape_js_string(e.properties.detail.as_str()).as_str());
    append_str(&mut out, "\"}}");
    string_of(out.as_slice())
}

fn nodes_js_exec(graph: &GraphFile, confidences: &Vec<String>) -> (r: Vec<char>)
    requires
        confidences.len() == graph.nodes.len(),
    ensures
        r@ == nodes_js(views(graph.nodes@), views(graph.notes@), views(confidences@)),
{
    let mut items: Vec<String> = Vec::new();
    let mut i: usize = 0;
    while i < graph.nodes.len()
        invariant
            i <= graph.nodes.len(),
            confidences.len() == graph.nodes.len(),
            items.len() == i,
            forall|j: int| 0 <= j < i ==> (#[trigger] items@[j])@ == node_js(
                graph.nodes@[j]@,
                views(graph.notes@),
                confidences@[j]@,
            ),
        decreases graph.nodes.len() - i,
    {
        items.push(node_js_exec(&graph.nodes[i], &graph.notes, &confidences[i]));
        i += 1;
    }
    let ghost ns = views(graph.nodes@);
    assert(views(items@) =~= Seq::new(ns.len(), |j: int| node_js(ns[j], views(graph.notes@), views(confidences@)[j])));
    join_strs(&items, ",\n")
}

fn edges_js_exec(graph: &GraphFile) -> (r: Vec<char>)
    ensures
        r@ == edges_js(views(graph.edges@)),
{
    let mut items: Vec<String> = Vec::new();
    let mut i: usize = 0;
    while i < graph.edges.len()
        invariant
            i <= graph.edges.len(),
            items.len() == i,
            forall|j: int| 0 <= j < i ==> (#[trigger] items@[j])@ == edge_js(j as nat, graph.edges@[j]@),
        decreases graph.edges.len() - i,
    {
        items.push(edge_js_exec(i, &graph.edges[i]));
        i += 1;
    }
    let ghost es = views(graph.edges@);
    assert(views(items@) =~= Seq::new(es.len(), |j: int| edge_js(j as nat, es[j])));
    join_strs(&items, ",\n")
}

fn distinct_sorted_exec(keys: &Vec<String>) -> (r: Vec<String>)
    ensures
        views(r@) == distinct_sorted(views(keys@)),
{
    let c = counted_by_key(keys);
    let ghost cv = views(c@);
    let mut out: Vec<String> = Vec::new();
    let mut i: usize = 0;
    while i < c.len()
        invariant
            i <= c.len(),
            cv == views(c@),
            out.len() == i,
            forall|j: int| 0 <= j < i ==> (#[trigger] out@[j])@ == cv[j].0,
        decreases c.len() - i,
    {
        out.push(crate::graph::copy_string(&c[i].0));
        i += 1;
    }
    assert(views(out@) =~= cv.map_values(|p: (Seq<char>, nat)| p.0));
    out
}

fn type_checkboxes_exec(graph: &GraphFile) -> (r: Vec<char>)
    ensures
        r@ == type_checkboxes(views(graph.nodes@)),
{
    let mut types: Vec<String> = Vec::new();
    let mut i: usize = 0;
    while i < graph.nodes.len()
        invariant
            i <= graph.nodes.len(),
            types.len() == i,
            forall|j: int| 0 <= j < i ==> (#[trigger] types@[j])@ == graph.nodes@[j]@.node_type,
        decreases graph.nodes.len() - i,
    {
        types.push(crate::graph::copy_string(&graph.nodes[i].node_type));
        i += 1;
    }
    assert(views(types@) =~= views(graph.nodes@).map_values(|n: NodeV| n.node_type));
    let ds = distinct_sorted_exec(&types);
    let mut items: Vec<String> = Vec::new();
    let mut k: usize = 0;
    while k < ds.len()
        invariant
            k <= ds.len(),
            items.len() == k,
            forall|j: int| 0 <= j < k ==> (#[trigger] items@[j])@ == type_checkbox(ds@[j]@),
        decreases ds.len() - k,
    {
        let t = ds[k].as_str();
        let mut out = chars_of("<label class=\"filter-label\"><input type=\"checkbox\" class=\"type-filter\" value=\"");
        append_str(&mut out, t);
        append_str(&mut out, "\" checked> <span class=\"dot\" style=\"background:");
        append_str(&mut out, node_color(t));
        append_str(&mut out, "\"></span>");
        append_str(&mut out, t);
        append_str(&mut out, "</label>");
        items.push(string_of(out.as_slice()));
        k += 1;
    }
    assert(views(items@) =~= views(ds@).map_values(|t: Seq<char>| type_checkbox(t)));
    join_strs(&items, "\n")
}

fn rel_checkboxes_exec(graph: &GraphFile) -> (r: Vec<char>)
    ensures
        r@ == rel_checkboxes(views(graph.edges@)),
{
    let mut rels: Vec<String> = Vec::new();
    let mut i: usize = 0;
    while i < graph.edges.len()
        invariant
            i <= graph.edges.len(),
            rels.len() == i,
            forall|j: int| 0 <= j < i ==> (#[trigger] rels@[j])@ == graph.edges@[j]@.relation,
        decreases graph.edges.len() - i,
    {
        rels.push(crate::graph::copy_string(&graph.edges[i].relation));
        i += 1;
    }
    assert(views(rels@) =~= views(graph.edges@).map_values(|e: EdgeV| e.relation));
    let ds = distinct_sorted_exec(&rels);
    let mut items: Vec<String> = Vec::new();
    let mut k: usize = 0;
    while k < ds.len()
        invariant
            k <= ds.len(),
            items.len() == k,
            forall|j: int| 0 <= j < k ==> (#[trigger] items@[j])@ == rel_checkbox(ds@[j]@),
        decreases ds.len() - k,
    {
        let r = ds[k].as_str();
        let mut out = chars_of("<label class=\"filter-label rel-filter-label\"><input type=\"checkbox\" class=\"rel-filter\" value=\"");
        append_str(&mut out, r);
        append_str(&mut out, "\" checked> <span class=\"rel-tag\">");
        append_str(&mut out, r);
        append_str(&mut out, "</span></label>");
        items.push(string_of(out.as_slice()));
        k += 1;
    }
    assert(views(items@) =~= views(ds@).map_values(|r: Seq<char>| rel_checkbox(r)));
    join_strs(&items, "\n")
}

/// The number of edge ends at `id`.
fn degree(edges: &Vec<Edge>, id: &String) -> (r: usize)
    requires
        edges.len() <= usize::MAX / 2,
    ensures
        r as nat == endpoint_count(views(edges@), id@),
{
    let ghost es = views(edges@);
    let mut c: usize = 0;
    let mut i: usize = 0;
    assert(es.take(0) =~= Seq::<EdgeV>::empty());
    while i < edges.len()
        invariant
            i <= edges.len(),
            edges.len() <= usize::MAX / 2,
            es == views(edges@),
            c as nat == endpoint_count(es.take(i as int), id@),
        decreases edges.len() - i,
    {
        proof {
            assert(es.take(i + 1).drop_last() =~= es.take(i as int));
            assert(es.take(i + 1).last() == edges@[i as int]@);
            lemma_endpoint_count_bound(es.take(i as int), id@);
        }
        if str_eq(edges[i].source_id.as_str(), id.as_str()) {
            c += 1;
        }
        if str_eq(edges[i].target_id.as_str(), id.as_str()) {
            c += 1;
        }
        i += 1;
    }
    assert(es.take(edges.len() as int) =~= es);
    c
}

fn hub_js_exec(graph: &GraphFile, h: &Hub) -> (r: String)
    requires
        h.0 < graph.nodes.len(),
    ensures
        r@ == hub_js(views(graph.nodes@), h@),
{
    let ghost ns = views(graph.nodes@);
    let id = &graph.nodes[h.0].id;
    assert(graph@.nodes == ns);
    let m = match graph.node_by_id(id.as_str()) {
        Some(p) => p,
        None => {
            assert(ns[h.0 as int].id == id@);
            h.0
        },
    };
    proof {
        lemma_first_node_at(ns, id@, m as int);
    }
    hub_text_exec(id, &graph.nodes[m], h.1)
}

proof fn lemma_hub_preorder()
    ensures
        crate::sorting::preorder_ok::<Hub>(),
{
}

fn top_hubs_exec(graph: &GraphFile) -> (r: Vec<char>)
    requires
        graph.edges.len() <= usize::MAX / 2,
    ensures
        r@ == top_hubs_js(views(graph.nodes@), views(graph.edges@)),
{
    let ghost ns = views(graph.nodes@);
    let ghost es = views(graph.edges@);
    let mut hubs: Vec<Hub> = Vec::new();
    let mut i: usize = 0;
    while i < graph.nodes.len()
        invariant
            i <= graph.nodes.len(),
            graph.edges.len() <= usize::MAX / 2,
            ns == views(graph.nodes@),
            es == views(graph.edges@),
            hubs.len() == i,
            forall|j: int| 0 <= j < i ==> (#[trigger] hubs@[j])@ == (j as nat, endpoint_count(es, ns[j].id)),
        decreases graph.nodes.len() - i,
    {
        let d = degree(&graph.edges, &graph.nodes[i].id);
        hubs.push(Hub(i, d));
        i += 1;
    }
    assert(views(hubs@) =~= Seq::new(ns.len(), |j: int| (j as nat, endpoint_count(es, ns[j].id))));
    let sorted = stable_sort(hubs);
    let ghost hs = views(sorted@);
    proof {
        let input = Seq::new(ns.len(), |j: int| (j as nat, endpoint_count(es, ns[j].id)));
        lemma_hub_preorder();
        crate::sorting::lemma_sorted_seq_props::<Hub>(input);
        assert forall|q: int| 0 <= q < hs.len() implies (#[trigger] hs[q]).0 < ns.len() by {
            assert(hs.contains(hs[q]));
            assert(input.contains(hs[q]));
            let j = choose|j: int| 0 <= j < input.len() && input[j] == hs[q];
        }
    }
    let n: usize = if sorted.len() <= 10 { sorted.len() } else { 10 };
    let ghost top = if hs.len() <= 10 { hs } else { hs.take(10) };
    let mut items: Vec<String> = Vec::new();
    let mut k: usize = 0;
    while k < n
        invariant
            k <= n,
            n == top.len(),
            n <= sorted.len(),
            hs == views(sorted@),
            ns == views(graph.nodes@),
            top == if hs.len() <= 10 { hs } else { hs.take(10) },
            forall|q: int| 0 <= q < hs.len() ==> (#[trigger] hs[q]).0 < ns.len(),
            items.len() == k,
            forall|j: int| 0 <= j < k ==> (#[trigger] items@[j])@ == hub_js(ns, top[j]),
        decreases n - k,
    {
        assert(hs[k as int] == sorted@[k as int]@);
        assert(top[k as int] == hs[k as int]);
        items.push(hub_js_exec(graph, &sorted[k]));
        k += 1;
    }
    assert(views(items@) =~= top.map_values(|h: (nat, nat)| hub_js(ns, h)));
    join_strs(&items, ",")
}

/// The exported HTML page of a graph under `title`. `confidences` holds,
/// for each node, its confidence as the page shows it (written with two
/// decimals, or empty when the node has none).
pub fn render_html(graph: &GraphFile, title: &str, confidences: &Vec<String>) -> (r: String)
    requires
        confidences.len() == graph.nodes.len(),
        graph.edges.len() <= usize::MAX / 2,
    ensures
        r@ == html_page(graph@, title@, views(confidences@)),
{
    let mut out = chars_of(PAGE_0);
    append_str(&mut out, title);
    append_str(&mut out, PAGE_1);
    append_str(&mut out, title);
    append_str(&mut out, PAGE_2);
    append_chars(&mut out, decimal_usize(graph.nodes.len()).as_slice());
    append_str(&mut out, PAGE_3);
    append_chars(&mut out, decimal_usize(graph.edges.len()).as_slice());
    append_str(&mut out, PAGE_4);
    append_chars(&mut out, type_checkboxes_exec(graph).as_slice());
    append_str(&mut out, PAGE_5);
    append_chars(&mut out, rel_checkboxes_exec(graph).as_slice());
    append_str(&mut out, PAGE_6);
    append_str(&mut out, escape_js_string(graph.metadata.name.as_str()).as_str());
    append_str(&mut out, PAGE_7);
    append_chars(&mut out, top_hubs_exec(graph).as_slice());
    append_str(&mut out, PAGE_8);
    append_chars(&mut out, nodes_js_exec(graph, confidences).as_slice());
    append_str(&mut out, PAGE_9);
    append_chars(&mut out, edges_js_exec(graph).as_slice());
    append_str(&mut out, PAGE_10);
    string_of(out.as_slice())
}

} // verus!
