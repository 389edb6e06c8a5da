//! A small example graph describing this repository: its concepts,
//! interfaces, processes, stores, decisions and rules, and how they link.
use vstd::prelude::*;
use crate::graph::{
    default_edge_props, default_node_props, new_graph, Edge, EdgeProperties, EdgeV, GraphFile, GraphV,
    MetadataV, Node, NodeProperties, NodePropsV, NodeV,
};
use crate::text::{chars_of, string_of};

verus! {

/// The texts of string slices.
pub open spec fn str_views(s: Seq<&str>) -> Seq<Seq<char>> {
    s.map_values(|x: &str| x@)
}

/// A node of the example: provenance `A`, the given description, facts,
/// sources and importance, everything else default.
pub open spec fn example_node_spec(
    id: Seq<char>,
    node_type: Seq<char>,
    name: Seq<char>,
    description: Seq<char>,
    facts: Seq<Seq<char>>,
    sources: Seq<Seq<char>>,
    importance: Seq<char>,
) -> NodeV {
    NodeV {
        id,
        node_type,
        name,
        props: NodePropsV {
            description,
            provenance: "A"@,
            importance,
            key_facts: facts,
            ..default_node_props()
        },
        source_files: sources,
    }
}

/// An edge of the example, with default properties.
pub open spec fn example_edge_spec(source_id: Seq<char>, relation: Seq<char>, target_id: Seq<char>) -> EdgeV {
    EdgeV { source_id, relation, target_id, props: default_edge_props() }
}

/// The nodes of the example graph.
pub open spec fn example_nodes_spec() -> Seq<NodeV> {
    seq![
        example_node_spec("^:graph_info"@, "^"@, "Graph Metadata"@, "Internal graph metadata for cross-graph linking."@, seq!["graph_uuid=0123456789abcdef0123"@, "schema_version=2"@], seq!["DOC .kg/internal/graph_info"@], "1"@),
        example_node_spec("K:graph_serialization"@, "Concept"@, "Graph serialization"@, "Native .kg serialization plus import/export paths."@, seq!["`src/graph.rs` parses and serializes the line-based .kg format."@, "`src/export_html.rs` renders graph data for visualization."@], seq!["SOURCECODE src/export_html.rs"@, "SOURCECODE src/graph.rs"@, "SOURCECODE src/import_csv.rs"@, "SOURCECODE src/import_markdown.rs"@], "4"@),
        example_node_spec("K:kg_repo"@, "Concept"@, "kg repository"@, "Local knowledge-graph tooling for AI assistants."@, seq!["Persistent project memory stored locally as readable .kg files."@], seq!["DOC README.md"@, "DOC docs/build-graph-from-docs.md"@, "DOC docs/mcp.md"@], "5"@),
        example_node_spec("K:repo_scope"@, "Concept"@, "Repository scope"@, "Compact graph slice covering the repo, not every file."@, seq!["Grounded in the docs and code that describe repo workflows."@], seq!["DOC README.md"@, "DOC docs/build-graph-from-docs.md"@], "4"@),
        example_node_spec("F:persistent_memory"@, "Feature"@, "Persistent memory"@, "Stable project memory for AI assistants across sessions."@, seq!["The README describes Git-friendly, structured memory."@], seq!["DOC README.md"@], "5"@),
        example_node_spec("I:kg_cli"@, "Interface"@, "kg CLI"@, "Command-line interface for creating, querying, and maintaining graphs."@, seq!["`src/cli.rs` defines the main graph, node, edge, note, and export commands."@, "`src/main.rs` delegates to `kg::run`."@], seq!["SOURCECODE src/cli.rs"@, "SOURCECODE src/lib.rs"@, "SOURCECODE src/main.rs"@], "5"@),
        example_node_spec("I:kg_mcp"@, "Interface"@, "kg-mcp"@, "Local stdio MCP server that exposes kg operations to AI clients."@, seq!["README and `docs/mcp.md` document MCP client setup."@, "`src/bin/kg-mcp.rs` implements the server entrypoint."@], seq!["DOC README.md"@, "DOC docs/mcp.md"@, "SOURCECODE src/bin/kg-mcp.rs"@, "SOURCECODE src/lib.rs"@], "5"@),
        example_node_spec("P:command_dispatch"@, "Process"@, "Command dispatch"@, "Routing CLI arguments into graph operations."@, seq!["`src/lib.rs` wires the CLI parser to execution handlers."@, "`src/main.rs` handles exit paths."@], seq!["SOURCECODE src/cli.rs"@, "SOURCECODE src/lib.rs"@, "SOURCECODE src/main.rs"@], "4"@),
        example_node_spec("P:graph_query"@, "Process"@, "Graph query"@, "Search, list, KQL, and inspection workflows."@, seq!["Query rendering lives in `src/output.rs`."@, "`src/cli.rs` exposes `node find`, `node get`, `list`, and `kql`."@], seq!["SOURCECODE src/cli.rs"@, "SOURCECODE src/lib.rs"@, "SOURCECODE src/output.rs"@], "5"@),
        example_node_spec("P:graph_mutation"@, "Process"@, "Graph mutation"@, "Node, edge, and note updates."@, seq!["`src/app/graph_node_edge.rs` and `src/app/graph_note.rs` implement mutation flows."@, "`src/graph.rs` persists graph updates with schema migration."@], seq!["SOURCECODE src/app/graph_node_edge.rs"@, "SOURCECODE src/app/graph_note.rs"@, "SOURCECODE src/graph.rs"@, "SOURCECODE src/lib.rs"@], "5"@),
        example_node_spec("P:quality_checks"@, "Process"@, "Quality checks"@, "Validation and quality reporting for graph content."@, seq!["`src/validate.rs` defines allowed types, relations, and edge rules."@, "`src/lib.rs` exposes check, audit, and quality commands."@], seq!["SOURCECODE src/cli.rs"@, "SOURCECODE src/lib.rs"@, "SOURCECODE src/validate.rs"@], "5"@),
        example_node_spec("C:config_discovery"@, "Convention"@, "Config discovery"@, "`.kg.toml` is discovered in the current directory and parents."@, seq!["The config can define graph directories and defaults."@, "README documents git-friendly local graph storage."@], seq!["DOC README.md"@, "SOURCECODE src/config.rs"@], "4"@),
        example_node_spec("D:local_graph_files"@, "DataStore"@, "Local graph files"@, "Native graph files stored locally as readable `.kg` documents."@, seq!["The README recommends keeping `.kg` files in git."@, "Graph loading supports `.kg` text plus legacy JSON fallback."@], seq!["DOC README.md"@, "SOURCECODE src/graph.rs"@, "SOURCECODE src/storage.rs"@], "5"@),
        example_node_spec("D:event_log_snapshots"@, "DataStore"@, "Event log snapshots"@, "Append-only event log support for graph mutations."@, seq!["Mutating operations can be captured as snapshots."@, "The repo includes feedback and log workflows around this store."@], seq!["DOC README.md"@, "SOURCECODE src/event_log.rs"@, "SOURCECODE src/lib.rs"@], "3"@),
        example_node_spec("Z:native_kg_format"@, "Decision"@, "Native .kg format"@, "The repo prefers readable .kg files over JSON-only storage."@, seq!["README says .kg is git-friendly and diffable."@, "`src/graph.rs` still accepts legacy JSON payloads for migration."@], seq!["DOC README.md"@, "SOURCECODE src/graph.rs"@], "5"@),
        example_node_spec("R:grounded_facts_only"@, "Rule"@, "Grounded facts only"@, "Add only facts supported by docs, code, or current discussion."@, seq!["The build-graph docs explicitly prohibit speculation."@, "Ambiguous items should become notes or be skipped."@], seq!["DOC docs/ai-prompt-graph-from-docs.md"@, "DOC docs/build-graph-from-docs.md"@, "DOC README.md"@], "5"@),
        example_node_spec("R:stable_ids"@, "Rule"@, "Stable IDs"@, "Use canonical `<type>:<snake_case_name>` identifiers from day one."@, seq!["`src/validate.rs` maps node types to expected prefixes."@, "The docs recommend one canonical ID per concept."@], seq!["DOC docs/ai-prompt-graph-from-docs.md"@, "DOC docs/build-graph-from-docs.md"@, "SOURCECODE src/validate.rs"@], "5"@),
    ]
}

/// The edges of the example graph.
pub open spec fn example_edges_spec() -> Seq<EdgeV> {
    seq![
        example_edge_spec("^:graph_info"@, "USES"@, "K:kg_repo"@),
        example_edge_spec("K:graph_serialization"@, "DECIDED_BY"@, "Z:native_kg_format"@),
        example_edge_spec("K:kg_repo"@, "HAS"@, "F:persistent_memory"@),
        example_edge_spec("K:kg_repo"@, "HAS"@, "I:kg_cli"@),
        example_edge_spec("K:kg_repo"@, "HAS"@, "I:kg_mcp"@),
        example_edge_spec("K:kg_repo"@, "HAS"@, "K:graph_serialization"@),
        example_edge_spec("K:kg_repo"@, "HAS"@, "K:repo_scope"@),
        example_edge_spec("K:kg_repo"@, "AFFECTED_BY"@, "P:command_dispatch"@),
        example_edge_spec("K:kg_repo"@, "AFFECTED_BY"@, "P:graph_query"@),
        example_edge_spec("K:kg_repo"@, "AFFECTED_BY"@, "P:graph_mutation"@),
        example_edge_spec("K:kg_repo"@, "AFFECTED_BY"@, "P:quality_checks"@),
        example_edge_spec("I:kg_cli"@, "AFFECTED_BY"@, "P:command_dispatch"@),
        example_edge_spec("I:kg_mcp"@, "AFFECTED_BY"@, "P:graph_query"@),
        example_edge_spec("I:kg_mcp"@, "AFFECTED_BY"@, "P:graph_mutation"@),
        example_edge_spec("P:command_dispatch"@, "GOVERNED_BY"@, "C:config_discovery"@),
        example_edge_spec("P:graph_query"@, "READS_FROM"@, "D:local_graph_files"@),
        example_edge_spec("P:graph_mutation"@, "STORED_IN"@, "D:local_graph_files"@),
        example_edge_spec("P:graph_mutation"@, "AFFECTED_BY"@, "D:event_log_snapshots"@),
        example_edge_spec("P:graph_mutation"@, "GOVERNED_BY"@, "R:grounded_facts_only"@),
        example_edge_spec("P:quality_checks"@, "GOVERNED_BY"@, "R:stable_ids"@),
    ]
}

/// The example graph: named `repo-example`, version `1.0`, with its own
/// description, the example nodes and edges, no notes, and the counts of a
/// new graph.
pub open spec fn repo_example_spec() -> GraphV {
    let g = new_graph("repo-example"@);
    GraphV {
        metadata: MetadataV {
            description: "Auto-generated example graph for the kg repository"@,
            version: "1.0"@,
            ..g.metadata
        },
        nodes: example_nodes_spec(),
        edges: example_edges_spec(),
        ..g
    }
}

fn owned(s: &str) -> (r: String)
    ensures
        r@ == s@,
{
    string_of(chars_of(s).as_slice())
}

fn owned_all(v: Vec<&str>) -> (r: Vec<String>)
    ensures
        crate::sorting::views(r@) == str_views(v@),
{
    let mut out: Vec<String> = Vec::new();
    let mut i: usize = 0;
    while i < v.len()
        invariant
            i <= v.len(),
            out.len() == i,
            forall|j: int| 0 <= j < i ==> (#[trigger] out@[j])@ == v@[j]@,
        decreases v.len() - i,
    {
        out.push(owned(v[i]));
        i += 1;
    }
    assert(crate::sorting::views(out@) =~= str_views(v@));
    out
}

fn example_node(
    id: &str,
    node_type: &str,
    name: &str,
    description: &str,
    facts: Vec<&str>,
    sources: Vec<&str>,
    importance: &str,
) -> (r: Node)
    ensures
        r@ == example_node_spec(id@, node_type@, name@, description@, str_views(facts@), str_views(sources@), importance@),
{
    let mut properties = NodeProperties::new_default();
    properties.description = owned(description);
    properties.provenance = owned("A");
    properties.importance = owned(importance);
    properties.key_facts = owned_all(facts);
    Node { id: owned(id), node_type: owned(node_type), name: owned(name), properties, source_files: owned_all(sources) }
}

fn example_edge(source_id: &str, relation: &str, target_id: &str) -> (r: Edge)
    ensures
        r@ == example_edge_spec(source_id@, relation@, target_id@),
{
    Edge {
        source_id: owned(source_id),
        relation: owned(relation),
        target_id: owned(target_id),
        properties: EdgeProperties::new_default(),
    }
}

fn example_nodes() -> (r: Vec<Node>)
    ensures
        crate::sorting::views(r@) == example_nodes_spec(),
{
    let mut v: Vec<Node> = Vec::new();
    let n0 = example_node("^:graph_info", "^", "Graph Metadata", "Internal graph metadata for cross-graph linking.", vec!["graph_uuid=0123456789abcdef0123", "schema_version=2"], vec!["DOC .kg/internal/graph_info"], "1");
    assert(n0@ =~= example_nodes_spec()[0]);
    v.push(n0);
    let n1 = example_node("K:graph_serialization", "Concept", "Graph serialization", "Native .kg serialization plus import/export paths.", vec!["`src/graph.rs` parses and serializes the line-based .kg format.", "`src/export_html.rs` renders graph data for visualization."], vec!["SOURCECODE src/export_html.rs", "SOURCECODE src/graph.rs", "SOURCECODE src/import_csv.rs", "SOURCECODE src/import_markdown.rs"], "4");
    assert(n1@ =~= example_nodes_spec()[1]);
    v.push(n1);
    let n2 = example_node("K:kg_repo", "Concept", "kg repository", "Local knowledge-graph tooling for AI assistants.", vec!["Persistent project memory stored locally as readable .kg files."], vec!["DOC README.md", "DOC docs/build-graph-from-docs.md", "DOC docs/mcp.md"], "5");
    assert(n2@ =~= example_nodes_spec()[2]);
    v.push(n2);
    let n3 = example_node("K:repo_scope", "Concept", "Repository scope", "Compact graph slice covering the repo, not every file.", vec!["Grounded in the docs and code that describe repo workflows."], vec!["DOC README.md", "DOC docs/build-graph-from-docs.md"], "4");
    assert(n3@ =~= example_nodes_spec()[3]);
    v.push(n3);
    let n4 = example_node("F:persistent_memory", "Feature", "Persistent memory", "Stable project memory for AI assistants across sessions.", vec!["The README describes Git-friendly, structured memory."], vec!["DOC README.md"], "5");
    assert(n4@ =~= example_nodes_spec()[4]);
    v.push(n4);
    let n5 = example_node("I:kg_cli", "Interface", "kg CLI", "Command-line interface for creating, querying, and maintaining graphs.", vec!["`src/cli.rs` defines the main graph, node, edge, note, and export commands.", "`src/main.rs` delegates to `kg::run`."], vec!["SOURCECODE src/cli.rs", "SOURCECODE src/lib.rs", "SOURCECODE src/main.rs"], "5");
    assert(n5@ =~= example_nodes_spec()[5]);
    v.push(n5);
    let n6 = example_node("I:kg_mcp", "Interface", "kg-mcp", "Local stdio MCP server that exposes kg operations to AI clients.", vec!["README and `docs/mcp.md` document MCP client setup.", "`src/bin/kg-mcp.rs` implements the server entrypoint."], vec!["DOC README.md", "DOC docs/mcp.md", "SOURCECODE src/bin/kg-mcp.rs", "SOURCECODE src/lib.rs"], "5");
    assert(n6@ =~= example_nodes_spec()[6]);
    v.push(n6);
    let n7 = example_node("P:command_dispatch", "Process", "Command dispatch", "Routing CLI arguments into graph operations.", vec!["`src/lib.rs` wires the CLI parser to execution handlers.", "`src/main.rs` handles exit paths."], vec!["SOURCECODE src/cli.rs", "SOURCECODE src/lib.rs", "SOURCECODE src/main.rs"], "4");
    assert(n7@ =~= example_nodes_spec()[7]);
    v.push(n7);
    let n8 = example_node("P:graph_query", "Process", "Graph query", "Search, list, KQL, and inspection workflows.", vec!["Query rendering lives in `src/output.rs`.", "`src/cli.rs` exposes `node find`, `node get`, `list`, and `kql`."], vec!["SOURCECODE src/cli.rs", "SOURCECODE src/lib.rs", "SOURCECODE src/output.rs"], "5");
    assert(n8@ =~= example_nodes_spec()[8]);
    v.push(n8);
    let n9 = example_node("P:graph_mutation", "Process", "Graph mutation", "Node, edge, and note updates.", vec!["`src/app/graph_node_edge.rs` and `src/app/graph_note.rs` implement mutation flows.", "`src/graph.rs` persists graph updates with schema migration."], vec!["SOURCECODE src/app/graph_node_edge.rs", "SOURCECODE src/app/graph_note.rs", "SOURCECODE src/graph.rs", "SOURCECODE src/lib.rs"], "5");
    assert(n9@ =~= example_nodes_spec()[9]);
    v.push(n9);
    let n10 = example_node("P:quality_checks", "Process", "Quality checks", "Validation and quality reporting for graph content.", vec!["`src/validate.rs` defines allowed types, relations, and edge rules.", "`src/lib.rs` exposes check, audit, and quality commands."], vec!["SOURCECODE src/cli.rs", "SOURCECODE src/lib.rs", "SOURCECODE src/validate.rs"], "5");
    assert(n10@ =~= example_nodes_spec()[10]);
    v.push(n10);
    let n11 = example_node("C:config_discovery", "Convention", "Config discovery", "`.kg.toml` is discovered in the current directory and parents.", vec!["The config can define graph directories and defaults.", "README documents git-friendly local graph storage."], vec!["DOC README.md", "SOURCECODE src/config.rs"], "4");
    assert(n11@ =~= example_nodes_spec()[11]);
    v.push(n11);
    let n12 = example_node("D:local_graph_files", "DataStore", "Local graph files", "Native graph files stored locally as readable `.kg` documents.", vec!["The README recommends keeping `.kg` files in git.", "Graph loading supports `.kg` text plus legacy JSON fallback."], vec!["DOC README.md", "SOURCECODE src/graph.rs", "SOURCECODE src/storage.rs"], "5");
    assert(n12@ =~= example_nodes_spec()[12]);
    v.push(n12);
    let n13 = example_node("D:event_log_snapshots", "DataStore", "Event log snapshots", "Append-only event log support for graph mutations.", vec!["Mutating operations can be captured as snapshots.", "The repo includes feedback and log workflows around this store."], vec!["DOC README.md", "SOURCECODE src/event_log.rs", "SOURCECODE src/lib.rs"], "3");
    assert(n13@ =~= example_nodes_spec()[13]);
    v.push(n13);
    let n14 = example_node("Z:native_kg_format", "Decision", "Native .kg format", "The repo prefers readable .kg files over JSON-only storage.", vec!["README says .kg is git-friendly and diffable.", "`src/graph.rs` still accepts legacy JSON payloads for migration."], vec!["DOC README.md", "SOURCECODE src/graph.rs"], "5");
    assert(n14@ =~= example_nodes_spec()[14]);
    v.push(n14);
    let n15 = example_node("R:grounded_facts_only", "Rule", "Grounded facts only", "Add only facts supported by docs, code, or current discussion.", vec!["The build-graph docs explicitly prohibit speculation.", "Ambiguous items should become notes or be skipped."], vec!["DOC docs/ai-prompt-graph-from-docs.md", "DOC docs/build-graph-from-docs.md", "DOC README.md"], "5");
    assert(n15@ =~= example_nodes_spec()[15]);
    v.push(n15);
    let n16 = example_node("R:stable_ids", "Rule", "Stable IDs", "Use canonical `<type>:<snake_case_name>` identifiers from day one.", vec!["`src/validate.rs` maps node types to expected prefixes.", "The docs recommend one canonical ID per concept."], vec!["DOC docs/ai-prompt-graph-from-docs.md", "DOC docs/build-graph-from-docs.md", "SOURCECODE src/validate.rs"], "5");
    assert(n16@ =~= example_nodes_spec()[16]);
    v.push(n16);
    assert(crate::sorting::views(v@) =~= example_nodes_spec());
    v
}

fn example_edges() -> (r: Vec<Edge>)
    ensures
        crate::sorting::views(r@) == example_edges_spec(),
{
    let mut v: Vec<Edge> = Vec::new();
    v.push(example_edge("^:graph_info", "USES", "K:kg_repo"));
    v.push(example_edge("K:graph_serialization", "DECIDED_BY", "Z:native_kg_format"));
    v.push(example_edge("K:kg_repo", "HAS", "F:persistent_memory"));
    v.push(example_edge("K:kg_repo", "HAS", "I:kg_cli"));
    v.push(example_edge("K:kg_repo", "HAS", "I:kg_mcp"));
    v.push(example_edge("K:kg_repo", "HAS", "K:graph_serialization"));
    v.push(example_edge("K:kg_repo", "HAS", "K:repo_scope"));
    v.push(example_edge("K:kg_repo", "AFFECTED_BY", "P:command_dispatch"));
    v.push(example_edge("K:kg_repo", "AFFECTED_BY", "P:graph_query"));
    v.push(example_edge("K:kg_repo", "AFFECTED_BY", "P:graph_mutation"));
    v.push(example_edge("K:kg_repo", "AFFECTED_BY", "P:quality_checks"));
    v.push(example_edge("I:kg_cli", "AFFECTED_BY", "P:command_dispatch"));
    v.push(example_edge("I:kg_mcp", "AFFECTED_BY", "P:graph_query"));
    v.push(example_edge("I:kg_mcp", "AFFECTED_BY", "P:graph_mutation"));
    v.push(example_edge("P:command_dispatch", "GOVERNED_BY", "C:config_discovery"));
    v.push(example_edge("P:graph_query", "READS_FROM", "D:local_graph_files"));
    v.push(example_edge("P:graph_mutation", "STORED_IN", "D:local_graph_files"));
    v.push(example_edge("P:graph_mutation", "AFFECTED_BY", "D:event_log_snapshots"));
    v.push(example_edge("P:graph_mutation", "GOVERNED_BY", "R:grounded_facts_only"));
    v.push(example_edge("P:quality_checks", "GOVERNED_BY", "R:stable_ids"));
    assert(crate::sorting::views(v@) =~= example_edges_spec());
    v
}

/// The example graph of this repository, as [`repo_example_spec`] states.
pub fn repo_example_graph() -> (r: GraphFile)
    ensures
        r@ == repo_example_spec(),
{
    let mut graph = GraphFile::new("repo-example");
    graph.metadata.description = owned("Auto-generated example graph for the kg repository");
    graph.metadata.version = owned("1.0");
    graph.nodes = example_nodes();
    graph.edges = example_edges();
    graph
}

} // verus!
