//! The options of the command-line interface, as plain values.
//!
//! Each type holds what one command reads from its arguments; parsing the
//! command line into these values is left to the program around the
//! library.
use vstd::prelude::*;
use crate::graph_merge::MergeStrategy;
use crate::import_csv::{CsvImportArgs, CsvStrategy};

verus! {

/// `kg list`: list the known graphs.
pub struct ListGraphsArgs {
    /// Show the path of each graph.
    pub full: bool,
    pub json: bool,
}

/// `kg feedback-log`.
pub struct FeedbackLogArgs {
    /// At most this many entries (50 unless given).
    pub limit: usize,
    pub uid: Option<String>,
    pub graph: Option<String>,
}

/// `kg feedback-summary`.
pub struct FeedbackSummaryArgs {
    /// At most this many entries (30 unless given).
    pub limit: usize,
    pub graph: Option<String>,
}

/// Where past states of a graph are read from.
pub enum TemporalSource {
    Auto,
    Backups,
    EventLog,
}

/// The maintenance advice a cluster listing adds.
pub enum ClusterSkill {
    Gardener,
}

/// `kg <graph> clusters`.
pub struct ClustersArgs {
    /// At most this many clusters (10 unless given).
    pub limit: usize,
    pub json: bool,
    pub skill: Option<ClusterSkill>,
}

/// `kg <graph> import-csv`.
pub struct ImportCsvArgs {
    pub nodes: Option<String>,
    pub edges: Option<String>,
    pub notes: Option<String>,
    pub strategy: MergeStrategy,
}

/// `kg <graph> import-md`.
pub struct ImportMarkdownArgs {
    pub path: String,
    pub notes_as_nodes: bool,
    pub strategy: MergeStrategy,
}

/// `kg <graph> kql`.
pub struct KqlArgs {
    /// The query: `node type=X`, `neighbors id=X`, `path from=X to=Y`,
    /// `count type=X`.
    pub query: String,
    pub json: bool,
}

/// `kg <graph> export-json`.
pub struct ExportJsonArgs {
    pub output: Option<String>,
}

/// `kg <graph> import-json`.
pub struct ImportJsonArgs {
    pub input: String,
}

/// `kg <graph> export-dot`.
pub struct ExportDotArgs {
    pub output: Option<String>,
    pub focus: Option<String>,
    /// Neighbourhood depth around the focus (1 unless given).
    pub depth: usize,
    pub node_types: Vec<String>,
}

/// `kg <graph> export-mermaid`.
pub struct ExportMermaidArgs {
    pub output: Option<String>,
    pub focus: Option<String>,
    /// Neighbourhood depth around the focus (1 unless given).
    pub depth: usize,
    pub node_types: Vec<String>,
}

/// `kg <graph> export-graphml`.
pub struct ExportGraphmlArgs {
    pub output: Option<String>,
    pub focus: Option<String>,
    /// Neighbourhood depth around the focus (1 unless given).
    pub depth: usize,
    pub node_types: Vec<String>,
}

/// `kg <graph> export-md`.
pub struct ExportMdArgs {
    pub output: Option<String>,
    pub focus: Option<String>,
    /// Neighbourhood depth around the focus (1 unless given).
    pub depth: usize,
    pub node_types: Vec<String>,
}

/// `kg <graph> split`.
pub struct SplitArgs {
    pub output: Option<String>,
}

/// `kg <graph> vectors stats`.
pub struct VectorStatsArgs {}

/// `kg <graph> vectors import`.
pub struct VectorImportArgs {
    pub input: String,
}

/// `kg <graph> vectors`.
pub enum VectorCommand {
    Import(VectorImportArgs),
    Stats(VectorStatsArgs),
}

/// `kg <graph> as-of`.
pub struct AsOfArgs {
    pub ts_ms: u64,
    pub output: Option<String>,
    pub source: TemporalSource,
}

/// `kg <graph> history`.
pub struct HistoryArgs {
    /// At most this many entries (20 unless given).
    pub limit: usize,
    pub json: bool,
}

/// `kg <graph> timeline`.
pub struct TimelineArgs {
    /// At most this many entries (20 unless given).
    pub limit: usize,
    pub json: bool,
    pub since_ts_ms: Option<u64>,
    pub until_ts_ms: Option<u64>,
}

/// `kg <graph> diff-as-of`.
pub struct DiffAsOfArgs {
    pub from_ts_ms: u64,
    pub to_ts_ms: u64,
    pub source: TemporalSource,
    pub json: bool,
}

/// How `node find` ranks nodes.
pub enum FindMode {
    Fuzzy,
    Bm25,
    Hybrid,
    Vector,
}

/// `kg <graph> edge add`.
pub struct AddEdgeArgs {
    pub source_id: String,
    pub relation: String,
    pub target_id: String,
    /// Empty unless given.
    pub detail: String,
}

/// `kg <graph> edge add-batch`.
pub struct AddEdgeBatchArgs {
    /// A CSV file with the columns source_id, relation, target_id, detail.
    pub file: String,
}

/// `kg <graph> edge remove`.
pub struct RemoveEdgeArgs {
    pub source_id: String,
    pub relation: String,
    pub target_id: String,
}

/// `kg <graph> edge`.
pub enum EdgeCommand {
    Add(AddEdgeArgs),
    AddBatch(AddEdgeBatchArgs),
    Remove(RemoveEdgeArgs),
}

/// `kg <graph> note add`.
pub struct NoteAddArgs {
    pub node_id: String,
    pub text: String,
    pub tag: Vec<String>,
    pub author: Option<String>,
    pub created_at: Option<String>,
    pub provenance: Option<String>,
    pub source: Vec<String>,
    pub id: Option<String>,
}

/// `kg <graph> note list`.
pub struct NoteListArgs {
    pub node: Option<String>,
    /// At most this many notes (50 unless given).
    pub limit: usize,
}

/// `kg <graph> note`.
pub enum NoteCommand {
    Add(NoteAddArgs),
    List(NoteListArgs),
    Remove { id: String },
}

/// The order of the missing-facts report.
pub enum MissingFactsSort {
    Edges,
    Id,
}

/// `kg <graph> stats`.
pub struct StatsArgs {
    pub include_features: bool,
    pub by_type: bool,
    pub by_relation: bool,
    pub show_sources: bool,
}

/// `kg <graph> baseline`.
pub struct BaselineArgs {
    /// Results per query (5 unless given).
    pub find_limit: usize,
    pub include_features: bool,
    pub mode: FindMode,
    pub golden: Option<String>,
    pub json: bool,
}

/// `kg <graph> audit`.
pub struct AuditArgs {
    pub deep: bool,
    pub base_dir: Option<String>,
    pub errors_only: bool,
    pub warnings_only: bool,
    /// At most this many findings (50 unless given).
    pub limit: usize,
}

/// `kg <graph> check`.
pub struct CheckArgs {
    pub deep: bool,
    pub base_dir: Option<String>,
    pub errors_only: bool,
    pub warnings_only: bool,
    /// At most this many findings (50 unless given).
    pub limit: usize,
}

/// `kg <graph> quality missing-descriptions`.
pub struct MissingDescriptionsArgs {
    /// At most this many nodes (30 unless given).
    pub limit: usize,
    pub node_types: Vec<String>,
    pub include_features: bool,
    pub json: bool,
}

/// `kg <graph> quality missing-facts`.
pub struct MissingFactsArgs {
    /// At most this many nodes (30 unless given).
    pub limit: usize,
    pub node_types: Vec<String>,
    pub include_features: bool,
    pub sort: MissingFactsSort,
    pub json: bool,
}

/// `kg <graph> quality edge-gaps`.
pub struct EdgeGapsArgs {
    pub node_types: Vec<String>,
    pub relation: Option<String>,
    /// At most this many gaps (50 unless given).
    pub limit: usize,
    pub json: bool,
}

/// The import strategy a merge strategy stands for.
pub fn csv_strategy(strategy: &MergeStrategy) -> (r: CsvStrategy)
    ensures
        (r is PreferNew) == (*strategy is PreferNew),
{
    match strategy {
        MergeStrategy::PreferNew => CsvStrategy::PreferNew,
        MergeStrategy::PreferOld => CsvStrategy::PreferOld,
    }
}

/// The files and strategy of a CSV import command.
pub fn csv_import_args(args: &ImportCsvArgs) -> (r: CsvImportArgs)
    ensures
        crate::graph::opt_view(r.nodes_path) == crate::graph::opt_view(args.nodes),
        crate::graph::opt_view(r.edges_path) == crate::graph::opt_view(args.edges),
        crate::graph::opt_view(r.notes_path) == crate::graph::opt_view(args.notes),
        (r.strategy is PreferNew) == (args.strategy is PreferNew),
{
    CsvImportArgs {
        nodes_path: match &args.nodes {
            Some(p) => Some(p.clone()),
            None => None,
        },
        edges_path: match &args.edges {
            Some(p) => Some(p.clone()),
            None => None,
        },
        notes_path: match &args.notes {
            Some(p) => Some(p.clone()),
            None => None,
        },
        strategy: csv_strategy(&args.strategy),
    }
}

} // verus!
