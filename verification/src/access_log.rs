//! The per-graph access log: which queries ran, with how many results and
//! how long they took.
use vstd::prelude::*;
use crate::cache_paths::{cache_root_for_graph, cache_root_for_graph_spec};
use crate::clock::{log_timestamp_from, log_timestamp_spec, unix_time_now};
use crate::paths::{
    KgPath, PathV, extension_spec, file_stem_spec, join_spec, parse_spec, with_extension_spec,
    with_file_name_spec,
};
use crate::text::{append_chars, append_str, chars_of, decimal, decimal_u128, decimal_usize, str_eq, string_of};

verus! {

/// One access: a search, or a fetch of one node.
pub struct AccessLogEntry {
    pub timestamp: String,
    pub query: String,
    pub results: usize,
    pub duration_ms: u128,
    /// The node fetched, for a fetch.
    pub node_get_id: Option<String>,
}

impl AccessLogEntry {
    /// A search that found `results` nodes, stamped with the current time.
    pub fn new(query: String, results: usize, duration_ms: u128) -> (r: AccessLogEntry)
        ensures
            r.query@ == query@,
            r.results == results,
            r.duration_ms == duration_ms,
            r.node_get_id is None,
            exists|secs: u64, millis: u32|
                millis < 1000 && r.timestamp@ == log_timestamp_spec(secs as nat, millis as nat),
    {
        let (secs, millis) = unix_time_now();
        AccessLogEntry {
            timestamp: log_timestamp_from(secs, millis),
            query,
            results,
            duration_ms,
            node_get_id: None,
        }
    }

    /// A fetch of node `id`, stamped with the current time.
    pub fn node_get(id: String, duration_ms: u128) -> (r: AccessLogEntry)
        ensures
            r.query@ == "GET "@ + id@,
            r.results == 1,
            r.duration_ms == duration_ms,
            r.node_get_id matches Some(n) && n@ == id@,
            exists|secs: u64, millis: u32|
                millis < 1000 && r.timestamp@ == log_timestamp_spec(secs as nat, millis as nat),
    {
        let (secs, millis) = unix_time_now();
        let mut q: Vec<char> = Vec::new();
        append_str(&mut q, "GET ");
        append_str(&mut q, id.as_str());
        AccessLogEntry {
            timestamp: log_timestamp_from(secs, millis),
            query: string_of(q.as_slice()),
            results: 1,
            duration_ms,
            node_get_id: Some(id),
        }
    }

    /// The tab-separated log line of this entry, ending in a newline.
    pub fn to_line(&self) -> (r: String)
        ensures
            r@ == match self.node_get_id {
                Some(id) => self.timestamp@ + "\tGET\t"@ + id@ + "\t1\t"@ + decimal(
                    self.duration_ms as nat,
                ) + "ms\n"@,
                None => self.timestamp@ + "\tFIND\t"@ + self.query@ + "\t"@ + decimal(
                    self.results as nat,
                ) + "\t"@ + decimal(self.duration_ms as nat) + "ms\n"@,
            },
    {
        let mut out: Vec<char> = Vec::new();
        append_str(&mut out, self.timestamp.as_str());
        let d = decimal_u128(self.duration_ms);
        match &self.node_get_id {
            Some(id) => {
                append_str(&mut out, "\tGET\t");
                append_str(&mut out, id.as_str());
                append_str(&mut out, "\t1\t");
                append_chars(&mut out, d.as_slice());
                append_str(&mut out, "ms\n");
            },
            None => {
                append_str(&mut out, "\tFIND\t");
                append_str(&mut out, self.query.as_str());
                append_str(&mut out, "\t");
                let n = decimal_usize(self.results);
                append_chars(&mut out, n.as_slice());
                append_str(&mut out, "\t");
                append_chars(&mut out, d.as_slice());
                append_str(&mut out, "ms\n");
            },
        }
        string_of(out.as_slice())
    }
}

/// `std::time::Instant`, a reading of a monotonic clock.
#[verifier::external_type_specification]
#[verifier::external_body]
pub struct ExInstant(std::time::Instant);

/// Measures how long an operation takes.
pub struct Timer {
    start: std::time::Instant,
}

impl Timer {
    /// A timer started now (`Instant::now`).  Nothing is stated of the
    /// reading: it comes from the machine's clock.
    #[verifier::external_body]
    pub fn new() -> (r: Timer) {
        Timer { start: std::time::Instant::now() }
    }

    /// Whole milliseconds since the timer started (`Instant::elapsed`, as
    /// milliseconds).  Nothing is stated of the value: it comes from the
    /// machine's clock.
    #[verifier::external_body]
    pub fn elapsed_ms(&self) -> (r: u128) {
        self.start.elapsed().as_millis()
    }
}

/// The file stem of a graph path, `graph` when it has none.
pub open spec fn stem_or_graph(g: PathV) -> Seq<char> {
    match file_stem_spec(g) {
        Some(s) => s,
        None => "graph"@,
    }
}

/// The extension of a graph path, `json` when it has none.
pub open spec fn ext_or_json(g: PathV) -> Seq<char> {
    match extension_spec(g) {
        Some(e) => e,
        None => "json"@,
    }
}

/// `<stem>.<ext><suffix>`: the name of a file kept for a graph.
pub open spec fn sidecar_name(g: PathV, suffix: Seq<char>) -> Seq<char> {
    stem_or_graph(g) + "."@ + ext_or_json(g) + suffix
}

/// A file kept for a graph in its cache directory.
pub open spec fn sidecar_path_spec(g: PathV, suffix: Seq<char>) -> PathV {
    join_spec(cache_root_for_graph_spec(g), parse_spec(sidecar_name(g, suffix)))
}

/// A file kept for a graph beside it, where older versions kept it.
pub open spec fn legacy_sidecar_path_spec(g: PathV, suffix: Seq<char>) -> PathV {
    with_file_name_spec(g, sidecar_name(g, suffix))
}

fn sidecar_name_exec(graph_path: &KgPath, suffix: &str) -> (r: String)
    ensures
        r@ == sidecar_name(graph_path@, suffix@),
{
    let mut out: Vec<char> = Vec::new();
    match graph_path.file_stem() {
        Some(s) => append_str(&mut out, s.as_str()),
        None => append_str(&mut out, "graph"),
    }
    append_str(&mut out, ".");
    match graph_path.extension() {
        Some(e) => append_str(&mut out, e.as_str()),
        None => append_str(&mut out, "json"),
    }
    append_str(&mut out, suffix);
    proof {
        assert(out@ =~= sidecar_name(graph_path@, suffix@));
    }
    string_of(out.as_slice())
}

/// The file `<stem>.<ext><suffix>` in the graph's cache directory.
pub fn sidecar_path(graph_path: &KgPath, suffix: &str) -> (r: KgPath)
    ensures
        r@ == sidecar_path_spec(graph_path@, suffix@),
{
    let name = sidecar_name_exec(graph_path, suffix);
    cache_root_for_graph(graph_path).join_str(name.as_str())
}

/// The file `<stem>.<ext><suffix>` beside the graph.
pub fn legacy_sidecar_path(graph_path: &KgPath, suffix: &str) -> (r: KgPath)
    ensures
        r@ == legacy_sidecar_path_spec(graph_path@, suffix@),
{
    let name = sidecar_name_exec(graph_path, suffix);
    graph_path.with_file_name(name.as_str())
}

/// Where the access log of a graph is written.
pub fn access_log_path(graph_path: &KgPath) -> (r: KgPath)
    ensures
        r@ == sidecar_path_spec(graph_path@, ".access.log"@),
{
    sidecar_path(graph_path, ".access.log")
}

/// Where older versions wrote the access log of a graph.
pub fn legacy_access_log_path(graph_path: &KgPath) -> (r: KgPath)
    ensures
        r@ == legacy_sidecar_path_spec(graph_path@, ".access.log"@),
{
    legacy_sidecar_path(graph_path, ".access.log")
}

/// The places an access log of a graph may be, in the order they are
/// tried: the current and the older place, then both for the same graph
/// under the other of the `kg` and `json` extensions.
pub open spec fn access_log_fallbacks_spec(g: PathV) -> Seq<PathV> {
    let own = seq![sidecar_path_spec(g, ".access.log"@), legacy_sidecar_path_spec(g, ".access.log"@)];
    if extension_spec(g) == Some("kg"@) {
        let o = with_extension_spec(g, "json"@);
        own + seq![sidecar_path_spec(o, ".access.log"@), legacy_sidecar_path_spec(o, ".access.log"@)]
    } else if extension_spec(g) == Some("json"@) {
        let o = with_extension_spec(g, "kg"@);
        own + seq![sidecar_path_spec(o, ".access.log"@), legacy_sidecar_path_spec(o, ".access.log"@)]
    } else {
        own
    }
}

/// The places an access log of a graph may be, in the order they are tried.
pub fn access_log_fallback_paths(graph_path: &KgPath) -> (r: Vec<KgPath>)
    ensures
        crate::sorting::views(r@) == access_log_fallbacks_spec(graph_path@),
{
    let mut paths: Vec<KgPath> = Vec::new();
    paths.push(access_log_path(graph_path));
    paths.push(legacy_access_log_path(graph_path));
    let ext = graph_path.extension();
    let other: Option<&str> = match &ext {
        Some(e) => if str_eq(e.as_str(), "kg") {
            Some("json")
        } else if str_eq(e.as_str(), "json") {
            Some("kg")
        } else {
            None
        },
        None => None,
    };
    if let Some(o) = other {
        let alt = graph_path.with_extension(o);
        paths.push(access_log_path(&alt));
        paths.push(legacy_access_log_path(&alt));
    }
    proof {
        let g = graph_path@;
        if extension_spec(g) == Some("kg"@) {
            assert(crate::sorting::views(paths@) =~= access_log_fallbacks_spec(g));
        } else if extension_spec(g) == Some("json"@) {
            assert(extension_spec(g) != Some("kg"@)) by {
                reveal_strlit("kg");
                reveal_strlit("json");
            }
            assert(crate::sorting::views(paths@) =~= access_log_fallbacks_spec(g));
        } else {
            assert(crate::sorting::views(paths@) =~= access_log_fallbacks_spec(g));
        }
    }
    paths
}

} // verus!
