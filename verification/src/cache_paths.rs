//! Where a graph's cache files live.
use vstd::prelude::*;
use crate::paths::{KgPath, PathV, join_spec, parent_spec, parse_spec};
use crate::sorting::views;
use crate::text::str_eq;

verus! {

/// The search for a `.kg/graphs` pair of components ending at or before
/// position `k` of `parts`: the path up to and including the `.kg`
/// component of the deepest such pair.
pub open spec fn kg_root_search(absolute: bool, parts: Seq<Seq<char>>, k: int) -> Option<PathV>
    decreases k,
{
    if k < 2 || k > parts.len() {
        None
    } else if parts[k - 1] == "graphs"@ && parts[k - 2] == ".kg"@ {
        Some(PathV { absolute, parts: parts.take(k - 1) })
    } else {
        kg_root_search(absolute, parts, k - 1)
    }
}

/// The project root of a graph stored under `<root>/graphs/`, where the
/// root directory is named `.kg`: the nearest ancestor directory named
/// `graphs` whose own parent is named `.kg`.
pub open spec fn detect_kg_root_spec(p: PathV) -> Option<PathV> {
    if p.parts.len() == 0 {
        None
    } else {
        kg_root_search(p.absolute, p.parts, p.parts.len() - 1)
    }
}

/// `<cwd>/.kg/cache`.
pub open spec fn cache_root_for_cwd_spec(cwd: PathV) -> PathV {
    join_spec(join_spec(cwd, parse_spec(".kg"@)), parse_spec("cache"@))
}

/// The cache directory of a graph: `<root>/cache` inside a `.kg` project,
/// else `.kg/cache` beside the graph file.
pub open spec fn cache_root_for_graph_spec(p: PathV) -> PathV {
    match detect_kg_root_spec(p) {
        Some(root) => join_spec(root, parse_spec("cache"@)),
        None => match parent_spec(p) {
            Some(dir) => cache_root_for_cwd_spec(dir),
            None => cache_root_for_cwd_spec(parse_spec(""@)),
        },
    }
}

/// The cache directory used when working in `cwd`.
pub fn cache_root_for_cwd(cwd: &KgPath) -> (r: KgPath)
    ensures
        r@ == cache_root_for_cwd_spec(cwd@),
{
    cwd.join_str(".kg").join_str("cache")
}

/// The cache directory of the graph stored at `graph_path`.
pub fn cache_root_for_graph(graph_path: &KgPath) -> (r: KgPath)
    ensures
        r@ == cache_root_for_graph_spec(graph_path@),
{
    if let Some(root) = detect_kg_root_for_graph(graph_path) {
        return root.join_str("cache");
    }
    match graph_path.parent() {
        Some(parent) => cache_root_for_cwd(&parent),
        None => cache_root_for_cwd(&KgPath::parse("")),
    }
}

/// The `.kg` directory that holds the graph, when the graph lies in its
/// `graphs` subdirectory.
pub fn detect_kg_root_for_graph(graph_path: &KgPath) -> (r: Option<KgPath>)
    ensures
        match detect_kg_root_spec(graph_path@) {
            Some(q) => r matches Some(t) && t@ == q,
            None => r is None,
        },
{
    let n = graph_path.parts.len();
    if n == 0 {
        return None;
    }
    let ghost pv = graph_path@;
    let mut k: usize = n - 1;
    while k >= 2
        invariant
            n == graph_path.parts.len(),
            n > 0,
            k <= n - 1,
            pv == graph_path@,
            kg_root_search(pv.absolute, pv.parts, n - 1) == kg_root_search(
                pv.absolute,
                pv.parts,
                k as int,
            ),
        decreases k,
    {
        proof {
            assert(pv.parts[k - 1] == graph_path.parts@[k - 1]@);
            assert(pv.parts[k - 2] == graph_path.parts@[k - 2]@);
        }
        if str_eq(graph_path.parts[k - 1].as_str(), "graphs") && str_eq(
            graph_path.parts[k - 2].as_str(),
            ".kg",
        ) {
            let mut parts: Vec<String> = Vec::new();
            let mut i: usize = 0;
            while i + 1 < k
                invariant
                    n == graph_path.parts.len(),
                    2 <= k <= n - 1,
                    i + 1 <= k,
                    views(parts@) == views(graph_path.parts@).take(i as int),
                decreases k - i,
            {
                let x = graph_path.parts[i].clone();
                let ghost before = views(parts@);
                parts.push(x);
                proof {
                    assert(views(parts@) =~= before.push(x@));
                    assert(views(graph_path.parts@).take(i + 1) =~= views(graph_path.parts@).take(
                        i as int,
                    ).push(views(graph_path.parts@)[i as int]));
                }
                i += 1;
            }
            return Some(KgPath { absolute: graph_path.absolute, parts });
        }
        k = k - 1;
    }
    None
}

} // verus!
