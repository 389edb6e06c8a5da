//! Where the snapshot log of a graph is kept.
use vstd::prelude::*;
use crate::access_log::{
    legacy_sidecar_path, legacy_sidecar_path_spec, sidecar_path, sidecar_path_spec,
};
use crate::paths::KgPath;

verus! {

/// Where the event log of a graph is written.
pub fn event_log_path(graph_path: &KgPath) -> (r: KgPath)
    ensures
        r@ == sidecar_path_spec(graph_path@, ".event.log"@),
{
    sidecar_path(graph_path, ".event.log")
}

/// Where older versions wrote the event log of a graph.
pub fn legacy_event_log_path(graph_path: &KgPath) -> (r: KgPath)
    ensures
        r@ == legacy_sidecar_path_spec(graph_path@, ".event.log"@),
{
    legacy_sidecar_path(graph_path, ".event.log")
}

} // verus!
