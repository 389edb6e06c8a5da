use vstd::prelude::*;

pub mod text;
pub mod kg_codec;
pub mod sorting;
pub mod graph;
pub mod kg_parse;
pub mod kg_write;
pub mod kg_roundtrip;
pub mod paths;
pub mod cache_paths;
pub mod document_sections;
pub mod config;
pub mod clock;
pub mod access_log;
pub mod event_log;
pub mod graph_lock;
pub mod kg_sidecar;
pub mod init;
pub mod graph_list_render;
pub mod auto_update;
pub mod graph_merge;
pub mod import_csv;
pub mod cli;
pub mod graph_diff;
pub mod access_report;
pub mod kql;
pub mod mcp_script;
pub mod mcp_args;
pub mod mcp_text;
pub mod mcp_feedback;
pub mod analysis;
pub mod import_markdown;
pub mod graph_info;
pub mod node_detail;
pub mod annotate;
pub mod code_symbols;
pub mod export_html;
pub mod score_cache;
pub mod source_refs;
pub mod mcp_server;
pub mod generated_edits;
pub mod html_page;
pub mod mcp_session;
pub mod repo_example;
pub mod node_batch;
pub mod feedback_batch;
pub mod number_text;
pub mod node_edit;

verus! {

} // verus!
