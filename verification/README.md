# kg

`kg` keeps project knowledge as a graph stored in readable `.kg` text files:
nodes (concepts, processes, data stores, interfaces, rules, features,
decisions, conventions, notes, bugs), typed edges between them, and notes.

This crate is the verified core of that tool, written in Verus. The
functions under `src/` carry `requires`/`ensures` contracts that Verus
proves; the few that call the standard library or the `csv` crate for
what only they provide (the clock and timers, string lowercasing, hashing,
Unicode classes, `String::push`, reading CSV text) have contracts that are
stated, not proved. Some of the things it covers:

- the `.kg` format: the reader (`kg_parse`), the writer (`kg_write`,
  `number_text`), and the round trip between them (`kg_roundtrip`). Parsing
  what was written gives the graph back as the writer prints it (nodes,
  edges, notes and lists in the writer's order, numbers as printed) with
  fresh counts;
- queries (`kql`): filters, counts, neighbours, and shortest paths;
- graph diffs, merges, and CSV and Markdown imports;
- renaming nodes and reporting node changes (`node_edit`), and the node
  header index (`kg_sidecar`);
- quality reports and node details;
- the HTML export page (`export_html`, `html_page`);
- the generated part of a graph (`generated_edits`): edge index, renames,
  and removal of stale nodes;
- batches of new nodes (`node_batch`);
- tool-script sessions (`mcp_script`, `mcp_args`, `mcp_session`);
- feedback on search results (`mcp_feedback`, `feedback_batch`);
- dates, paths, config, access logs, and the example graph of the
  repository.

`app/` is a small command-line program around the library. It reads and
writes files, parses YAML front matter, compares and formats floating-point
values, and prints field-level differences through `serde_json`.
It also runs the loops whose outside work the library cannot do itself.

`tests/` holds the tests, which run against the compiled library.
