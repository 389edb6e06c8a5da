//! The getting-started texts printed by `kg init`.
use vstd::prelude::*;
use crate::text::{append_str, string_of};

verus! {

/// What `kg init` explains.
pub enum InitTarget {
    Cli,
    Mcp,
    Doc,
}

/// The options of `kg init`.
pub struct InitArgs {
    pub target: InitTarget,
    /// The MCP client to name, for the MCP text.
    pub client: Option<String>,
}

/// The command-line walkthrough.
pub open spec fn cli_text() -> Seq<char> {
    "# kg init: cli\n\n1) create graph\n   kg create <graph>\n\n2) add nodes and edges\n   kg <graph> node add concept:example --type Concept --name \"Example\" --source doc.md\n   kg <graph> edge add concept:example USES interface:example_api\n\n3) validate\n   kg <graph> check\n   kg <graph> stats --by-type --by-relation\n\n4) explore\n   kg <graph> node find <query>\n   kg <graph> node get <id>\n\nTip: run `kg init --target doc` for the doc->graph skill text.\n"@
}

/// The part of the MCP text after the header and the client line.
pub open spec fn mcp_body_text() -> Seq<char> {
    "Use the kg-mcp server to expose kg tools to your client.\n\nRecommended usage in LLM prompts:\n- Prefer the single `kg` tool for multi-command scripts.\n- Include feedback lines before new searches when possible.\n\nExample script:\n  uid=ab12cd YES; fridge node find \"smart fridge\"; fridge node get concept:refrigerator\n\nIf your client supports multiple tools, you can also call node/edge tools directly.\n"@
}

/// The MCP text, naming the client when one is given.
pub open spec fn mcp_text(client: Option<Seq<char>>) -> Seq<char> {
    let head = "# kg init: mcp\n\n"@;
    match client {
        Some(name) => head + "Client: "@ + name + "\n\n"@ + mcp_body_text(),
        None => head + mcp_body_text(),
    }
}

/// The document-to-graph pointer text.
pub open spec fn doc_text() -> Seq<char> {
    "# kg init: doc -> graph\n\nThe legacy bundled skill file was removed from the repository.\nUse docs in `docs/mcp.md` and `docs/node-and-edge-fields-reference.md`\nas the starting prompt/context for doc-to-graph extraction workflows.\n"@
}

fn render_cli() -> (r: String)
    ensures
        r@ == cli_text(),
{
    String::from_str(
        "# kg init: cli\n\n1) create graph\n   kg create <graph>\n\n2) add nodes and edges\n   kg <graph> node add concept:example --type Concept --name \"Example\" --source doc.md\n   kg <graph> edge add concept:example USES interface:example_api\n\n3) validate\n   kg <graph> check\n   kg <graph> stats --by-type --by-relation\n\n4) explore\n   kg <graph> node find <query>\n   kg <graph> node get <id>\n\nTip: run `kg init --target doc` for the doc->graph skill text.\n",
    )
}

fn render_mcp(client: Option<&str>) -> (r: String)
    ensures
        r@ == mcp_text(
            match client {
                Some(c) => Some(c@),
                None => None,
            },
        ),
{
    let mut out: Vec<char> = Vec::new();
    append_str(&mut out, "# kg init: mcp\n\n");
    if let Some(name) = client {
        append_str(&mut out, "Client: ");
        append_str(&mut out, name);
        append_str(&mut out, "\n\n");
    }
    append_str(
        &mut out,
        "Use the kg-mcp server to expose kg tools to your client.\n\nRecommended usage in LLM prompts:\n- Prefer the single `kg` tool for multi-command scripts.\n- Include feedback lines before new searches when possible.\n\nExample script:\n  uid=ab12cd YES; fridge node find \"smart fridge\"; fridge node get concept:refrigerator\n\nIf your client supports multiple tools, you can also call node/edge tools directly.\n",
    );
    proof {
        match client {
            Some(c) => {
                assert(out@ =~= mcp_text(Some(c@)));
            },
            None => {
                assert(out@ =~= mcp_text(None));
            },
        }
    }
    string_of(out.as_slice())
}

fn render_doc_skill() -> (r: String)
    ensures
        r@ == doc_text(),
{
    String::from_str(
        "# kg init: doc -> graph\n\nThe legacy bundled skill file was removed from the repository.\nUse docs in `docs/mcp.md` and `docs/node-and-edge-fields-reference.md`\nas the starting prompt/context for doc-to-graph extraction workflows.\n",
    )
}

/// The text `kg init` prints for the chosen target.
pub fn render_init(args: &InitArgs) -> (r: String)
    ensures
        r@ == match args.target {
            InitTarget::Cli => cli_text(),
            InitTarget::Mcp => mcp_text(
                match args.client {
                    Some(c) => Some(c@),
                    None => None,
                },
            ),
            InitTarget::Doc => doc_text(),
        },
{
    match args.target {
        InitTarget::Cli => render_cli(),
        InitTarget::Mcp => match &args.client {
            Some(c) => render_mcp(Some(c.as_str())),
            None => render_mcp(None),
        },
        InitTarget::Doc => render_doc_skill(),
    }
}

} // verus!
