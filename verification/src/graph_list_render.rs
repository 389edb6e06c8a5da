//! The listing of the graphs a store knows.
use vstd::prelude::*;
use crate::text::{append_chars, append_str, decimal, decimal_usize, string_of};

verus! {

/// One listing line after a newline: `- name`, with ` | path` when full.
pub open spec fn graph_entry_text(name: Seq<char>, path: Seq<char>, full: bool) -> Seq<char> {
    if full {
        "\n- "@ + name + " | "@ + path
    } else {
        "\n- "@ + name
    }
}

/// The listing lines of `graphs`, each after a newline.
pub open spec fn graph_entries_text(graphs: Seq<(Seq<char>, Seq<char>)>, full: bool) -> Seq<char>
    decreases graphs.len(),
{
    if graphs.len() == 0 {
        Seq::empty()
    } else {
        graph_entries_text(graphs.drop_last(), full) + graph_entry_text(
            graphs.last().0,
            graphs.last().1,
            full,
        )
    }
}

/// The value of a list of name and path texts.
pub open spec fn pairs_text(g: Seq<(String, String)>) -> Seq<(Seq<char>, Seq<char>)> {
    g.map_values(|e: (String, String)| (e.0@, e.1@))
}

/// The listing of graphs given by name and displayed path: a count line,
/// then one line per graph, each ended by a newline.
pub fn render_graph_list(graphs: &Vec<(String, String)>, full: bool) -> (r: String)
    ensures
        r@ == "= graphs ("@ + decimal(graphs.len() as nat) + ")"@ + graph_entries_text(
            pairs_text(graphs@),
            full,
        ) + "\n"@,
{
    let ghost gv = pairs_text(graphs@);
    let mut out: Vec<char> = Vec::new();
    append_str(&mut out, "= graphs (");
    let n = decimal_usize(graphs.len());
    append_chars(&mut out, n.as_slice());
    append_str(&mut out, ")");
    let ghost head = out@;
    let mut i: usize = 0;
    while i < graphs.len()
        invariant
            i <= graphs.len(),
            gv == pairs_text(graphs@),
            out@ == head + graph_entries_text(gv.take(i as int), full),
        decreases graphs.len() - i,
    {
        let ghost before = out@;
        append_str(&mut out, "\n- ");
        append_str(&mut out, graphs[i].0.as_str());
        if full {
            append_str(&mut out, " | ");
            append_str(&mut out, graphs[i].1.as_str());
        }
        proof {
            assert(gv.take(i + 1).drop_last() =~= gv.take(i as int));
            assert(gv.take(i + 1).last() == (graphs@[i as int].0@, graphs@[i as int].1@));
            assert(out@ =~= before + graph_entry_text(
                graphs@[i as int].0@,
                graphs@[i as int].1@,
                full,
            ));
        }
        i += 1;
    }
    proof {
        assert(gv.take(i as int) =~= gv);
    }
    append_str(&mut out, "\n");
    string_of(out.as_slice())
}

} // verus!
