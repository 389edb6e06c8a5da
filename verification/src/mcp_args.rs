//! Recognising the `node find` and `node get` commands of a tool script,
//! so that they can be answered directly: `<graph> node find <query>...
//! [--limit N] [--output-size N] [--mode M] [--full]` and `<graph> node get
//! <id> [--output-size N] [--full]`.
use vstd::prelude::*;
use crate::kql::{parse_usize, parse_usize_spec};
use crate::text::{append_chars, chars_of, starts_with_str, str_eq, string_of, strings_view};

verus! {

/// The options of a `node find` command.
#[derive(Debug)]
pub struct NodeFindArgs {
    pub graph: String,
    pub queries: Vec<String>,
    pub limit: Option<usize>,
    pub output_size: Option<usize>,
    pub mode: Option<String>,
    pub full: bool,
    pub skip_feedback: bool,
    pub debug: bool,
}

/// The options of a `node find` command, as values.
pub struct NodeFindArgsV {
    pub graph: Seq<char>,
    pub queries: Seq<Seq<char>>,
    pub limit: Option<usize>,
    pub output_size: Option<usize>,
    pub mode: Option<Seq<char>>,
    pub full: bool,
    pub skip_feedback: bool,
    pub debug: bool,
}

impl View for NodeFindArgs {
    type V = NodeFindArgsV;

    open spec fn view(&self) -> NodeFindArgsV {
        NodeFindArgsV {
            graph: self.graph@,
            queries: strings_view(self.queries@),
            limit: self.limit,
            output_size: self.output_size,
            mode: match self.mode {
                Some(m) => Some(m@),
                None => None,
            },
            full: self.full,
            skip_feedback: self.skip_feedback,
            debug: self.debug,
        }
    }
}

/// The options of a `node get` command.
#[derive(Debug)]
pub struct NodeGetArgs {
    pub graph: String,
    pub id: String,
    pub output_size: Option<usize>,
    pub full: bool,
    pub debug: bool,
}

/// The options of a `node get` command, as values.
pub struct NodeGetArgsV {
    pub graph: Seq<char>,
    pub id: Seq<char>,
    pub output_size: Option<usize>,
    pub full: bool,
    pub debug: bool,
}

impl View for NodeGetArgs {
    type V = NodeGetArgsV;

    open spec fn view(&self) -> NodeGetArgsV {
        NodeGetArgsV {
            graph: self.graph@,
            id: self.id@,
            output_size: self.output_size,
            full: self.full,
            debug: self.debug,
        }
    }
}

// ---------------------------------------------------------------------------
// node find
// ---------------------------------------------------------------------------

/// The options before any argument after `node find` is read.
pub open spec fn find_start(graph: Seq<char>) -> NodeFindArgsV {
    NodeFindArgsV {
        graph: graph,
        queries: Seq::empty(),
        limit: None,
        output_size: None,
        mode: None,
        full: false,
        skip_feedback: false,
        debug: false,
    }
}

/// Reads the arguments from position `i` on: the options, each query
/// word, or the first error.
pub open spec fn find_opts(args: Seq<Seq<char>>, i: int, acc: NodeFindArgsV) -> Result<
    NodeFindArgsV,
    Seq<char>,
>
    decreases args.len() - i,
{
    if i < 0 || i >= args.len() {
        Ok(acc)
    } else {
        let t = args[i];
        if t == "--limit"@ {
            if i + 1 >= args.len() {
                Err("missing value for --limit"@)
            } else {
                match parse_usize_spec(args[i + 1]) {
                    Some(n) => find_opts(args, i + 2, NodeFindArgsV { limit: Some(n), ..acc }),
                    None => Err("invalid value for --limit"@),
                }
            }
        } else if t == "--output-size"@ {
            if i + 1 >= args.len() {
                Err("missing value for --output-size"@)
            } else {
                match parse_usize_spec(args[i + 1]) {
                    Some(n) => find_opts(
                        args,
                        i + 2,
                        NodeFindArgsV { output_size: Some(n), ..acc },
                    ),
                    None => Err("invalid value for --output-size"@),
                }
            }
        } else if t == "--mode"@ {
            if i + 1 >= args.len() {
                Err("missing value for --mode"@)
            } else {
                find_opts(args, i + 2, NodeFindArgsV { mode: Some(args[i + 1]), ..acc })
            }
        } else if t == "--full"@ {
            find_opts(args, i + 1, NodeFindArgsV { full: true, ..acc })
        } else if "--"@.is_prefix_of(t) {
            Err("unknown option: "@ + t)
        } else {
            find_opts(args, i + 1, NodeFindArgsV { queries: acc.queries.push(t), ..acc })
        }
    }
}

/// `None` when the words are not a `node find` command; otherwise its
/// options, or the error in them.
pub open spec fn node_find_spec(args: Seq<Seq<char>>) -> Option<Result<NodeFindArgsV, Seq<char>>> {
    if args.len() < 3 {
        None
    } else if args[1] != "node"@ || args[2] != "find"@ {
        None
    } else if args.len() < 4 {
        Some(Err("missing query"@))
    } else {
        match find_opts(args, 3, find_start(args[0])) {
            Err(e) => Some(Err(e)),
            Ok(a) => if a.queries.len() == 0 {
                Some(Err("missing query"@))
            } else {
                Some(Ok(a))
            },
        }
    }
}

/// The error text `<prefix><token>`.
fn message_with(prefix: &str, token: &String) -> (r: String)
    ensures
        r@ == prefix@ + token@,
{
    let mut out = chars_of(prefix);
    let t = chars_of(token.as_str());
    append_chars(&mut out, t.as_slice());
    string_of(out.as_slice())
}

fn text(s: &str) -> (r: String)
    ensures
        r@ == s@,
{
    string_of(chars_of(s).as_slice())
}

fn clone_string(s: &String) -> (r: String)
    ensures
        r@ == s@,
{
    string_of(chars_of(s.as_str()).as_slice())
}

/// Reads a `node find` command: `None` when the words are something else,
/// otherwise the options or the first error, as [`node_find_spec`] states.
pub fn parse_node_find_args(args: &[String]) -> (r: Option<Result<NodeFindArgs, String>>)
    ensures
        match r {
            None => node_find_spec(strings_view(args@)) is None,
            Some(Ok(a)) => node_find_spec(strings_view(args@)) == Some(
                Ok::<NodeFindArgsV, Seq<char>>(a@),
            ),
            Some(Err(e)) => node_find_spec(strings_view(args@)) == Some(
                Err::<NodeFindArgsV, Seq<char>>(e@),
            ),
        },
{
    let ghost sv = strings_view(args@);
    if args.len() < 3 {
        return None;
    }
    if !str_eq(args[1].as_str(), "node") || !str_eq(args[2].as_str(), "find") {
        return None;
    }
    if args.len() < 4 {
        return Some(Err(text("missing query")));
    }
    let mut acc = NodeFindArgs {
        graph: clone_string(&args[0]),
        queries: Vec::new(),
        limit: None,
        output_size: None,
        mode: None,
        full: false,
        skip_feedback: false,
        debug: false,
    };
    proof {
        assert(strings_view(acc.queries@) =~= Seq::<Seq<char>>::empty());
        assert(acc@ == find_start(sv[0]));
    }
    let mut i: usize = 3;
    while i < args.len()
        invariant
            3 <= i <= args.len(),
            sv == strings_view(args@),
            sv.len() == args.len(),
            sv[1] == "node"@,
            sv[2] == "find"@,
            find_opts(sv, 3, find_start(sv[0])) == find_opts(sv, i as int, acc@),
        decreases args.len() - i,
    {
        let token = &args[i];
        assert(sv[i as int] == token@);
        if str_eq(token.as_str(), "--limit") {
            i += 1;
            if i >= args.len() {
                return Some(Err(text("missing value for --limit")));
            }
            assert(sv[i as int] == args[i as int]@);
            let value = chars_of(args[i].as_str());
            match parse_usize(value.as_slice()) {
                Some(n) => acc.limit = Some(n),
                None => return Some(Err(text("invalid value for --limit"))),
            }
            i += 1;
            continue;
        }
        if str_eq(token.as_str(), "--output-size") {
            i += 1;
            if i >= args.len() {
                return Some(Err(text("missing value for --output-size")));
            }
            assert(sv[i as int] == args[i as int]@);
            let value = chars_of(args[i].as_str());
            match parse_usize(value.as_slice()) {
                Some(n) => acc.output_size = Some(n),
                None => return Some(Err(text("invalid value for --output-size"))),
            }
            i += 1;
            continue;
        }
        if str_eq(token.as_str(), "--mode") {
            i += 1;
            if i >= args.len() {
                return Some(Err(text("missing value for --mode")));
            }
            assert(sv[i as int] == args[i as int]@);
            acc.mode = Some(clone_string(&args[i]));
            i += 1;
            continue;
        }
        if str_eq(token.as_str(), "--full") {
            acc.full = true;
            i += 1;
            continue;
        }
        let tc = chars_of(token.as_str());
        if starts_with_str(tc.as_slice(), "--") {
            return Some(Err(message_with("unknown option: ", token)));
        }
        let ghost before = strings_view(acc.queries@);
        let q = clone_string(token);
        acc.queries.push(q);
        assert(strings_view(acc.queries@) =~= before.push(token@));
        i += 1;
    }
    if acc.queries.len() == 0 {
        return Some(Err(text("missing query")));
    }
    Some(Ok(acc))
}

// ---------------------------------------------------------------------------
// node get
// ---------------------------------------------------------------------------

/// Reads the arguments after the node id from position `i` on.
pub open spec fn get_opts(args: Seq<Seq<char>>, i: int, acc: NodeGetArgsV) -> Result<
    NodeGetArgsV,
    Seq<char>,
>
    decreases args.len() - i,
{
    if i < 0 || i >= args.len() {
        Ok(acc)
    } else {
        let t = args[i];
        if t == "--output-size"@ {
            if i + 1 >= args.len() {
                Err("missing value for --output-size"@)
            } else {
                match parse_usize_spec(args[i + 1]) {
                    Some(n) => get_opts(args, i + 2, NodeGetArgsV { output_size: Some(n), ..acc }),
                    None => Err("invalid value for --output-size"@),
                }
            }
        } else if t == "--full"@ {
            get_opts(args, i + 1, NodeGetArgsV { full: true, ..acc })
        } else if "--"@.is_prefix_of(t) {
            Err("unknown option: "@ + t)
        } else {
            Err("unexpected argument: "@ + t)
        }
    }
}

/// `None` when the words are not a `node get` command; otherwise its
/// options, or the error in them.
pub open spec fn node_get_spec(args: Seq<Seq<char>>) -> Option<Result<NodeGetArgsV, Seq<char>>> {
    if args.len() < 4 {
        None
    } else if args[1] != "node"@ || args[2] != "get"@ {
        None
    } else if args[3].len() == 0 {
        Some(Err("missing node id"@))
    } else {
        match get_opts(
            args,
            4,
            NodeGetArgsV {
                graph: args[0],
                id: args[3],
                output_size: None,
                full: false,
                debug: false,
            },
        ) {
            Err(e) => Some(Err(e)),
            Ok(a) => Some(Ok(a)),
        }
    }
}

/// Reads a `node get` command: `None` when the words are something else,
/// otherwise the options or the first error, as [`node_get_spec`] states.
pub fn parse_node_get_args(args: &[String]) -> (r: Option<Result<NodeGetArgs, String>>)
    ensures
        match r {
            None => node_get_spec(strings_view(args@)) is None,
            Some(Ok(a)) => node_get_spec(strings_view(args@)) == Some(
                Ok::<NodeGetArgsV, Seq<char>>(a@),
            ),
            Some(Err(e)) => node_get_spec(strings_view(args@)) == Some(
                Err::<NodeGetArgsV, Seq<char>>(e@),
            ),
        },
{
    let ghost sv = strings_view(args@);
    if args.len() < 4 {
        return None;
    }
    if !str_eq(args[1].as_str(), "node") || !str_eq(args[2].as_str(), "get") {
        return None;
    }
    assert(sv[3] == args[3]@);
    if args[3].as_str().unicode_len() == 0 {
        return Some(Err(text("missing node id")));
    }
    let mut acc = NodeGetArgs {
        graph: clone_string(&args[0]),
        id: clone_string(&args[3]),
        output_size: None,
        full: false,
        debug: false,
    };
    let mut i: usize = 4;
    while i < args.len()
        invariant
            4 <= i <= args.len(),
            sv == strings_view(args@),
            sv.len() == args.len(),
            sv[1] == "node"@,
            sv[2] == "get"@,
            sv[3].len() > 0,
            get_opts(
                sv,
                4,
                NodeGetArgsV {
                    graph: sv[0],
                    id: sv[3],
                    output_size: None,
                    full: false,
                    debug: false,
                },
            ) == get_opts(sv, i as int, acc@),
        decreases args.len() - i,
    {
        let token = &args[i];
        assert(sv[i as int] == token@);
        if str_eq(token.as_str(), "--output-size") {
            i += 1;
            if i >= args.len() {
                return Some(Err(text("missing value for --output-size")));
            }
            assert(sv[i as int] == args[i as int]@);
            let value = chars_of(args[i].as_str());
            match parse_usize(value.as_slice()) {
                Some(n) => acc.output_size = Some(n),
                None => return Some(Err(text("invalid value for --output-size"))),
            }
            i += 1;
            continue;
        }
        if str_eq(token.as_str(), "--full") {
            acc.full = true;
            i += 1;
            continue;
        }
        let tc = chars_of(token.as_str());
        if starts_with_str(tc.as_slice(), "--") {
            return Some(Err(message_with("unknown option: ", token)));
        }
        return Some(Err(message_with("unexpected argument: ", token)));
    }
    Some(Ok(acc))
}

} // verus!
