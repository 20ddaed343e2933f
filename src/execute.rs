//! Dispatch: match the tokens of an input against the tree, bind the
//! arguments along the way, and run the executor where the tokens end.

use vstd::prelude::*;

use crate::context::{BindingView, CommandContext, Value, ValueView};
use crate::json::{accepts_number, json_bool, json_i32, json_i64, json_number_accepted, parse_bool, parse_i32, parse_i64};
use crate::text::{eq_ci, eq_ignore_ascii_case, has_no_ws, lemma_tokens_no_ws, split_ascii_whitespace, tokens};
use crate::tree::{tree_wf, CommandTree, NodeData, NodeDataView, Parser, TreeView};

verus! {

/// Dispatch gives up once this many tokens have been matched and more
/// remain: a deeper path can only come from a malformed tree.
pub const MAX_DEPTH: usize = 64;

/// What `parser` reads from the token `tok`, if it accepts it.
pub open spec fn parse_token(parser: Parser, tok: Seq<char>) -> Option<ValueView> {
    match parser {
        Parser::String => Some(ValueView::Text(tok)),
        Parser::Bool => match json_bool(tok) {
            Some(b) => Some(ValueView::Bool(b)),
            None => None,
        },
        Parser::Integer { .. } => match json_i32(tok) {
            Some(n) => Some(ValueView::Int(n)),
            None => None,
        },
        Parser::Long { .. } => match json_i64(tok) {
            Some(n) => Some(ValueView::Long(n)),
            None => None,
        },
        Parser::Float => if json_number_accepted(tok) {
            Some(ValueView::Float(tok))
        } else {
            None
        },
        Parser::Double => if json_number_accepted(tok) {
            Some(ValueView::Double(tok))
        } else {
            None
        },
        Parser::Unsupported { .. } => None,
    }
}

/// The first of `kids`, from position `k` on, that is a literal equal to
/// `tok` up to ASCII case.
pub open spec fn first_literal<H>(t: TreeView<H>, kids: Seq<usize>, tok: Seq<char>, k: int) -> Option<
    usize,
>
    decreases kids.len() - k,
{
    if k < 0 || k >= kids.len() {
        None
    } else if t[kids[k] as int].data matches NodeDataView::Literal { name } && eq_ci(name, tok) {
        Some(kids[k])
    } else {
        first_literal(t, kids, tok, k + 1)
    }
}

/// The first of `kids`, from position `k` on, that is an argument whose
/// parser accepts `tok`, with the binding it makes.
pub open spec fn first_argument<H>(t: TreeView<H>, kids: Seq<usize>, tok: Seq<char>, k: int) -> Option<
    (usize, BindingView),
>
    decreases kids.len() - k,
{
    if k < 0 || k >= kids.len() {
        None
    } else {
        match t[kids[k] as int].data {
            NodeDataView::Argument { name, parser } => match parse_token(parser, tok) {
                Some(v) => Some((kids[k], BindingView { name, value: v })),
                None => first_argument(t, kids, tok, k + 1),
            },
            _ => first_argument(t, kids, tok, k + 1),
        }
    }
}

/// The child of `n` that `tok` leads to, with the binding it makes: a
/// matching literal comes first, then an argument whose parser accepts it.
pub open spec fn step<H>(t: TreeView<H>, n: int, tok: Seq<char>) -> Option<(usize, Seq<BindingView>)> {
    match first_literal(t, t[n].children, tok, 0) {
        Some(c) => Some((c, seq![])),
        None => match first_argument(t, t[n].children, tok, 0) {
            Some((c, b)) => Some((c, seq![b])),
            None => None,
        },
    }
}

/// How matching the tokens ends.
pub enum Resolution {
    /// The tokens lead along `path` to `node`, which has an executor.
    Found { node: usize, path: Seq<usize>, bindings: Seq<BindingView> },
    /// No child of `at` matches `token`.
    NoMatchingChild { at: usize, token: Seq<char> },
    /// The tokens end at `at`, which has no executor.
    NoHandlerAtPath { at: usize },
    /// More than `MAX_DEPTH` tokens would have to be matched.
    DepthExceeded,
}

/// Matching `toks[i..]` from node `n`, with `path` visited and `bs` bound
/// so far.
pub open spec fn walk<H>(
    t: TreeView<H>,
    n: int,
    toks: Seq<Seq<char>>,
    i: int,
    path: Seq<usize>,
    bs: Seq<BindingView>,
) -> Resolution
    decreases toks.len() - i,
{
    if i >= toks.len() {
        if t[n].executor is Some {
            Resolution::Found { node: n as usize, path, bindings: bs }
        } else {
            Resolution::NoHandlerAtPath { at: n as usize }
        }
    } else if i >= MAX_DEPTH {
        Resolution::DepthExceeded
    } else {
        match step(t, n, toks[i]) {
            None => Resolution::NoMatchingChild { at: n as usize, token: toks[i] },
            Some((c, b)) => walk(t, c as int, toks, i + 1, path.push(c), bs + b),
        }
    }
}

/// How matching `input` against `t` ends, from the root.
pub open spec fn resolve_spec<H>(t: TreeView<H>, input: Seq<char>) -> Resolution {
    walk(t, 0, tokens(input), 0, seq![], seq![])
}

/// Why a dispatch failed.
#[derive(Debug, Clone, PartialEq, Eq)]
pub enum DispatchError {
    /// No child of node `at` matches `token`.
    NoMatchingChild { at: usize, token: String },
    /// The input ends at node `at`, which has no executor.
    NoHandlerAtPath { at: usize },
    /// The input is deeper than `MAX_DEPTH`.
    DepthExceeded,
}

/// A successful match: the node reached, the nodes visited after the root,
/// and the values bound.
pub struct Resolved {
    pub node: usize,
    pub path: Vec<usize>,
    pub context: CommandContext,
}

/// The result of `resolve` agrees with the resolution `s`.
pub open spec fn resolved_as(r: Result<Resolved, DispatchError>, s: Resolution) -> bool {
    match s {
        Resolution::Found { node, path, bindings } => r matches Ok(x) && x.node == node
            && x.path@ == path && x.context@ == bindings,
        Resolution::NoMatchingChild { at, token } => r matches Err(
            DispatchError::NoMatchingChild { at: a, token: tk },
        ) && a == at && tk@ == token,
        Resolution::NoHandlerAtPath { at } => r matches Err(DispatchError::NoHandlerAtPath { at: a })
            && a == at,
        Resolution::DepthExceeded => r matches Err(DispatchError::DepthExceeded),
    }
}

/// Reads `tok` with `parser`.
pub fn read_token(parser: Parser, tok: &str) -> (r: Option<Value>)
    requires
        has_no_ws(tok@),
    ensures
        r matches Some(v) ==> parse_token(parser, tok@) == Some(v@),
        r is None ==> parse_token(parser, tok@) is None,
{
    match parser {
        Parser::String => Some(Value::Text(tok.to_string())),
        Parser::Bool => match parse_bool(tok) {
            Some(b) => Some(Value::Bool(b)),
            None => None,
        },
        Parser::Integer { .. } => match parse_i32(tok) {
            Some(n) => Some(Value::Int(n)),
            None => None,
        },
        Parser::Long { .. } => match parse_i64(tok) {
            Some(n) => Some(Value::Long(n)),
            None => None,
        },
        Parser::Float => if accepts_number(tok) {
            Some(Value::Float(tok.to_string()))
        } else {
            None
        },
        Parser::Double => if accepts_number(tok) {
            Some(Value::Double(tok.to_string()))
        } else {
            None
        },
        Parser::Unsupported { .. } => None,
    }
}

/// The first child of node `n` that is a literal equal to `tok` up to
/// ASCII case.
fn find_literal<H>(tree: &CommandTree<H>, n: usize, tok: &str) -> (r: Option<usize>)
    requires
        tree.wf(),
        n < tree@.len(),
    ensures
        r == first_literal(tree@, tree@[n as int].children, tok@, 0),
{
    let node = tree.node(n);
    let count = node.children.len();
    let mut k: usize = 0;
    while k < count
        invariant
            tree.wf(),
            n < tree@.len(),
            node@ == tree@[n as int],
            count == node.children@.len(),
            k <= count,
            first_literal(tree@, tree@[n as int].children, tok@, 0) == first_literal(
                tree@,
                tree@[n as int].children,
                tok@,
                k as int,
            ),
        decreases count - k,
    {
        let c = node.children[k];
        proof {
            assert(tree_wf(tree@));
            assert(tree@[n as int].children[k as int] == c);
        }
        let child = tree.node(c);
        match &child.structure.data {
            NodeData::Literal { name } => {
                if eq_ignore_ascii_case(name.as_str(), tok) {
                    return Some(c);
                }
            },
            _ => {},
        }
        k += 1;
    }
    None
}

/// The first child of node `n` that is an argument whose parser accepts
/// `tok`, with the name and value it binds.
fn find_argument<H>(tree: &CommandTree<H>, n: usize, tok: &str) -> (r: Option<(usize, String, Value)>)
    requires
        tree.wf(),
        n < tree@.len(),
        has_no_ws(tok@),
    ensures
        r matches Some((c, name, v)) ==> first_argument(tree@, tree@[n as int].children, tok@, 0)
            == Some((c, BindingView { name: name@, value: v@ })),
        r is None ==> first_argument(tree@, tree@[n as int].children, tok@, 0) is None,
{
    let node = tree.node(n);
    let count = node.children.len();
    let mut k: usize = 0;
    while k < count
        invariant
            tree.wf(),
            n < tree@.len(),
            has_no_ws(tok@),
            node@ == tree@[n as int],
            count == node.children@.len(),
            k <= count,
            first_argument(tree@, tree@[n as int].children, tok@, 0) == first_argument(
                tree@,
                tree@[n as int].children,
                tok@,
                k as int,
            ),
        decreases count - k,
    {
        let c = node.children[k];
        proof {
            assert(tree_wf(tree@));
            assert(tree@[n as int].children[k as int] == c);
        }
        let child = tree.node(c);
        match &child.structure.data {
            NodeData::Argument { name, parser } => {
                match read_token(*parser, tok) {
                    Some(v) => {
                        return Some((c, name.clone(), v));
                    },
                    None => {},
                }
            },
            _ => {},
        }
        k += 1;
    }
    None
}

/// Matches the tokens of `input` against `tree` from the root. At each
/// node the next token goes to the first child that is a literal equal to
/// it up to ASCII case; failing that, to the first argument child whose
/// parser accepts it, which binds the value read. The match succeeds where
/// the tokens end at a node with an executor.
pub fn resolve<H>(tree: &CommandTree<H>, input: &str) -> (r: Result<Resolved, DispatchError>)
    requires
        tree.wf(),
    ensures
        resolved_as(r, resolve_spec(tree@, input@)),
        r matches Ok(x) ==> x.node < tree@.len() && tree@[x.node as int].executor is Some,
{
    let toks = split_ascii_whitespace(input);
    let ghost ts = tokens(input@);
    proof {
        lemma_tokens_no_ws(input@);
        assert(seq![] + seq![] =~= Seq::<BindingView>::empty());
    }
    let mut n: usize = 0;
    let mut i: usize = 0;
    let mut path: Vec<usize> = Vec::new();
    let mut context = CommandContext::new();
    loop
        invariant
            tree.wf(),
            n < tree@.len(),
            toks@.len() == ts.len(),
            forall|k: int| 0 <= k < toks@.len() ==> #[trigger] toks@[k]@ == ts[k],
            forall|k: int| 0 <= k < ts.len() ==> has_no_ws(#[trigger] ts[k]),
            ts == tokens(input@),
            i <= ts.len(),
            i <= MAX_DEPTH,
            context@.len() <= i,
            path@.len() == i,
            resolve_spec(tree@, input@) == walk(tree@, n as int, ts, i as int, path@, context@),
        decreases ts.len() - i,
    {
        if i >= toks.len() {
            let node = tree.node(n);
            if node.executor.is_some() {
                return Ok(Resolved { node: n, path, context });
            } else {
                return Err(DispatchError::NoHandlerAtPath { at: n });
            }
        }
        if i >= MAX_DEPTH {
            return Err(DispatchError::DepthExceeded);
        }
        let tok = toks[i];
        assert(tok@ == ts[i as int]);
        let ghost bs = context@;
        match find_literal(tree, n, tok) {
            Some(c) => {
                proof {
                    lemma_first_literal_is(tree@, tree@[n as int].children, tok@, 0);
                    assert(bs + seq![] =~= bs);
                }
                n = c;
                path.push(c);
            },
            None => match find_argument(tree, n, tok) {
                Some((c, name, v)) => {
                    proof {
                        lemma_first_argument_is(tree@, tree@[n as int].children, tok@, 0);
                        assert(bs + seq![BindingView { name: name@, value: v@ }] =~= bs.push(
                            BindingView { name: name@, value: v@ },
                        ));
                    }
                    let pushed = context.push(name, v);
                    assert(pushed is Ok);
                    n = c;
                    path.push(c);
                },
                None => {
                    return Err(DispatchError::NoMatchingChild { at: n, token: tok.to_string() });
                },
            },
        }
        i += 1;
    }
}

/// Matches `input` against `tree` as `resolve` does and, on success, runs
/// `run` on the executor of the node reached and the values bound, and
/// returns what it returns. The executor runs at most once, and only on a
/// complete match.
pub fn execute<H, R, F: FnOnce(&H, &CommandContext) -> R>(
    tree: &CommandTree<H>,
    input: &str,
    run: F,
) -> (r: Result<R, DispatchError>)
    requires
        tree.wf(),
        forall|h: &H, c: &CommandContext| call_requires(run, (h, c)),
    ensures
        resolve_spec(tree@, input@) matches Resolution::Found { node, path, bindings } ==> (
        r matches Ok(x) && exists|c: CommandContext|
            c@ == bindings && call_ensures(run, (&tree@[node as int].executor->Some_0, &c), x)),
        !(resolve_spec(tree@, input@) is Found) ==> (r matches Err(e) && resolved_as(
            Err(e),
            resolve_spec(tree@, input@),
        )),
{
    match resolve(tree, input) {
        Ok(res) => {
            let node = tree.node(res.node);
            match &node.executor {
                Some(h) => Ok(run(h, &res.context)),
                None => Err(DispatchError::NoHandlerAtPath { at: res.node }),
            }
        },
        Err(e) => Err(e),
    }
}

/// Node `c` accepts the token `tok`: a literal equal to it up to ASCII
/// case, or an argument whose parser reads it.
pub open spec fn accepts<H>(t: TreeView<H>, c: usize, tok: Seq<char>) -> bool {
    match t[c as int].data {
        NodeDataView::Literal { name } => eq_ci(name, tok),
        NodeDataView::Argument { name, parser } => parse_token(parser, tok) is Some,
        NodeDataView::Root => false,
    }
}

/// The binding that node `c` makes on the token `tok`: none for a literal,
/// its name and the value read for an argument.
pub open spec fn node_binding<H>(t: TreeView<H>, c: usize, tok: Seq<char>) -> Seq<BindingView> {
    match t[c as int].data {
        NodeDataView::Argument { name, parser } => match parse_token(parser, tok) {
            Some(v) => seq![BindingView { name, value: v }],
            None => seq![],
        },
        _ => seq![],
    }
}

/// The bindings that the arguments along `path` make on the tokens they
/// consume, in path order.
pub open spec fn path_bindings<H>(t: TreeView<H>, path: Seq<usize>, toks: Seq<Seq<char>>) -> Seq<
    BindingView,
>
    decreases path.len(),
{
    if path.len() == 0 {
        seq![]
    } else {
        path_bindings(t, path.drop_last(), toks) + node_binding(
            t,
            path.last(),
            toks[path.len() - 1],
        )
    }
}

/// The node that `path` ends at, from the root.
pub open spec fn path_end(path: Seq<usize>) -> usize {
    if path.len() == 0 {
        0
    } else {
        path.last()
    }
}

/// `path` goes from the root along child links, its `k`-th node accepting
/// the `k`-th token.
pub open spec fn follows<H>(t: TreeView<H>, path: Seq<usize>, toks: Seq<Seq<char>>) -> bool {
    &&& path.len() <= toks.len()
    &&& forall|k: int|
        0 <= k < path.len() ==> t[path_end(path.take(k)) as int].children.contains(
            #[trigger] path[k],
        ) && accepts(t, path[k], toks[k])
}

proof fn lemma_first_literal_is<H>(t: TreeView<H>, kids: Seq<usize>, tok: Seq<char>, k: int)
    ensures
        first_literal(t, kids, tok, k) matches Some(c) ==> kids.contains(c) && t[c as int].data
            is Literal && accepts(t, c, tok),
    decreases kids.len() - k,
{
    if 0 <= k < kids.len() {
        lemma_first_literal_is(t, kids, tok, k + 1);
        if first_literal(t, kids, tok, k) == Some(kids[k]) {
            assert(kids[k] == kids[k]);
        }
    }
}

proof fn lemma_first_argument_is<H>(t: TreeView<H>, kids: Seq<usize>, tok: Seq<char>, k: int)
    ensures
        first_argument(t, kids, tok, k) matches Some((c, b)) ==> kids.contains(c) && accepts(
            t,
            c,
            tok,
        ) && node_binding(t, c, tok) == seq![b],
    decreases kids.len() - k,
{
    if 0 <= k < kids.len() {
        lemma_first_argument_is(t, kids, tok, k + 1);
    }
}

proof fn lemma_walk_path<H>(
    t: TreeView<H>,
    n: int,
    toks: Seq<Seq<char>>,
    i: int,
    path: Seq<usize>,
    bs: Seq<BindingView>,
)
    requires
        0 <= i <= toks.len(),
        path.len() == i,
        n == path_end(path),
        follows(t, path, toks),
        bs == path_bindings(t, path, toks),
    ensures
        walk(t, n, toks, i, path, bs) matches Resolution::Found { node, path: p, bindings: b } ==> {
            &&& p.len() == toks.len()
            &&& follows(t, p, toks)
            &&& node == path_end(p)
            &&& b == path_bindings(t, p, toks)
        },
    decreases toks.len() - i,
{
    if i < toks.len() && i < MAX_DEPTH {
        match step(t, n, toks[i]) {
            None => {},
            Some((c, b)) => {
                let next_path = path.push(c);
                let kids = t[n].children;
                lemma_first_literal_is(t, kids, toks[i], 0);
                lemma_first_argument_is(t, kids, toks[i], 0);
                assert(kids.contains(c) && accepts(t, c, toks[i]));
                assert(node_binding(t, c, toks[i]) == b);
                assert(next_path.drop_last() =~= path);
                assert(bs + b == path_bindings(t, next_path, toks));
                assert forall|k: int| 0 <= k < next_path.len() implies t[path_end(
                    next_path.take(k),
                ) as int].children.contains(#[trigger] next_path[k]) && accepts(t, next_path[k], toks[k]) by {
                    if k < path.len() {
                        assert(next_path.take(k) =~= path.take(k));
                        assert(next_path[k] == path[k]);
                    } else {
                        assert(next_path.take(k) =~= path);
                    }
                }
                lemma_walk_path(t, c as int, toks, i + 1, next_path, bs + b);
            },
        }
    }
}

/// A successful dispatch binds exactly the arguments along the matched
/// path: the path runs from the root along child links, one node per
/// token, each node accepting its token, and the bindings are, in path
/// order, the declared name of each argument node on it with the value its
/// parser read.
pub proof fn lemma_bindings_follow_path<H>(t: TreeView<H>, input: Seq<char>)
    ensures
        resolve_spec(t, input) matches Resolution::Found { node, path, bindings } ==> {
            &&& path.len() == tokens(input).len()
            &&& follows(t, path, tokens(input))
            &&& node == path_end(path)
            &&& bindings == path_bindings(t, path, tokens(input))
        },
{
    lemma_walk_path(t, 0, tokens(input), 0, seq![], seq![]);
}

/// Two results agree: the same node, path and bindings, or the same error.
pub open spec fn same_outcome(a: Result<Resolved, DispatchError>, b: Result<Resolved, DispatchError>) -> bool {
    match (a, b) {
        (Ok(x), Ok(y)) => x.node == y.node && x.path@ == y.path@ && x.context@ == y.context@,
        (Err(DispatchError::NoMatchingChild { at: p, token: s }), Err(
            DispatchError::NoMatchingChild { at: q, token: u },
        )) => p == q && s@ == u@,
        (Err(DispatchError::NoHandlerAtPath { at: p }), Err(DispatchError::NoHandlerAtPath { at: q })) => p
            == q,
        (Err(DispatchError::DepthExceeded), Err(DispatchError::DepthExceeded)) => true,
        _ => false,
    }
}

/// Dispatch is deterministic: two calls of `resolve` on the same tree and
/// the same input give the same outcome. (`resolve` takes the tree by
/// shared reference, so it leaves the tree as it was.)
pub proof fn lemma_resolve_deterministic<H>(
    t: TreeView<H>,
    input: Seq<char>,
    a: Result<Resolved, DispatchError>,
    b: Result<Resolved, DispatchError>,
)
    requires
        resolved_as(a, resolve_spec(t, input)),
        resolved_as(b, resolve_spec(t, input)),
    ensures
        same_outcome(a, b),
{
}

} // verus!
