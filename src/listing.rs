//! A readable outline of a command tree, one line per node, children
//! indented under their parent and nodes with an executor marked `*`.

use vstd::prelude::*;

use crate::execute::MAX_DEPTH;
use crate::tree::{tree_wf, CommandTree, NodeData, NodeDataView, Parser, TreeView};

verus! {

/// Two spaces for each level below the root.
pub open spec fn indent(depth: nat) -> Seq<char>
    decreases depth,
{
    if depth == 0 {
        seq![]
    } else {
        indent((depth - 1) as nat) + "  "@
    }
}

/// The name of a parser kind.
pub open spec fn parser_name(p: Parser) -> Seq<char> {
    match p {
        Parser::String => "String"@,
        Parser::Bool => "Bool"@,
        Parser::Integer { .. } => "Integer"@,
        Parser::Long { .. } => "Long"@,
        Parser::Float => "Float"@,
        Parser::Double => "Double"@,
        Parser::Unsupported { .. } => "Unsupported"@,
    }
}

/// How one node is shown: `ROOT`, a literal's name, or `<name: Parser>`,
/// followed by `*` where the node has an executor.
pub open spec fn label(d: NodeDataView, executable: bool) -> Seq<char> {
    (match d {
        NodeDataView::Root => "ROOT"@,
        NodeDataView::Literal { name } => name,
        NodeDataView::Argument { name, parser } => "<"@ + name + ": "@ + parser_name(parser) + ">"@,
    }) + if executable {
        "*"@
    } else {
        ""@
    }
}

/// The lines for node `n` at `depth` and, below it, its descendants in
/// order; nothing at `MAX_DEPTH` levels or deeper.
pub open spec fn listing<H>(t: TreeView<H>, n: int, depth: nat) -> Seq<Seq<char>>
    decreases MAX_DEPTH - depth, 1int, 0int,
{
    if depth >= MAX_DEPTH {
        seq![]
    } else {
        seq![indent(depth) + label(t[n].data, t[n].executor is Some)] + listing_kids(
            t,
            t[n].children,
            0,
            depth + 1,
        )
    }
}

/// The lines for `kids[k..]`, each at `depth`.
pub open spec fn listing_kids<H>(t: TreeView<H>, kids: Seq<usize>, k: int, depth: nat) -> Seq<
    Seq<char>,
>
    decreases MAX_DEPTH + 1 - depth, 0int, kids.len() - k,
{
    if depth > MAX_DEPTH || k < 0 || k >= kids.len() {
        seq![]
    } else {
        listing(t, kids[k] as int, depth) + listing_kids(t, kids, k + 1, depth)
    }
}

fn parser_text(p: Parser) -> (r: &'static str)
    ensures
        r@ == parser_name(p),
{
    match p {
        Parser::String => "String",
        Parser::Bool => "Bool",
        Parser::Integer { .. } => "Integer",
        Parser::Long { .. } => "Long",
        Parser::Float => "Float",
        Parser::Double => "Double",
        Parser::Unsupported { .. } => "Unsupported",
    }
}

fn line(d: &NodeData, executable: bool, depth: usize) -> (r: String)
    ensures
        r@ == indent(depth as nat) + label(d@, executable),
{
    let mut s = String::new();
    let mut i: usize = 0;
    while i < depth
        invariant
            i <= depth,
            s@ == indent(i as nat),
        decreases depth - i,
    {
        s.append("  ");
        i += 1;
    }
    let ghost pre = s@;
    match d {
        NodeData::Root => s.append("ROOT"),
        NodeData::Literal { name } => s.append(name.as_str()),
        NodeData::Argument { name, parser } => {
            s.append("<");
            s.append(name.as_str());
            s.append(": ");
            s.append(parser_text(*parser));
            s.append(">");
        },
    }
    let ghost mid = s@;
    if executable {
        s.append("*");
    } else {
        s.append("");
    }
    proof {
        match d@ {
            NodeDataView::Argument { name, parser } => {
                assert(mid =~= pre + ("<"@ + name + ": "@ + parser_name(parser) + ">"@));
            },
            _ => {},
        }
        assert(s@ =~= indent(depth as nat) + label(d@, executable));
    }
    s
}

fn list_node<H>(tree: &CommandTree<H>, n: usize, depth: usize, out: &mut Vec<String>)
    requires
        tree.wf(),
        n < tree@.len(),
        depth <= MAX_DEPTH,
    ensures
        final(out)@.map_values(|s: String| s@) == old(out)@.map_values(|s: String| s@) + listing(
            tree@,
            n as int,
            depth as nat,
        ),
    decreases MAX_DEPTH - depth,
{
    let ghost start = out@.map_values(|s: String| s@);
    if depth >= MAX_DEPTH {
        assert(start + seq![] =~= start);
        return;
    }
    let node = tree.node(n);
    let l = line(&node.structure.data, node.executor.is_some(), depth);
    out.push(l);
    let ghost kids = tree@[n as int].children;
    let ghost head = start.push(indent(depth as nat) + label(
        tree@[n as int].data,
        tree@[n as int].executor is Some,
    ));
    assert(out@.map_values(|s: String| s@) =~= head);
    let count = node.children.len();
    let mut k: usize = 0;
    while k < count
        invariant
            tree.wf(),
            n < tree@.len(),
            depth < MAX_DEPTH,
            node@ == tree@[n as int],
            kids == tree@[n as int].children,
            count == kids.len(),
            k <= count,
            out@.map_values(|s: String| s@) + listing_kids(tree@, kids, k as int, (depth + 1) as nat)
                == head + listing_kids(tree@, kids, 0, (depth + 1) as nat),
        decreases count - k,
    {
        let c = node.children[k];
        proof {
            assert(tree_wf(tree@));
            assert(kids[k as int] == c);
        }
        let ghost before = out@.map_values(|s: String| s@);
        list_node(tree, c, depth + 1, out);
        proof {
            let rest = listing_kids(tree@, kids, k as int + 1, (depth + 1) as nat);
            let mine = listing(tree@, c as int, (depth + 1) as nat);
            assert(listing_kids(tree@, kids, k as int, (depth + 1) as nat) == mine + rest);
            assert(before + (mine + rest) =~= (before + mine) + rest);
        }
        k += 1;
    }
    proof {
        assert(out@.map_values(|s: String| s@) + seq![] =~= out@.map_values(|s: String| s@));
        assert(seq![indent(depth as nat) + label(tree@[n as int].data, tree@[n as int].executor is Some)]
            + listing_kids(tree@, kids, 0, (depth + 1) as nat) == listing(tree@, n as int, depth as nat));
        assert(head + listing_kids(tree@, kids, 0, (depth + 1) as nat) =~= start + listing(
            tree@,
            n as int,
            depth as nat,
        ));
    }
}

/// The outline of `tree`: the root's line first, then each child's
/// outline in insertion order, each level indented by two more spaces.
/// Nodes `MAX_DEPTH` levels down or deeper are left out.
pub fn command_tree_lines<H>(tree: &CommandTree<H>) -> (r: Vec<String>)
    requires
        tree.wf(),
    ensures
        r@.map_values(|s: String| s@) == listing(tree@, 0, 0),
{
    let mut out: Vec<String> = Vec::new();
    proof {
        assert(tree_wf(tree@));
        assert(out@.map_values(|s: String| s@) =~= Seq::<Seq<char>>::empty());
    }
    list_node(tree, 0, 0, &mut out);
    assert(Seq::<Seq<char>>::empty() + listing(tree@, 0, 0) =~= listing(tree@, 0, 0));
    out
}

} // verus!
