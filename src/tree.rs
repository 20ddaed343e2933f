//! The command tree: a table of nodes addressed by index, node 0 being the
//! root, each other node naming its parent and each node listing its
//! children in insertion order.

use vstd::prelude::*;

verus! {

/// A node has at most this many children.
pub const MAX_CHILDREN: usize = 64;

/// How an argument node reads its token. The numeric bounds are carried for
/// client-side hints only; they are not checked when a token is read.
#[derive(Debug, Clone, Copy, PartialEq, Eq, Structural)]
pub enum Parser {
    String,
    Bool,
    Integer { min: Option<i32>, max: Option<i32> },
    Long { min: Option<i64>, max: Option<i64> },
    Float,
    Double,
    /// A parser that this engine does not read; such a node never matches.
    Unsupported { tag: u32 },
}

/// An integer parser whose hint bounds are the ends of `value`.
impl From<core::ops::Range<i32>> for Parser {
    fn from(value: core::ops::Range<i32>) -> Self {
        Parser::Integer { min: Some(value.start), max: Some(value.end) }
    }
}

impl vstd::std_specs::convert::FromSpecImpl<core::ops::Range<i32>> for Parser {
    open spec fn obeys_from_spec() -> bool {
        true
    }

    open spec fn from_spec(v: core::ops::Range<i32>) -> Parser {
        Parser::Integer { min: Some(v.start), max: Some(v.end) }
    }
}

/// `core::ops::RangeFrom`, whose one field `start` is public.
#[verifier::external_type_specification]
#[verifier::reject_recursive_types(Idx)]
pub struct ExRangeFrom<Idx>(core::ops::RangeFrom<Idx>);

/// An integer parser with `value.start` as its lower hint bound and no
/// upper one.
impl From<core::ops::RangeFrom<i32>> for Parser {
    fn from(value: core::ops::RangeFrom<i32>) -> Self {
        Parser::Integer { min: Some(value.start), max: None }
    }
}

impl vstd::std_specs::convert::FromSpecImpl<core::ops::RangeFrom<i32>> for Parser {
    open spec fn obeys_from_spec() -> bool {
        true
    }

    open spec fn from_spec(v: core::ops::RangeFrom<i32>) -> Parser {
        Parser::Integer { min: Some(v.start), max: None }
    }
}

/// What a node stands for in the grammar.
#[derive(Debug, Clone, PartialEq, Eq)]
pub enum NodeData {
    Root,
    Literal { name: String },
    Argument { name: String, parser: Parser },
}

pub enum NodeDataView {
    Root,
    Literal { name: Seq<char> },
    Argument { name: Seq<char>, parser: Parser },
}

impl View for NodeData {
    type V = NodeDataView;

    open spec fn view(&self) -> NodeDataView {
        match self {
            NodeData::Root => NodeDataView::Root,
            NodeData::Literal { name } => NodeDataView::Literal { name: name@ },
            NodeData::Argument { name, parser } => NodeDataView::Argument {
                name: name@,
                parser: *parser,
            },
        }
    }
}

/// The grammar point of one node.
#[derive(Debug, Clone, PartialEq, Eq)]
pub struct Structure {
    pub data: NodeData,
}

impl Structure {
    /// The root's structure.
    pub fn root() -> (r: Self)
        ensures
            r.data@ == NodeDataView::Root,
    {
        Structure { data: NodeData::Root }
    }

    /// A literal keyword `name`.
    pub fn literal(name: &str) -> (r: Self)
        ensures
            r.data@ == (NodeDataView::Literal { name: name@ }),
    {
        Structure { data: NodeData::Literal { name: name.to_string() } }
    }

    /// An argument `name` read by `parser`.
    pub fn argument(name: &str, parser: Parser) -> (r: Self)
        ensures
            r.data@ == (NodeDataView::Argument { name: name@, parser }),
    {
        Structure { data: NodeData::Argument { name: name.to_string(), parser } }
    }
}

/// One node of the table.
pub struct Node<H> {
    pub structure: Structure,
    pub parent: Option<usize>,
    pub children: Vec<usize>,
    pub executor: Option<H>,
}

pub struct NodeView<H> {
    pub data: NodeDataView,
    pub parent: Option<usize>,
    pub children: Seq<usize>,
    pub executor: Option<H>,
}

impl<H> View for Node<H> {
    type V = NodeView<H>;

    open spec fn view(&self) -> NodeView<H> {
        NodeView {
            data: self.structure.data@,
            parent: self.parent,
            children: self.children@,
            executor: self.executor,
        }
    }
}

/// A tree as a table of nodes.
pub type TreeView<H> = Seq<NodeView<H>>;

/// The table describes a rooted tree: node 0 is the root, every other node
/// names an earlier node as its parent, every listed child exists and names
/// the lister as its parent, no child is listed twice, and no node has more
/// than `MAX_CHILDREN` children.
pub open spec fn tree_wf<H>(t: TreeView<H>) -> bool {
    &&& t.len() >= 1
    &&& t[0].data == NodeDataView::Root
    &&& t[0].parent is None
    &&& forall|i: int|
        0 <= i < t.len() ==> (#[trigger] t[i]).children.len() <= MAX_CHILDREN
    &&& forall|i: int, j: int|
        0 <= i < t.len() && 0 <= j < t[i].children.len() ==> {
            let c = #[trigger] t[i].children[j];
            &&& 0 < c < t.len()
            &&& t[c as int].parent == Some(i as usize)
        }
    &&& forall|i: int, j: int, k: int|
        0 <= i < t.len() && 0 <= j < k < t[i].children.len() ==> #[trigger] t[i].children[j]
            != #[trigger] t[i].children[k]
    &&& forall|i: int|
        0 < i < t.len() ==> {
            &&& !((#[trigger] t[i]).data is Root)
            &&& t[i].parent matches Some(p) && p < i
        }
}

/// A command tree whose nodes may carry an executor of type `H`.
pub struct CommandTree<H> {
    nodes: Vec<Node<H>>,
}

impl<H> View for CommandTree<H> {
    type V = TreeView<H>;

    closed spec fn view(&self) -> TreeView<H> {
        self.nodes@.map_values(|n: Node<H>| n@)
    }
}

/// Why a node could not be added.
#[derive(Debug, Clone, Copy, PartialEq, Eq, Structural)]
pub enum TreeError {
    /// The parent already has `MAX_CHILDREN` children.
    CapacityExceeded,
}

/// The table after adding a node with `data` under `parent`.
pub open spec fn with_child<H>(t: TreeView<H>, parent: int, data: NodeDataView) -> TreeView<H> {
    t.update(
        parent,
        NodeView { children: t[parent].children.push(t.len() as usize), ..t[parent] },
    ).push(NodeView { data, parent: Some(parent as usize), children: seq![], executor: None })
}

/// `u` keeps every node of `t`, with its grammar point and its parent.
pub open spec fn extends<H>(t: TreeView<H>, u: TreeView<H>) -> bool {
    &&& u.len() >= t.len()
    &&& forall|i: int| 0 <= i < t.len() ==> (#[trigger] u[i]).data == t[i].data && u[i].parent == t[i].parent
}

/// The table after setting the executor of node `n`.
pub open spec fn with_executor<H>(t: TreeView<H>, n: int, h: H) -> TreeView<H> {
    t.update(n, NodeView { executor: Some(h), ..t[n] })
}

impl<H> CommandTree<H> {
    pub open spec fn wf(&self) -> bool {
        tree_wf(self@)
    }

    /// A tree holding only the root, with no executor.
    pub fn new() -> (r: Self)
        ensures
            r.wf(),
            r@ == seq![
                NodeView::<H> {
                    data: NodeDataView::Root,
                    parent: None,
                    children: seq![],
                    executor: None,
                },
            ],
    {
        let mut nodes: Vec<Node<H>> = Vec::new();
        nodes.push(
            Node { structure: Structure::root(), parent: None, children: Vec::new(), executor: None },
        );
        let r = CommandTree { nodes };
        assert(r@ =~= seq![
            NodeView::<H> {
                data: NodeDataView::Root,
                parent: None,
                children: seq![],
                executor: None,
            },
        ]);
        r
    }

    /// The index of the root, which is always the first node.
    pub fn get_root_command(&self) -> (r: usize)
        requires
            self.wf(),
        ensures
            r == 0,
            self@[r as int].data == NodeDataView::Root,
    {
        0
    }

    /// The number of nodes.
    pub fn len(&self) -> (r: usize)
        ensures
            r == self@.len(),
    {
        self.nodes.len()
    }

    /// The node at index `i`.
    pub fn node(&self, i: usize) -> (r: &Node<H>)
        requires
            i < self@.len(),
        ensures
            r@ == self@[i as int],
    {
        &self.nodes[i]
    }
}

/// Adds a node holding `command` as the last child of `parent` and
/// returns its index, which is the former number of nodes. Fails with
/// `CapacityExceeded`, changing nothing, where `parent` already has
/// `MAX_CHILDREN` children.
pub fn add_command<H>(tree: &mut CommandTree<H>, command: Structure, parent: usize) -> (r: Result<
    usize,
    TreeError,
>)
    requires
        old(tree).wf(),
        parent < old(tree)@.len(),
        !(command.data@ is Root),
        old(tree)@.len() < usize::MAX,
    ensures
        final(tree).wf(),
        old(tree)@[parent as int].children.len() < MAX_CHILDREN ==> r == Ok::<
            usize,
            TreeError,
        >(old(tree)@.len() as usize) && final(tree)@ == with_child(
            old(tree)@,
            parent as int,
            command.data@,
        ),
        old(tree)@[parent as int].children.len() >= MAX_CHILDREN ==> r == Err::<
            usize,
            TreeError,
        >(TreeError::CapacityExceeded) && final(tree)@ == old(tree)@,
{
    if tree.nodes[parent].children.len() >= MAX_CHILDREN {
        return Err(TreeError::CapacityExceeded);
    }
    let ghost t = tree@;
    let idx = tree.nodes.len();
    tree.nodes[parent].children.push(idx);
    tree.nodes.push(Node { structure: command, parent: Some(parent), children: Vec::new(), executor: None });
    proof {
        let d = command.data@;
        assert(tree@ =~= with_child(t, parent as int, d));
        let u = tree@;
        assert forall|i: int, j: int|
            0 <= i < u.len() && 0 <= j < u[i].children.len() implies {
            let c = #[trigger] u[i].children[j];
            &&& 0 < c < u.len()
            &&& u[c as int].parent == Some(i as usize)
        } by {
            if i != parent as int && i < t.len() {
                assert(u[i].children[j] == t[i].children[j]);
            } else if i == parent as int && j < t[i].children.len() {
                assert(u[i].children[j] == t[i].children[j]);
            }
        }
        assert forall|i: int| 0 <= i < u.len() implies (#[trigger] u[i]).children.len()
            <= MAX_CHILDREN by {
            if i < t.len() {
                assert(t[i].children.len() <= MAX_CHILDREN);
            }
        }
    }
    Ok(idx)
}

/// Sets the executor of node `n`, replacing any it had.
pub fn add_executor<H>(tree: &mut CommandTree<H>, executor: H, n: usize)
    requires
        old(tree).wf(),
        n < old(tree)@.len(),
    ensures
        final(tree).wf(),
        final(tree)@ == with_executor(old(tree)@, n as int, executor),
{
    let ghost t = tree@;
    tree.nodes[n].executor = Some(executor);
    proof {
        assert(tree@ =~= with_executor(t, n as int, executor));
        let u = tree@;
        assert forall|i: int, j: int|
            0 <= i < u.len() && 0 <= j < u[i].children.len() implies {
            let c = #[trigger] u[i].children[j];
            &&& 0 < c < u.len()
            &&& u[c as int].parent == Some(i as usize)
        } by {
            assert(u[i].children[j] == t[i].children[j]);
        }
        assert forall|i: int| 0 <= i < u.len() implies (#[trigger] u[i]).children.len()
            <= MAX_CHILDREN by {
            assert(t[i].children.len() <= MAX_CHILDREN);
        }
    }
}

} // verus!
