//! A scoped builder for command trees.

use vstd::prelude::*;

use crate::tree::{add_command, add_executor, extends, tree_wf, with_child, with_executor, CommandTree, NodeDataView, Parser, Structure, TreeError, TreeView, MAX_CHILDREN};

verus! {

/// Builds a command tree. Nodes are added under the current node. The
/// `*_with` methods enter the new node, hand the scope to a nested builder
/// function, and come back to the node they started from when it returns;
/// `end` leaves a node entered that way early.
pub struct CommandScope<H> {
    tree: CommandTree<H>,
    current: usize,
    parents: Vec<usize>,
}

/// What a nested builder function may do to a scope: keep it well formed
/// and keep every node that it had.
pub open spec fn builds_on<H, F: FnOnce(CommandScope<H>) -> CommandScope<H>>(f: F) -> bool {
    &&& forall|s: CommandScope<H>| s.wf() ==> #[trigger] call_requires(f, (s,))
    &&& forall|s: CommandScope<H>, t: CommandScope<H>|
        s.wf() && #[trigger] call_ensures(f, (s,), t) ==> t.wf() && extends(
            s.tree_view(),
            t.tree_view(),
        )
}

/// The nested builder `f` ran on the scope entered into a new node with
/// `data` under `parent` of `t`, and `u` is the tree it handed back.
pub open spec fn ran_nested<H, F: FnOnce(CommandScope<H>) -> CommandScope<H>>(
    f: F,
    t: TreeView<H>,
    parent: usize,
    data: NodeDataView,
    u: TreeView<H>,
) -> bool {
    exists|s_in: CommandScope<H>, s_out: CommandScope<H>|
        s_in.tree_view() == with_child(t, parent as int, data) && s_in.current_node() == t.len()
            && s_in.scope_stack() == seq![parent] && #[trigger] call_ensures(f, (s_in,), s_out) && u
            == s_out.tree_view()
}

impl<H> CommandScope<H> {
    /// The tree is well formed, the current node is one of its nodes, and
    /// the scope stack runs down the tree: each node on it is the parent of
    /// the next, the last being the parent of the current node.
    pub open spec fn wf(&self) -> bool {
        let t = self.tree_view();
        let st = self.scope_stack();
        &&& tree_wf(t)
        &&& self.current_node() < t.len()
        &&& forall|i: int| 0 <= i < st.len() ==> #[trigger] st[i] < t.len()
        &&& forall|i: int| 0 < i < st.len() ==> t[#[trigger] st[i] as int].parent == Some(st[i - 1])
        &&& st.len() > 0 ==> t[self.current_node() as int].parent == Some(st.last())
    }

    pub closed spec fn tree_view(&self) -> TreeView<H> {
        self.tree@
    }

    pub closed spec fn current_node(&self) -> usize {
        self.current
    }

    /// The nodes to come back to, the innermost last.
    pub closed spec fn scope_stack(&self) -> Seq<usize> {
        self.parents@
    }

    /// A scope at the root of `tree`.
    pub fn new(tree: CommandTree<H>) -> (r: Self)
        requires
            tree.wf(),
        ensures
            r.wf(),
            r.tree_view() == tree@,
            r.current_node() == 0,
            r.scope_stack() == Seq::<usize>::empty(),
    {
        CommandScope { tree, current: 0, parents: Vec::new() }
    }

    /// The tree built so far.
    pub fn tree(&self) -> (r: &CommandTree<H>)
        requires
            self.wf(),
        ensures
            r.wf(),
            r@ == self.tree_view(),
    {
        &self.tree
    }

    /// The tree built.
    pub fn into_tree(self) -> (r: CommandTree<H>)
        requires
            self.wf(),
        ensures
            r.wf(),
            r@ == self.tree_view(),
    {
        self.tree
    }

    /// The node that nodes are added under.
    pub fn current(&self) -> (r: usize)
        ensures
            r == self.current_node(),
    {
        self.current
    }

    /// Adds a node holding `command` under the current node, without
    /// entering it. Fails with `CapacityExceeded`, changing nothing, where
    /// the current node already has `MAX_CHILDREN` children or the table
    /// cannot grow.
    fn add(&mut self, command: Structure) -> (r: Result<usize, TreeError>)
        requires
            old(self).wf(),
            !(command.data@ is Root),
        ensures
            final(self).wf(),
            final(self).current_node() == old(self).current_node(),
            final(self).parents@ == old(self).parents@,
            added(old(self).tree_view(), old(self).current_node(), command.data@, r, final(self).tree_view()),
    {
        if self.tree.len() == usize::MAX {
            return Err(TreeError::CapacityExceeded);
        }
        let r = add_command(&mut self.tree, command, self.current);
        r
    }

    /// Adds a literal `name` under the current node.
    pub fn literal(&mut self, name: &str) -> (r: Result<usize, TreeError>)
        requires
            old(self).wf(),
        ensures
            final(self).wf(),
            final(self).current_node() == old(self).current_node(),
            added(
                old(self).tree_view(),
                old(self).current_node(),
                NodeDataView::Literal { name: name@ },
                r,
                final(self).tree_view(),
            ),
    {
        self.add(Structure::literal(name))
    }

    /// Adds an argument `name` read by `parser` under the current node.
    pub fn argument(&mut self, name: &str, parser: Parser) -> (r: Result<usize, TreeError>)
        requires
            old(self).wf(),
        ensures
            final(self).wf(),
            final(self).current_node() == old(self).current_node(),
            added(
                old(self).tree_view(),
                old(self).current_node(),
                NodeDataView::Argument { name: name@, parser },
                r,
                final(self).tree_view(),
            ),
    {
        self.add(Structure::argument(name, parser))
    }

    /// Runs `f` on this scope entered into node `i`, then comes back to the
    /// node and the enclosing scopes it started from.
    fn enter<F: FnOnce(CommandScope<H>) -> CommandScope<H>>(&mut self, i: usize, f: F)
        requires
            old(self).wf(),
            i < old(self).tree_view().len(),
            old(self).tree_view()[i as int].parent == Some(old(self).current_node()),
            builds_on(f),
        ensures
            final(self).wf(),
            final(self).current_node() == old(self).current_node(),
            final(self).parents@ == old(self).parents@,
            extends(old(self).tree_view(), final(self).tree_view()),
            exists|s_in: CommandScope<H>, s_out: CommandScope<H>|
                s_in.tree_view() == old(self).tree_view() && s_in.current_node() == i
                    && s_in.scope_stack() == seq![old(self).current_node()] && #[trigger] call_ensures(
                    f,
                    (s_in,),
                    s_out,
                ) && final(self).tree_view() == s_out.tree_view(),
    {
        let saved = self.current;
        let mut outer: Vec<usize> = Vec::new();
        core::mem::swap(&mut outer, &mut self.parents);
        self.parents.push(saved);
        self.current = i;
        assert(self.parents@ == seq![saved]);
        let ghost before = self.tree@;
        let mut inner = CommandScope { tree: CommandTree::new(), current: 0, parents: Vec::new() };
        core::mem::swap(&mut inner, self);
        let ghost s_in = inner;
        assert(inner.wf() && inner.tree@ == before);
        let mut back = f(inner);
        let ghost s_out = back;
        back.current = saved;
        back.parents = outer;
        *self = back;
        assert(self.tree@.len() >= before.len());
        assert forall|k: int| 0 <= k < self.parents@.len() implies #[trigger] self.parents@[k]
            < self.tree@.len() by {
            assert(outer@[k] < before.len());
        }
        assert forall|k: int| 0 < k < self.parents@.len() implies self.tree@[#[trigger] self.parents@[k] as int].parent
            == Some(self.parents@[k - 1]) by {
            assert(before[outer@[k] as int].parent == Some(outer@[k - 1]));
        }
        assert(call_ensures(f, (s_in,), s_out) && self.tree_view() == s_out.tree_view());
    }

    /// Adds a literal `name` under the current node and runs `f` in it.
    /// Where the node cannot be added, `f` is not run.
    pub fn literal_with<F: FnOnce(CommandScope<H>) -> CommandScope<H>>(&mut self, name: &str, f: F) -> (r: Result<usize, TreeError>)
        requires
            old(self).wf(),
            builds_on(f),
        ensures
            final(self).wf(),
            final(self).current_node() == old(self).current_node(),
            added_then(
                f,
                old(self).tree_view(),
                old(self).current_node(),
                NodeDataView::Literal { name: name@ },
                r,
                final(self).tree_view(),
            ),
    {
        let ghost t = self.tree_view();
        let r = self.literal(name);
        if let Ok(i) = r {
            assert(i == t.len());
            assert(self.tree_view().len() == t.len() + 1);
            self.enter(i, f);
        }
        r
    }

    /// Adds an argument `name` read by `parser` under the current node and
    /// runs `f` in it. Where the node cannot be added, `f` is not run.
    pub fn argument_with<F: FnOnce(CommandScope<H>) -> CommandScope<H>>(&mut self, name: &str, parser: Parser, f: F) -> (r: Result<usize, TreeError>)
        requires
            old(self).wf(),
            builds_on(f),
        ensures
            final(self).wf(),
            final(self).current_node() == old(self).current_node(),
            added_then(
                f,
                old(self).tree_view(),
                old(self).current_node(),
                NodeDataView::Argument { name: name@, parser },
                r,
                final(self).tree_view(),
            ),
    {
        let ghost t = self.tree_view();
        let r = self.argument(name, parser);
        if let Ok(i) = r {
            assert(i == t.len());
            assert(self.tree_view().len() == t.len() + 1);
            self.enter(i, f);
        }
        r
    }

    /// Sets the executor of the current node; a second call on the same
    /// node replaces the first executor.
    pub fn executor(&mut self, executor: H)
        requires
            old(self).wf(),
        ensures
            final(self).wf(),
            final(self).current_node() == old(self).current_node(),
            final(self).tree_view() == with_executor(
                old(self).tree_view(),
                old(self).current_node() as int,
                executor,
            ),
    {
        add_executor(&mut self.tree, executor, self.current);
    }

    /// Leaves the node entered last, coming back to the node it was entered
    /// from; at the outermost scope nothing changes.
    pub fn end(&mut self)
        requires
            old(self).wf(),
        ensures
            final(self).wf(),
            final(self).tree_view() == old(self).tree_view(),
            old(self).scope_stack().len() == 0 ==> final(self).current_node() == old(
                self,
            ).current_node() && final(self).scope_stack() == old(self).scope_stack(),
            old(self).scope_stack().len() > 0 ==> final(self).current_node() == old(
                self,
            ).scope_stack().last() && final(self).scope_stack() == old(self).scope_stack().drop_last()
                && old(self).tree_view()[old(self).current_node() as int].parent == Some(
                final(self).current_node(),
            ),
    {
        if let Some(p) = self.parents.pop() {
            self.current = p;
        }
    }
}

/// Adding a node with `data` under `parent` to `t` gave `r` and `u`: the
/// new node at the end of the table where `parent` had room for it, else
/// `CapacityExceeded` and no change.
pub open spec fn added<H>(
    t: TreeView<H>,
    parent: usize,
    data: NodeDataView,
    r: Result<usize, TreeError>,
    u: TreeView<H>,
) -> bool {
    &&& t[parent as int].children.len() < MAX_CHILDREN && t.len() < usize::MAX ==> r
        == Ok::<usize, TreeError>(t.len() as usize) && u == with_child(t, parent as int, data)
    &&& t[parent as int].children.len() >= MAX_CHILDREN || t.len() >= usize::MAX ==> r == Err::<
        usize,
        TreeError,
    >(TreeError::CapacityExceeded) && u == t
}

/// As `added`, where the nested builder `f` then ran in the new node and
/// handed back the final tree.
pub open spec fn added_then<H, F: FnOnce(CommandScope<H>) -> CommandScope<H>>(
    f: F,
    t: TreeView<H>,
    parent: usize,
    data: NodeDataView,
    r: Result<usize, TreeError>,
    u: TreeView<H>,
) -> bool {
    &&& t[parent as int].children.len() < MAX_CHILDREN && t.len() < usize::MAX ==> r
        == Ok::<usize, TreeError>(t.len() as usize) && extends(with_child(t, parent as int, data), u)
        && ran_nested(f, t, parent, data, u)
    &&& t[parent as int].children.len() >= MAX_CHILDREN || t.len() >= usize::MAX ==> r == Err::<
        usize,
        TreeError,
    >(TreeError::CapacityExceeded) && u == t
}

/// Adds the command `name` at the root of `tree` and runs `f` in it.
pub fn cmd_with<H, F: FnOnce(CommandScope<H>) -> CommandScope<H>>(tree: &mut CommandTree<H>, name: &str, f: F) -> (r: Result<usize, TreeError>)
    requires
        old(tree).wf(),
        builds_on(f),
    ensures
        final(tree).wf(),
        added_then(f, old(tree)@, 0, NodeDataView::Literal { name: name@ }, r, final(tree)@),
{
    let mut t = CommandTree::new();
    core::mem::swap(&mut t, tree);
    let mut scope = CommandScope::new(t);
    let r = scope.literal_with(name, f);
    *tree = scope.into_tree();
    r
}

/// Adds the command `name` at the root of `tree`.
pub fn cmd<H>(tree: &mut CommandTree<H>, name: &str) -> (r: Result<usize, TreeError>)
    requires
        old(tree).wf(),
    ensures
        final(tree).wf(),
        added(old(tree)@, 0, NodeDataView::Literal { name: name@ }, r, final(tree)@),
{
    let mut t = CommandTree::new();
    core::mem::swap(&mut t, tree);
    let mut scope = CommandScope::new(t);
    let r = scope.literal(name);
    *tree = scope.into_tree();
    r
}

} // verus!
