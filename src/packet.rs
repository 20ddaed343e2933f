//! The client-facing description of a command tree: a list of entries,
//! the root first, each entry naming its parent and listing its children
//! by position in the list.

use vstd::prelude::*;

use crate::execute::MAX_DEPTH;
use crate::tree::{tree_wf, CommandTree, NodeData, NodeDataView, TreeView};

verus! {

/// One entry of the description.
pub struct PacketNode {
    pub data: NodeData,
    /// Whether the node has an executor.
    pub executable: bool,
    /// The position of the parent entry; `None` for the root.
    pub parent: Option<usize>,
    /// The positions of the child entries, in increasing order.
    pub children: Vec<usize>,
}

pub struct PacketNodeView {
    pub data: NodeDataView,
    pub executable: bool,
    pub parent: Option<usize>,
    pub children: Seq<usize>,
}

impl View for PacketNode {
    type V = PacketNodeView;

    open spec fn view(&self) -> PacketNodeView {
        PacketNodeView {
            data: self.data@,
            executable: self.executable,
            parent: self.parent,
            children: self.children@,
        }
    }
}

/// The description of a command tree.
pub struct CommandPacket {
    pub commands: Vec<PacketNode>,
    /// The position of the root entry, always 0.
    pub root_index: usize,
}

/// The positions below `n` whose parent is `p`, in increasing order.
pub open spec fn with_parent(ps: Seq<Option<usize>>, p: usize, n: int) -> Seq<usize>
    decreases n,
{
    if n <= 0 {
        seq![]
    } else {
        with_parent(ps, p, n - 1) + if ps[n - 1] == Some(p) {
            seq![(n - 1) as usize]
        } else {
            seq![]
        }
    }
}

/// The layout of the entries: entry `k` describes tree node `og[k]`, `lv[k]`
/// levels below the root, and its parent entry `ps[k]` describes the
/// parent of that node.
pub open spec fn layout_wf<H>(
    t: TreeView<H>,
    ps: Seq<Option<usize>>,
    og: Seq<usize>,
    lv: Seq<usize>,
) -> bool {
    &&& ps.len() >= 1
    &&& og.len() == ps.len()
    &&& lv.len() == ps.len()
    &&& ps[0] is None
    &&& og[0] == 0
    &&& lv[0] == 0
    &&& forall|k: int| 0 <= k < og.len() ==> (#[trigger] og[k]) < t.len()
    &&& forall|k: int|
        0 < k < ps.len() ==> ((#[trigger] ps[k]) matches Some(p) && p < k && t[og[k] as int].parent
            == Some(og[p as int]) && lv[k] == lv[p as int] + 1)
}

/// The children of entry `p` describe, in order, the children of its tree
/// node, unless it lies `MAX_DEPTH` levels down, where it has none.
pub open spec fn expanded<H>(
    t: TreeView<H>,
    ps: Seq<Option<usize>>,
    og: Seq<usize>,
    lv: Seq<usize>,
    p: int,
    kids: Seq<usize>,
) -> bool {
    if lv[p] < MAX_DEPTH {
        &&& kids.len() == t[og[p] as int].children.len()
        &&& forall|i: int| 0 <= i < kids.len() ==> og[#[trigger] kids[i] as int] == t[og[p] as int].children[i]
    } else {
        kids.len() == 0
    }
}

proof fn lemma_with_parent_prefix(a: Seq<Option<usize>>, b: Seq<Option<usize>>, p: usize, n: int)
    requires
        0 <= n <= a.len(),
        n <= b.len(),
        forall|j: int| 0 <= j < n ==> a[j] == b[j],
    ensures
        with_parent(a, p, n) == with_parent(b, p, n),
    decreases n,
{
    if n > 0 {
        lemma_with_parent_prefix(a, b, p, n - 1);
    }
}

proof fn lemma_with_parent_skip(ps: Seq<Option<usize>>, p: usize, lo: int, hi: int)
    requires
        0 <= lo <= hi <= ps.len(),
        forall|j: int| lo <= j < hi ==> ps[j] != Some(p),
    ensures
        with_parent(ps, p, hi) == with_parent(ps, p, lo),
    decreases hi - lo,
{
    if hi > lo {
        lemma_with_parent_skip(ps, p, lo, hi - 1);
        assert(with_parent(ps, p, hi - 1) + seq![] =~= with_parent(ps, p, hi - 1));
    }
}

proof fn lemma_with_parent_below(ps: Seq<Option<usize>>, p: usize, n: int)
    requires
        0 <= n <= ps.len(),
        n <= usize::MAX,
    ensures
        forall|i: int|
            0 <= i < with_parent(ps, p, n).len() ==> (#[trigger] with_parent(ps, p, n)[i]) < n
                && ps[with_parent(ps, p, n)[i] as int] == Some(p),
        forall|j: int| 0 <= j < n && ps[j] == Some(p) ==> with_parent(ps, p, n).contains(j as usize),
    decreases n,
{
    if n > 0 {
        lemma_with_parent_below(ps, p, n - 1);
        let w = with_parent(ps, p, n - 1);
        let v = with_parent(ps, p, n);
        assert forall|i: int| 0 <= i < v.len() implies (#[trigger] v[i]) < n && ps[v[i] as int] == Some(p) by {
            if i < w.len() {
                assert(v[i] == w[i]);
            } else {
                assert(ps[n - 1] == Some(p));
                assert(v[i] == (n - 1) as usize);
            }
        }
        assert forall|j: int| 0 <= j < n && ps[j] == Some(p) implies v.contains(j as usize) by {
            if j < n - 1 {
                let q = choose|q: int| 0 <= q < w.len() && w[q] == j as usize;
                assert(v[q] == j as usize);
            } else {
                assert(v[w.len() as int] == j as usize);
            }
        }
    }
}

/// Keeping every entry that was there, appending none under `p`, leaves
/// `p` as expanded as it was.
proof fn lemma_expanded_kept<H>(
    t: TreeView<H>,
    ps: Seq<Option<usize>>,
    og: Seq<usize>,
    lv: Seq<usize>,
    ps2: Seq<Option<usize>>,
    og2: Seq<usize>,
    lv2: Seq<usize>,
    p: int,
)
    requires
        0 <= p < ps.len(),
        ps.len() <= ps2.len(),
        ps2.len() <= usize::MAX,
        og.len() == ps.len(),
        lv.len() == ps.len(),
        forall|j: int| 0 <= j < ps.len() ==> ps2[j] == ps[j] && og2[j] == og[j] && lv2[j] == lv[j],
        forall|j: int| ps.len() <= j < ps2.len() ==> ps2[j] != Some(p as usize),
        expanded(t, ps, og, lv, p, with_parent(ps, p as usize, ps.len() as int)),
    ensures
        expanded(t, ps2, og2, lv2, p, with_parent(ps2, p as usize, ps2.len() as int)),
{
    lemma_with_parent_skip(ps2, p as usize, ps.len() as int, ps2.len() as int);
    lemma_with_parent_prefix(ps, ps2, p as usize, ps.len() as int);
    lemma_with_parent_below(ps, p as usize, ps.len() as int);
    let w = with_parent(ps, p as usize, ps.len() as int);
    if lv[p] < MAX_DEPTH {
        assert forall|i: int| 0 <= i < w.len() implies og2[#[trigger] w[i] as int] == t[og2[p] as int].children[i] by {
            assert(w[i] < ps.len());
        }
    }
}

/// The description is consistent: the root comes first, every listed child
/// exists and names the lister as its parent, and every entry but the root
/// is listed by its parent.
pub open spec fn packet_wf(es: Seq<PacketNodeView>) -> bool {
    &&& es.len() >= 1
    &&& es[0].data == NodeDataView::Root
    &&& es[0].parent is None
    &&& forall|k: int| 0 < k < es.len() ==> ((#[trigger] es[k].parent) matches Some(p) && p < k)
    &&& forall|k: int|
        0 <= k < es.len() ==> {
            &&& forall|j: int|
                0 <= j < (#[trigger] es[k]).children.len() ==> es[k].children[j] < es.len()
                    && es[es[k].children[j] as int].parent == Some(k as usize)
            &&& forall|c: int|
                0 <= c < es.len() && es[c].parent == Some(k as usize) ==> es[k].children.contains(
                    c as usize,
                )
        }
}

/// The description describes `t`: entry `k` shows tree node `og[k]`, with
/// its grammar point and whether it has an executor; the parent entry shows
/// the node's parent; and the child list of every entry less than
/// `MAX_DEPTH` levels down describes the node's children in order.
pub open spec fn describes<H>(t: TreeView<H>, es: Seq<PacketNodeView>, og: Seq<usize>, lv: Seq<usize>) -> bool {
    &&& layout_wf(t, es.map_values(|e: PacketNodeView| e.parent), og, lv)
    &&& forall|k: int|
        0 <= k < es.len() ==> {
            &&& (#[trigger] es[k]).data == t[og[k] as int].data
            &&& es[k].executable == t[og[k] as int].executor is Some
            &&& expanded(t, es.map_values(|e: PacketNodeView| e.parent), og, lv, k, es[k].children)
        }
}

impl CommandPacket {
    pub open spec fn view_entries(&self) -> Seq<PacketNodeView> {
        self.commands@.map_values(|n: PacketNode| n@)
    }
}

/// A copy of `d`.
pub fn copy_data(d: &NodeData) -> (r: NodeData)
    ensures
        r@ == d@,
{
    match d {
        NodeData::Root => NodeData::Root,
        NodeData::Literal { name } => NodeData::Literal { name: name.clone() },
        NodeData::Argument { name, parser } => NodeData::Argument { name: name.clone(), parser: *parser },
    }
}

/// The entries laid out so far: parent position, tree node and level of
/// each.
pub struct Layout {
    pub ps: Seq<Option<usize>>,
    pub og: Seq<usize>,
    pub lv: Seq<usize>,
}

/// `st` followed by entries for the first `k` of `kids`, all under the
/// entry at `pos`, `depth` levels down.
pub open spec fn push_block(st: Layout, kids: Seq<usize>, pos: usize, depth: usize, k: int) -> Layout
    decreases k,
{
    if k <= 0 {
        st
    } else {
        let s = push_block(st, kids, pos, depth, k - 1);
        Layout {
            ps: s.ps.push(Some(pos)),
            og: s.og.push(kids[k - 1]),
            lv: s.lv.push((depth + 1) as usize),
        }
    }
}

/// The layout after describing the descendants of tree node `n`, whose
/// entry is at `pos`, `depth` levels down: an entry for each child, in
/// order, then the descendants of each child in turn; nothing at
/// `MAX_DEPTH` levels.
pub open spec fn expand<H>(t: TreeView<H>, n: usize, pos: usize, depth: usize, st: Layout) -> Layout
    decreases MAX_DEPTH - depth, 1int, 0int,
{
    if depth >= MAX_DEPTH {
        st
    } else {
        let kids = t[n as int].children;
        let st1 = push_block(st, kids, pos, depth, kids.len() as int);
        expand_kids(t, kids, st.ps.len() as int, (depth + 1) as usize, st1, 0)
    }
}

/// The layout after describing the descendants of `kids[k..]`, whose
/// entries start at `start + k`.
pub open spec fn expand_kids<H>(
    t: TreeView<H>,
    kids: Seq<usize>,
    start: int,
    depth: usize,
    st: Layout,
    k: int,
) -> Layout
    decreases MAX_DEPTH + 1 - depth, 0int, kids.len() - k,
{
    if depth > MAX_DEPTH || k < 0 || k >= kids.len() {
        st
    } else {
        expand_kids(t, kids, start, depth, expand(t, kids[k], (start + k) as usize, depth, st), k + 1)
    }
}

/// The layout of the description of `t`, starting from the root's entry.
pub open spec fn tree_layout<H>(t: TreeView<H>) -> Layout {
    expand(t, 0, 0, 0, Layout { ps: seq![None], og: seq![0], lv: seq![0] })
}

/// The description of `t`: entry `k` shows the node that the layout puts
/// there, its parent position, and the positions of the entries under it
/// in increasing order.
pub open spec fn packet_of<H>(t: TreeView<H>) -> Seq<PacketNodeView> {
    let l = tree_layout(t);
    Seq::new(
        l.ps.len(),
        |k: int|
            PacketNodeView {
                data: t[l.og[k] as int].data,
                executable: t[l.og[k] as int].executor is Some,
                parent: l.ps[k],
                children: with_parent(l.ps, k as usize, l.ps.len() as int),
            },
    )
}

/// For tree node `n`, whose entry stands at `pos` `depth` levels down,
/// appends an entry for each child, then does the same for each child in
/// turn. At `MAX_DEPTH` levels nothing more is added, which keeps a
/// malformed tree from being walked forever.
#[verifier::rlimit(60)]
fn emit<H>(
    tree: &CommandTree<H>,
    n: usize,
    pos: usize,
    depth: usize,
    ps: &mut Vec<Option<usize>>,
    og: &mut Vec<usize>,
    lv: &mut Vec<usize>,
)
    requires
        tree.wf(),
        layout_wf(tree@, old(ps)@, old(og)@, old(lv)@),
        pos < old(ps)@.len(),
        old(og)@[pos as int] == n,
        old(lv)@[pos as int] == depth,
        forall|j: int| 0 <= j < old(ps)@.len() ==> old(ps)@[j] != Some(pos),
    ensures
        layout_wf(tree@, final(ps)@, final(og)@, final(lv)@),
        final(ps)@.len() >= old(ps)@.len(),
        forall|j: int|
            0 <= j < old(ps)@.len() ==> final(ps)@[j] == old(ps)@[j] && final(og)@[j] == old(og)@[j]
                && final(lv)@[j] == old(lv)@[j],
        forall|j: int|
            old(ps)@.len() <= j < final(ps)@.len() ==> ((#[trigger] final(ps)@[j]) matches Some(p) && (p
                == pos || old(ps)@.len() <= p)),
        expanded(
            tree@,
            final(ps)@,
            final(og)@,
            final(lv)@,
            pos as int,
            with_parent(final(ps)@, pos, final(ps)@.len() as int),
        ),
        forall|p: int|
            old(ps)@.len() <= p < final(ps)@.len() ==> #[trigger] expanded(
                tree@,
                final(ps)@,
                final(og)@,
                final(lv)@,
                p,
                with_parent(final(ps)@, p as usize, final(ps)@.len() as int),
            ),
        (Layout { ps: final(ps)@, og: final(og)@, lv: final(lv)@ }) == expand(
            tree@,
            n,
            pos,
            depth,
            Layout { ps: old(ps)@, og: old(og)@, lv: old(lv)@ },
        ),
    decreases MAX_DEPTH - depth,
{
    let ghost st0 = Layout { ps: ps@, og: og@, lv: lv@ };
    let ghost ps0 = ps@;
    let ghost og0 = og@;
    let ghost lv0 = lv@;
    proof {
        lemma_with_parent_skip(ps@, pos, 0, ps@.len() as int);
    }
    if depth >= MAX_DEPTH {
        return;
    }
    let node = tree.node(n);
    let count = node.children.len();
    let start = ps.len();
    let mut k: usize = 0;
    while k < count
        invariant
            tree.wf(),
            n < tree@.len(),
            node@ == tree@[n as int],
            count == node.children@.len(),
            k <= count,
            depth < MAX_DEPTH,
            pos < start,
            start == ps0.len(),
            og0[pos as int] == n,
            lv0[pos as int] == depth,
            ps@.len() == start + k,
            layout_wf(tree@, ps@, og@, lv@),
            forall|j: int| 0 <= j < start ==> ps@[j] == ps0[j] && og@[j] == og0[j] && lv@[j] == lv0[j],
            forall|j: int|
                start <= j < start + k ==> (#[trigger] ps@[j]) == Some(pos) && og@[j]
                    == node.children@[j - start] && lv@[j] == depth + 1,
            with_parent(ps@, pos, ps@.len() as int) == Seq::new(k as nat, |i: int| (start + i) as usize),
            (Layout { ps: ps@, og: og@, lv: lv@ }) == push_block(st0, node.children@, pos, depth, k as int),
            st0 == (Layout { ps: ps0, og: og0, lv: lv0 }),
        decreases count - k,
    {
        let c = node.children[k];
        proof {
            assert(tree_wf(tree@));
            assert(tree@[n as int].children[k as int] == c);
        }
        let ghost ps1 = ps@;
        let ghost og1 = og@;
        let ghost lv1 = lv@;
        let at = ps.len();
        ps.push(Some(pos));
        og.push(c);
        lv.push(depth + 1);
        proof {
            assert forall|j: int| start <= j < start + k + 1 implies (#[trigger] ps@[j]) == Some(pos)
                && og@[j] == node.children@[j - start] && lv@[j] == depth + 1 by {
                if j < at {
                    assert(ps@[j] == ps1[j]);
                    assert(og@[j] == og1[j]);
                    assert(lv@[j] == lv1[j]);
                }
            }
            assert forall|j: int| 0 < j < ps@.len() implies ((#[trigger] ps@[j]) matches Some(p) && p < j
                && tree@[og@[j] as int].parent == Some(og@[p as int]) && lv@[j] == lv@[p as int] + 1) by {
                if j < at {
                    assert(ps@[j] == ps1[j]);
                    assert(og@[j] == og1[j]);
                    assert(lv@[j] == lv1[j]);
                    let p = ps1[j]->Some_0;
                    assert(og@[p as int] == og1[p as int]);
                    assert(lv@[p as int] == lv1[p as int]);
                } else {
                    assert(og@[pos as int] == og1[pos as int]);
                    assert(lv@[pos as int] == lv1[pos as int]);
                }
            }
            assert forall|j: int| 0 <= j < og@.len() implies (#[trigger] og@[j]) < tree@.len() by {
                if j < at {
                    assert(og@[j] == og1[j]);
                }
            }
            lemma_with_parent_prefix(ps1, ps@, pos, at as int);
            assert(with_parent(ps@, pos, ps@.len() as int) =~= Seq::new(
                (k + 1) as nat,
                |i: int| (start + i) as usize,
            ));
        }
        k += 1;
    }
    let end = ps.len();
    let ghost st1 = Layout { ps: ps@, og: og@, lv: lv@ };
    proof {
        assert(expand(tree@, n, pos, depth, st0) == expand_kids(
            tree@,
            node.children@,
            start as int,
            (depth + 1) as usize,
            st1,
            0,
        ));
    }
    let ghost ps1 = ps@;
    let ghost og1 = og@;
    let ghost lv1 = lv@;
    proof {
        let w = with_parent(ps@, pos, end as int);
        assert forall|i: int| 0 <= i < w.len() implies og@[#[trigger] w[i] as int] == tree@[og@[pos as int] as int].children[i] by {
            assert(w[i] == start + i);
            assert(ps@[start + i] == Some(pos));
        }
    }
    let mut k: usize = 0;
    while k < count
        invariant
            tree.wf(),
            n < tree@.len(),
            node@ == tree@[n as int],
            count == node.children@.len(),
            k <= count,
            depth < MAX_DEPTH,
            pos < start,
            start == ps0.len(),
            end == start + count,
            ps1.len() == end,
            ps@.len() >= end,
            og0[pos as int] == n,
            lv0[pos as int] == depth,
            layout_wf(tree@, ps@, og@, lv@),
            forall|j: int| 0 <= j < start ==> ps0[j] == ps1[j] && og0[j] == og1[j] && lv0[j] == lv1[j],
            forall|j: int| 0 <= j < end ==> ps@[j] == ps1[j] && og@[j] == og1[j] && lv@[j] == lv1[j],
            forall|j: int|
                start <= j < end ==> (#[trigger] ps1[j]) == Some(pos) && og1[j] == node.children@[j
                    - start] && lv1[j] == depth + 1,
            forall|j: int|
                end <= j < ps@.len() ==> ((#[trigger] ps@[j]) matches Some(p) && ((start <= p < start + k)
                    || end <= p)),
            expanded(tree@, ps@, og@, lv@, pos as int, with_parent(ps@, pos, ps@.len() as int)),
            forall|p: int|
                (start <= p < start + k || end <= p < ps@.len()) ==> #[trigger] expanded(
                    tree@,
                    ps@,
                    og@,
                    lv@,
                    p,
                    with_parent(ps@, p as usize, ps@.len() as int),
                ),
            expand_kids(
                tree@,
                node.children@,
                start as int,
                (depth + 1) as usize,
                Layout { ps: ps@, og: og@, lv: lv@ },
                k as int,
            ) == expand(tree@, n, pos, depth, st0),
        decreases count - k,
    {
        let c = node.children[k];
        let here = start + k;
        let ghost ps2 = ps@;
        let ghost og2 = og@;
        let ghost lv2 = lv@;
        let ghost cur = Layout { ps: ps@, og: og@, lv: lv@ };
        proof {
            assert(node.children@[k as int] == c);
            assert(expand_kids(tree@, node.children@, start as int, (depth + 1) as usize, cur, k as int)
                == expand_kids(
                tree@,
                node.children@,
                start as int,
                (depth + 1) as usize,
                expand(tree@, c, here, (depth + 1) as usize, cur),
                k + 1,
            ));
        }
        proof {
            assert(og@[here as int] == og1[here as int]);
            assert(lv@[here as int] == lv1[here as int]);
            assert forall|j: int| 0 <= j < ps@.len() implies ps@[j] != Some(here) by {
                if j < start {
                    if ps@[j] is Some {
                        assert(ps@[j]->Some_0 < j);
                    }
                } else if j < end {
                    assert(ps@[j] == ps1[j]);
                    assert(ps1[j] == Some(pos));
                }
            }
        }
        emit(tree, c, here, depth + 1, ps, og, lv);
        let len_after = ps.len();
        proof {
            assert forall|p: int|
                (start <= p < start + k + 1 || end <= p < ps@.len()) implies #[trigger] expanded(
                tree@,
                ps@,
                og@,
                lv@,
                p,
                with_parent(ps@, p as usize, ps@.len() as int),
            ) by {
                if p < ps2.len() && p != here {
                    assert forall|j: int| ps2.len() <= j < ps@.len() implies ps@[j] != Some(p as usize) by {
                        assert(ps@[j] matches Some(q) && (q == here || ps2.len() <= q));
                        let q = ps@[j]->Some_0;
                        assert(q == here || q >= ps2.len());
                        assert(q != p);
                    }
                    lemma_expanded_kept(tree@, ps2, og2, lv2, ps@, og@, lv@, p);
                }
            }
            assert forall|j: int| ps2.len() <= j < ps@.len() implies ps@[j] != Some(pos) by {
                assert(ps@[j] matches Some(q) && (q == here || ps2.len() <= q));
            }
            lemma_expanded_kept(tree@, ps2, og2, lv2, ps@, og@, lv@, pos as int);
            assert forall|j: int|
                end <= j < ps@.len() implies ((#[trigger] ps@[j]) matches Some(p) && ((start <= p < start + k
                + 1) || end <= p)) by {
                if j < ps2.len() {
                    assert(ps@[j] == ps2[j]);
                }
            }
        }
        k += 1;
    }
    proof {
        assert forall|j: int|
            ps0.len() <= j < ps@.len() implies ((#[trigger] ps@[j]) matches Some(p) && (p == pos
            || ps0.len() <= p)) by {
            if j < end {
                assert(ps@[j] == ps1[j]);
                assert(ps1[j] == Some(pos));
            }
        }
    }
}

/// Describes `tree` for a client: the root at position 0, then the other
/// nodes depth first, each entry naming its parent's position and listing
/// its children's positions in the order the tree holds them. Nodes
/// `MAX_DEPTH` levels down or deeper are left out.
pub fn get_command_packet<H>(tree: &CommandTree<H>) -> (r: CommandPacket)
    requires
        tree.wf(),
    ensures
        r.root_index == 0,
        packet_wf(r.view_entries()),
        exists|og: Seq<usize>, lv: Seq<usize>| #[trigger] describes(tree@, r.view_entries(), og, lv),
        r.view_entries() == packet_of(tree@),
{
    let mut ps: Vec<Option<usize>> = Vec::new();
    let mut og: Vec<usize> = Vec::new();
    let mut lv: Vec<usize> = Vec::new();
    ps.push(None);
    og.push(0);
    lv.push(0);
    proof {
        assert(tree_wf(tree@));
    }
    proof {
        assert(ps@ == seq![None::<usize>] && og@ == seq![0usize] && lv@ == seq![0usize]);
    }
    emit(tree, 0, 0, 0, &mut ps, &mut og, &mut lv);
    let m = ps.len();
    let mut commands: Vec<PacketNode> = Vec::new();
    let mut k: usize = 0;
    while k < m
        invariant
            tree.wf(),
            m == ps@.len(),
            layout_wf(tree@, ps@, og@, lv@),
            k <= m,
            commands@.len() == k,
            forall|i: int|
                0 <= i < k ==> (#[trigger] commands@[i])@ == (PacketNodeView {
                    data: tree@[og@[i] as int].data,
                    executable: tree@[og@[i] as int].executor is Some,
                    parent: ps@[i],
                    children: with_parent(ps@, i as usize, m as int),
                }),
        decreases m - k,
    {
        let mut kids: Vec<usize> = Vec::new();
        let mut j: usize = 0;
        while j < m
            invariant
                m == ps@.len(),
                k < m,
                j <= m,
                kids@ == with_parent(ps@, k as usize, j as int),
            decreases m - j,
        {
            if ps[j] == Some(k) {
                kids.push(j);
            }
            proof {
                assert(kids@ =~= with_parent(ps@, k as usize, j as int + 1));
            }
            j += 1;
        }
        let node = tree.node(og[k]);
        commands.push(
            PacketNode {
                data: copy_data(&node.structure.data),
                executable: node.executor.is_some(),
                parent: ps[k],
                children: kids,
            },
        );
        k += 1;
    }
    let r = CommandPacket { commands, root_index: 0 };
    proof {
        let v = r.view_entries();
        assert(v.map_values(|e: PacketNodeView| e.parent) =~= ps@);
        assert forall|i: int| 0 <= i < v.len() implies #[trigger] v[i] == commands@[i]@ by {}
        assert(tree_wf(tree@));
        assert(v[0].data == NodeDataView::Root);
        assert forall|i: int| 0 < i < v.len() implies ((#[trigger] v[i].parent) matches Some(p) && p < i) by {
            assert(v[i].parent == ps@[i]);
        }
        assert forall|i: int| 0 <= i < v.len() implies {
            &&& forall|j: int|
                0 <= j < (#[trigger] v[i]).children.len() ==> v[i].children[j] < v.len()
                    && v[v[i].children[j] as int].parent == Some(i as usize)
            &&& forall|c: int|
                0 <= c < v.len() && v[c].parent == Some(i as usize) ==> v[i].children.contains(
                    c as usize,
                )
        } by {
            lemma_with_parent_below(ps@, i as usize, m as int);
            assert forall|j: int| 0 <= j < v[i].children.len() implies v[i].children[j] < v.len()
                && v[v[i].children[j] as int].parent == Some(i as usize) by {
                assert(v[i].children[j] == with_parent(ps@, i as usize, m as int)[j]);
                assert(v[v[i].children[j] as int].parent == ps@[v[i].children[j] as int]);
            }
            assert forall|c: int| 0 <= c < v.len() && v[c].parent == Some(i as usize) implies v[i].children.contains(
                c as usize,
            ) by {
                assert(v[c].parent == ps@[c]);
            }
        }
        assert forall|i: int| 0 <= i < v.len() implies {
            &&& (#[trigger] v[i]).data == tree@[og@[i] as int].data
            &&& v[i].executable == tree@[og@[i] as int].executor is Some
            &&& expanded(tree@, v.map_values(|e: PacketNodeView| e.parent), og@, lv@, i, v[i].children)
        } by {
            if i == 0 {
            } else {
                assert(1 <= i < ps@.len());
            }
        }
        assert(describes(tree@, v, og@, lv@));
        let l = tree_layout(tree@);
        assert(l.ps == ps@ && l.og == og@);
        assert(v =~= packet_of(tree@));
    }
    r
}

} // verus!
