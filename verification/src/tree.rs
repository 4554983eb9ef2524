use vstd::prelude::*;

verus! {

use crate::proc::PID;

/// One live process at one observation instant: its pid, the CPU-time
/// counters read for it (in the platform's native unit), and the nodes for
/// the processes whose parent it was at enumeration time.  The whole subtree
/// is owned by its root; a tree is a snapshot, rebuilt on every tick.
#[derive(Debug)]
pub struct TreeNode {
    pub pid: PID,
    pub utime: u64,
    pub stime: u64,
    pub children: Vec<TreeNode>,
}

/// The scalar part of one tree node, as collected by [`search_tree`].
#[derive(Debug, Clone, Copy, PartialEq, Eq, Structural)]
pub struct FlatNode {
    pub pid: PID,
    pub utime: u64,
    pub stime: u64,
}

impl TreeNode {
    /// A placeholder tree: pid 0, zero counters, no children.
    pub fn empty() -> (r: TreeNode)
        ensures
            r.pid == 0,
            r.utime == 0,
            r.stime == 0,
            r.children@ =~= Seq::<TreeNode>::empty(),
    {
        TreeNode { pid: 0, utime: 0, stime: 0, children: Vec::new() }
    }

    /// The scalar part of this node.
    pub fn flat(&self) -> (r: FlatNode)
        ensures
            r == self.flat_spec(),
    {
        FlatNode { pid: self.pid, utime: self.utime, stime: self.stime }
    }

    pub open spec fn flat_spec(&self) -> FlatNode {
        FlatNode { pid: self.pid, utime: self.utime, stime: self.stime }
    }
}

/// The pids of the tree in depth-first preorder: the node itself, then each
/// child's subtree in turn.
pub open spec fn flatten_pids(tree: TreeNode) -> Seq<PID>
    decreases tree,
{
    seq![tree.pid] + flatten_forest_pids(tree.children@)
}

/// The pids of a sequence of subtrees, in order.
pub open spec fn flatten_forest_pids(forest: Seq<TreeNode>) -> Seq<PID>
    decreases forest,
{
    if forest.len() == 0 {
        Seq::empty()
    } else {
        flatten_pids(forest[0]) + flatten_forest_pids(forest.drop_first())
    }
}

/// The scalar node data of the tree in depth-first preorder.
pub open spec fn flatten_nodes(tree: TreeNode) -> Seq<FlatNode>
    decreases tree,
{
    seq![tree.flat_spec()] + flatten_forest_nodes(tree.children@)
}

/// The scalar node data of a sequence of subtrees, in order.
pub open spec fn flatten_forest_nodes(forest: Seq<TreeNode>) -> Seq<FlatNode>
    decreases forest,
{
    if forest.len() == 0 {
        Seq::empty()
    } else {
        flatten_nodes(forest[0]) + flatten_forest_nodes(forest.drop_first())
    }
}

proof fn lemma_flatten_forest_pids_take(forest: Seq<TreeNode>, i: int)
    requires
        0 <= i < forest.len(),
    ensures
        flatten_forest_pids(forest.take(i + 1)) == flatten_forest_pids(forest.take(i))
            + flatten_pids(forest[i]),
    decreases forest,
{
    let pre = forest.take(i + 1);
    if i == 0 {
        assert(pre.len() == 1);
        assert(pre[0] == forest[0]);
        reveal_with_fuel(flatten_forest_pids, 2);
        assert(pre.drop_first() =~= Seq::<TreeNode>::empty());
        assert(forest.take(0) =~= Seq::<TreeNode>::empty());
        assert(flatten_forest_pids(pre) =~= flatten_pids(forest[0]));
    } else {
        lemma_flatten_forest_pids_take(forest.drop_first(), i - 1);
        assert(pre.drop_first() =~= forest.drop_first().take(i));
        assert(forest.take(i).drop_first() =~= forest.drop_first().take(i - 1));
        assert(forest.drop_first()[i - 1] == forest[i]);
        assert(flatten_forest_pids(forest.take(i + 1)) =~= flatten_forest_pids(forest.take(i))
            + flatten_pids(forest[i]));
    }
}

proof fn lemma_flatten_forest_nodes_take(forest: Seq<TreeNode>, i: int)
    requires
        0 <= i < forest.len(),
    ensures
        flatten_forest_nodes(forest.take(i + 1)) == flatten_forest_nodes(forest.take(i))
            + flatten_nodes(forest[i]),
    decreases forest,
{
    let pre = forest.take(i + 1);
    if i == 0 {
        assert(pre.len() == 1);
        assert(pre[0] == forest[0]);
        reveal_with_fuel(flatten_forest_nodes, 2);
        assert(pre.drop_first() =~= Seq::<TreeNode>::empty());
        assert(forest.take(0) =~= Seq::<TreeNode>::empty());
        assert(flatten_forest_nodes(pre) =~= flatten_nodes(forest[0]));
    } else {
        lemma_flatten_forest_nodes_take(forest.drop_first(), i - 1);
        assert(pre.drop_first() =~= forest.drop_first().take(i));
        assert(forest.take(i).drop_first() =~= forest.drop_first().take(i - 1));
        assert(forest.drop_first()[i - 1] == forest[i]);
        assert(flatten_forest_nodes(forest.take(i + 1)) =~= flatten_forest_nodes(forest.take(i))
            + flatten_nodes(forest[i]));
    }
}

/// Appends the pids of the whole tree, in depth-first preorder, to
/// `processes`.
pub fn compress_tree(tree: &TreeNode, processes: &mut Vec<PID>)
    ensures
        final(processes)@ == old(processes)@ + flatten_pids(*tree),
    decreases *tree,
{
    processes.push(tree.pid);
    let ghost entry = processes@;
    let mut i: usize = 0;
    proof {
        assert(tree.children@.take(0) =~= Seq::<TreeNode>::empty());
    }
    while i < tree.children.len()
        invariant
            i <= tree.children.len(),
            processes@ == entry + flatten_forest_pids(tree.children@.take(i as int)),
        decreases tree.children.len() - i,
    {
        proof {
            assert(decreases_to!(*tree => tree.children));
            assert(decreases_to!(tree.children => tree.children@));
            assert(decreases_to!(tree.children@ => tree.children@[i as int]));
        }
        compress_tree(&tree.children[i], processes);
        proof {
            lemma_flatten_forest_pids_take(tree.children@, i as int);
        }
        i = i + 1;
    }
    proof {
        assert(tree.children@.take(tree.children@.len() as int) =~= tree.children@);
    }
}

/// Collects every node of the tree, in depth-first preorder, as its scalar
/// data.  Callers that need to visit each node walk the returned list.
pub fn search_tree(tree: &TreeNode) -> (r: Vec<FlatNode>)
    ensures
        r@ == flatten_nodes(*tree),
{
    let mut out: Vec<FlatNode> = Vec::new();
    search_tree_into(tree, &mut out);
    out
}

fn search_tree_into(tree: &TreeNode, out: &mut Vec<FlatNode>)
    ensures
        final(out)@ == old(out)@ + flatten_nodes(*tree),
    decreases *tree,
{
    out.push(tree.flat());
    let ghost entry = out@;
    let mut i: usize = 0;
    proof {
        assert(tree.children@.take(0) =~= Seq::<TreeNode>::empty());
    }
    while i < tree.children.len()
        invariant
            i <= tree.children.len(),
            out@ == entry + flatten_forest_nodes(tree.children@.take(i as int)),
        decreases tree.children.len() - i,
    {
        proof {
            assert(decreases_to!(*tree => tree.children));
            assert(decreases_to!(tree.children => tree.children@));
            assert(decreases_to!(tree.children@ => tree.children@[i as int]));
        }
        search_tree_into(&tree.children[i], out);
        proof {
            lemma_flatten_forest_nodes_take(tree.children@, i as int);
        }
        i = i + 1;
    }
    proof {
        assert(tree.children@.take(tree.children@.len() as int) =~= tree.children@);
    }
}

/// The pid sequence of a tree is the pid of each collected node, in the same
/// preorder: flattening and collecting agree node for node.
pub proof fn lemma_flatten_pids_are_node_pids(tree: TreeNode)
    ensures
        flatten_pids(tree) == flatten_nodes(tree).map_values(|n: FlatNode| n.pid),
    decreases tree,
{
    lemma_flatten_forest_pids_are_node_pids(tree.children@);
    assert(flatten_pids(tree) =~= flatten_nodes(tree).map_values(|n: FlatNode| n.pid));
}

proof fn lemma_flatten_forest_pids_are_node_pids(forest: Seq<TreeNode>)
    ensures
        flatten_forest_pids(forest) == flatten_forest_nodes(forest).map_values(
            |n: FlatNode| n.pid,
        ),
    decreases forest,
{
    if forest.len() == 0 {
        assert(flatten_forest_pids(forest) =~= flatten_forest_nodes(forest).map_values(
            |n: FlatNode| n.pid,
        ));
    } else {
        lemma_flatten_pids_are_node_pids(forest[0]);
        lemma_flatten_forest_pids_are_node_pids(forest.drop_first());
        assert(flatten_forest_pids(forest) =~= flatten_forest_nodes(forest).map_values(
            |n: FlatNode| n.pid,
        ));
    }
}

} // verus!
