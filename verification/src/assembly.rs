//! Assembly structure of a STEP document: the tree of assemblies and parts,
//! how a node's shape is looked up, and how OCCT's row-major affine
//! transforms are laid out as column-major 4x4 matrices and back.
//!
//! The tree is a plain snapshot of the document (one `AssemblyTreeNode` per
//! node, children listed in document order); flattening it gives, for each
//! leaf part, the chain of nodes from its root.  The world transform of the
//! leaf is the product of the local transforms along that chain.
use vstd::prelude::*;

use crate::Error;

verus! {

// ---------------------------------------------------------------------------
// Transform layout
// ---------------------------------------------------------------------------
/// The column-major 4x4 matrix of the affine map `x -> R x + t`, where `r`
/// holds `R` row by row and `t` the translation.
pub open spec fn affine_cols<T>(r: Seq<T>, t: Seq<T>, zero: T, one: T) -> Seq<T> {
    seq![
        r[0], r[3], r[6], zero,
        r[1], r[4], r[7], zero,
        r[2], r[5], r[8], zero,
        t[0], t[1], t[2], one,
    ]
}

/// The top three rows `[a11, a12, a13, a14, a21, ..., a34]` of the 4x4
/// matrix whose column-major entries are `cols`.
pub open spec fn top_rows<T>(cols: Seq<T>) -> Seq<T> {
    seq![
        cols[0], cols[4], cols[8], cols[12],
        cols[1], cols[5], cols[9], cols[13],
        cols[2], cols[6], cols[10], cols[14],
    ]
}

/// A column-major 4x4 matrix whose bottom row is `[zero, zero, zero, one]`,
/// i.e. an affine transform.
pub open spec fn is_affine_cols<T>(cols: Seq<T>, zero: T, one: T) -> bool {
    &&& cols.len() == 16
    &&& cols[3] == zero
    &&& cols[7] == zero
    &&& cols[11] == zero
    &&& cols[15] == one
}

/// Lays out an OCCT transform as a column-major 4x4 matrix.
///
/// `rotation` is the 3x3 vectorial part in row-major order
/// `[R00, R01, R02, R10, ..., R22]`, `translation` the translation part;
/// the bottom row of the result is `[zero, zero, zero, one]`.
pub fn trsf_to_dmat4<T: Copy>(rotation: &[T], translation: [T; 3], zero: T, one: T) -> (cols: [T; 16])
    requires
        rotation@.len() >= 9,
    ensures
        cols@ == affine_cols(rotation@, translation@, zero, one),
        forall|i: int, j: int|
            0 <= i < 3 && 0 <= j < 3 ==> #[trigger] cols@[4 * j + i] == rotation@[3 * i + j],
        forall|i: int| 0 <= i < 3 ==> #[trigger] cols@[12 + i] == translation@[i],
        forall|j: int| 0 <= j < 3 ==> #[trigger] cols@[4 * j + 3] == zero,
        cols@[15] == one,
{
    let r = rotation;
    let cols = [
        r[0], r[3], r[6], zero,
        r[1], r[4], r[7], zero,
        r[2], r[5], r[8], zero,
        translation[0], translation[1], translation[2], one,
    ];
    assert(cols@ =~= affine_cols(rotation@, translation@, zero, one));
    cols
}

/// Reads the 3x4 affine part of a column-major 4x4 matrix in the row-major
/// order that OCCT's `gp_Trsf::SetValues` takes
/// (`a11, a12, a13, a14, a21, ..., a34`).  The bottom row is not read.
pub fn dmat4_to_trsf<T: Copy>(cols: [T; 16]) -> (rows: [T; 12])
    ensures
        rows@ == top_rows(cols@),
        forall|i: int, j: int| 0 <= i < 3 && 0 <= j < 4 ==> #[trigger] rows@[4 * i + j] == cols@[4 * j + i],
{
    let c = cols;
    let rows = [
        c[0], c[4], c[8], c[12],
        c[1], c[5], c[9], c[13],
        c[2], c[6], c[10], c[14],
    ];
    assert(rows@ =~= top_rows(cols@));
    rows
}

/// Law: laying out a transform as a matrix and reading it back gives the
/// rows `[R0 | t0], [R1 | t1], [R2 | t2]` of the transform.
pub proof fn lemma_trsf_round_trip<T>(r: Seq<T>, t: Seq<T>, zero: T, one: T)
    requires
        r.len() == 9,
        t.len() == 3,
    ensures
        top_rows(affine_cols(r, t, zero, one)) == seq![
            r[0], r[1], r[2], t[0],
            r[3], r[4], r[5], t[1],
            r[6], r[7], r[8], t[2],
        ],
        is_affine_cols(affine_cols(r, t, zero, one), zero, one),
{
    assert(top_rows(affine_cols(r, t, zero, one)) =~= seq![
        r[0], r[1], r[2], t[0],
        r[3], r[4], r[5], t[1],
        r[6], r[7], r[8], t[2],
    ]);
}

/// Law: an affine matrix (bottom row `[0, 0, 0, 1]`) read as a transform
/// and laid out again is the same matrix.
pub proof fn lemma_affine_matrix_round_trip<T>(cols: Seq<T>, zero: T, one: T)
    requires
        is_affine_cols(cols, zero, one),
    ensures
        ({
            let rows = top_rows(cols);
            let r = seq![rows[0], rows[1], rows[2], rows[4], rows[5], rows[6], rows[8], rows[9], rows[10]];
            let t = seq![rows[3], rows[7], rows[11]];
            affine_cols(r, t, zero, one) == cols
        }),
{
    let rows = top_rows(cols);
    let r = seq![rows[0], rows[1], rows[2], rows[4], rows[5], rows[6], rows[8], rows[9], rows[10]];
    let t = seq![rows[3], rows[7], rows[11]];
    assert(affine_cols(r, t, zero, one) =~= cols);
}

// ---------------------------------------------------------------------------
// Reading a STEP document
// ---------------------------------------------------------------------------
/// Whether a STEP reader's return status (an `IFSelect_ReturnStatus` code:
/// void 0, done 1, error 2, fail 3, stop 4) says the file was read.
pub fn read_status_done(status: u32) -> (b: bool)
    ensures
        b == (status == 1),
{
    status == 1
}

/// One stage of reading a STEP document into an assembly document (creating
/// the document, finding its shape tool, reading the file, transferring its
/// contents): reading goes on when the stage succeeded and fails with
/// `StepReadFailed` when it did not.
pub fn step_read_check(stage_succeeded: bool) -> (r: Result<(), Error>)
    ensures
        r is Ok <==> stage_succeeded,
        r is Err ==> r == Err::<(), Error>(Error::StepReadFailed),
{
    if stage_succeeded {
        Ok(())
    } else {
        Err(Error::StepReadFailed)
    }
}

// ---------------------------------------------------------------------------
// Where a node's shape comes from
// ---------------------------------------------------------------------------
/// The label whose shape a node stands for.
#[derive(Debug, Clone, Copy, PartialEq, Eq, Structural)]
pub enum ShapeSource {
    /// The shape that the component refers to.
    Referred,
    /// The shape stored at the node's own label.
    Own,
}

/// A component (instance reference) stands for the shape it refers to when
/// the reference can be resolved; every other node, and a component whose
/// reference cannot be resolved, stands for the shape at its own label.
pub fn shape_source(is_component: bool, reference_found: bool) -> (s: ShapeSource)
    ensures
        s == (if is_component && reference_found {
            ShapeSource::Referred
        } else {
            ShapeSource::Own
        }),
{
    if is_component && reference_found {
        ShapeSource::Referred
    } else {
        ShapeSource::Own
    }
}

// ---------------------------------------------------------------------------
// The assembly tree
// ---------------------------------------------------------------------------
/// One node of an assembly tree snapshot.
pub struct AssemblyTreeNode {
    /// Whether the node is an assembly (its children are visited) or a part.
    is_assembly: bool,
    /// The ids of the node's direct children, in document order.
    children: Vec<usize>,
}

/// A snapshot of the assembly structure of a document.  Nodes are numbered
/// in the order they are added; a node's children are added before it, so
/// every child id is smaller than its parent's id.
pub struct AssemblyTree {
    nodes: Vec<AssemblyTreeNode>,
    roots: Vec<usize>,
}

/// What a node of the tree is: whether it is an assembly, and its children.
pub type NodeModel = (bool, Seq<usize>);

/// The chains of node ids from the node `id` down to each leaf part below
/// it, in depth-first order, each preceded by `prefix`.  A node that is not
/// an assembly is a leaf, whatever children were recorded for it.
pub open spec fn node_leaves(nodes: Seq<NodeModel>, id: usize, prefix: Seq<usize>) -> Seq<Seq<usize>>
    decreases id + 1, 0int,
{
    if id >= nodes.len() {
        Seq::empty()
    } else if !nodes[id as int].0 {
        seq![prefix.push(id)]
    } else {
        list_leaves(nodes, id, nodes[id as int].1, prefix.push(id))
    }
}

/// The leaf chains below each of `ids` in turn, each preceded by `prefix`.
/// Only ids below `bound` are followed.
pub open spec fn list_leaves(nodes: Seq<NodeModel>, bound: usize, ids: Seq<usize>, prefix: Seq<usize>) -> Seq<Seq<usize>>
    decreases bound, ids.len(),
{
    if ids.len() == 0 {
        Seq::empty()
    } else {
        let rest = list_leaves(nodes, bound, ids.drop_last(), prefix);
        if ids.last() < bound {
            rest + node_leaves(nodes, ids.last(), prefix)
        } else {
            rest
        }
    }
}

/// Every child id is smaller than its parent's id, and every root is a node.
pub open spec fn tree_wf(nodes: Seq<NodeModel>, roots: Seq<usize>) -> bool {
    &&& forall|i: int, k: int|
        0 <= i < nodes.len() && 0 <= k < nodes[i].1.len() ==> #[trigger] nodes[i].1[k] < i
    &&& forall|k: int| 0 <= k < roots.len() ==> #[trigger] roots[k] < nodes.len()
}

impl AssemblyTree {
    /// The nodes of the tree, by id.
    pub closed spec fn nodes_spec(&self) -> Seq<NodeModel> {
        self.nodes@.map_values(|n: AssemblyTreeNode| (n.is_assembly, n.children@))
    }

    /// The roots (top-level shapes) of the tree, in order.
    pub closed spec fn roots_spec(&self) -> Seq<usize> {
        self.roots@
    }

    /// The tree is well formed.
    pub open spec fn wf(&self) -> bool {
        tree_wf(self.nodes_spec(), self.roots_spec())
    }

    /// The leaf chains of the whole tree: for each root in order, the chains
    /// from that root down to each leaf part below it, depth first.
    pub open spec fn leaf_paths_spec(&self) -> Seq<Seq<usize>> {
        leaf_chains(self.nodes_spec(), self.roots_spec())
    }

    /// An empty tree.
    pub fn new() -> (t: AssemblyTree)
        ensures
            t.wf(),
            t.nodes_spec() == Seq::<NodeModel>::empty(),
            t.roots_spec() == Seq::<usize>::empty(),
    {
        let t = AssemblyTree { nodes: Vec::new(), roots: Vec::new() };
        assert(t.nodes_spec() =~= Seq::<NodeModel>::empty());
        t
    }

    /// The number of nodes.
    pub fn node_count(&self) -> (n: usize)
        ensures
            n == self.nodes_spec().len(),
    {
        self.nodes.len()
    }

    /// Adds a node with the given children (ids of nodes already added) and
    /// returns its id.
    pub fn add_node(&mut self, is_assembly: bool, children: Vec<usize>) -> (id: usize)
        requires
            old(self).wf(),
            old(self).nodes_spec().len() < usize::MAX,
            forall|k: int| 0 <= k < children@.len() ==> #[trigger] children@[k] < old(self).nodes_spec().len(),
        ensures
            final(self).wf(),
            id == old(self).nodes_spec().len(),
            final(self).nodes_spec() == old(self).nodes_spec().push((is_assembly, children@)),
            final(self).roots_spec() == old(self).roots_spec(),
    {
        let id = self.nodes.len();
        let ghost ch = children@;
        self.nodes.push(AssemblyTreeNode { is_assembly, children });
        assert(self.nodes_spec() =~= old(self).nodes_spec().push((is_assembly, ch)));
        id
    }

    /// Marks the node `id` as the next root of the tree.
    pub fn add_root(&mut self, id: usize)
        requires
            old(self).wf(),
            id < old(self).nodes_spec().len(),
        ensures
            final(self).wf(),
            final(self).nodes_spec() == old(self).nodes_spec(),
            final(self).roots_spec() == old(self).roots_spec().push(id),
    {
        self.roots.push(id);
    }

    /// Flattens the tree: for each root in order, the chain of node ids from
    /// the root down to each leaf part below it, depth first.  The world
    /// transform of a leaf is the product of the local transforms along
    /// its chain, root first.
    pub fn leaf_paths(&self) -> (paths: Vec<Vec<usize>>)
        requires
            self.wf(),
        ensures
            paths.deep_view() == self.leaf_paths_spec(),
            paths.deep_view() == leaf_chains(self.nodes_spec(), self.roots_spec()),
    {
        let mut out: Vec<Vec<usize>> = Vec::new();
        let mut prefix: Vec<usize> = Vec::new();
        let n = self.nodes.len();
        let mut i: usize = 0;
        while i < self.roots.len()
            invariant
                self.wf(),
                n == self.nodes_spec().len(),
                i <= self.roots@.len(),
                prefix@ == Seq::<usize>::empty(),
                out.deep_view() == list_leaves(self.nodes_spec(), n, self.roots@.take(i as int), Seq::empty()),
            decreases self.roots@.len() - i,
        {
            let r = self.roots[i];
            assert(self.roots@.take(i + 1).drop_last() =~= self.roots@.take(i as int));
            assert(self.roots_spec()[i as int] < n);
            self.collect_leaves(r, &mut prefix, &mut out);
            i = i + 1;
        }
        assert(self.roots@.take(i as int) =~= self.roots@);
        out
    }

    /// Appends the leaf chains below `id`, each preceded by `prefix`.
    fn collect_leaves(&self, id: usize, prefix: &mut Vec<usize>, out: &mut Vec<Vec<usize>>)
        requires
            self.wf(),
            id < self.nodes_spec().len(),
        ensures
            final(prefix)@ == old(prefix)@,
            final(out).deep_view() == old(out).deep_view() + node_leaves(self.nodes_spec(), id, old(prefix)@),
        decreases id,
    {
        let ghost nodes = self.nodes_spec();
        let node = &self.nodes[id];
        assert(nodes[id as int] == (node.is_assembly, node.children@));
        if !node.is_assembly {
            let mut path = prefix.clone();
            assert(path@ =~= prefix@);
            path.push(id);
            assert(path.deep_view() =~= old(prefix)@.push(id));
            let ghost before = out.deep_view();
            out.push(path);
            assert(out.deep_view() =~= before.push(old(prefix)@.push(id)));
            assert(out.deep_view() =~= old(out).deep_view() + node_leaves(nodes, id, old(prefix)@));
            return;
        }
        prefix.push(id);
        let ghost p = prefix@;
        let ghost start = out.deep_view();
        let mut k: usize = 0;
        while k < node.children.len()
            invariant
                self.wf(),
                nodes == self.nodes_spec(),
                id < nodes.len(),
                nodes[id as int] == (node.is_assembly, node.children@),
                k <= node.children@.len(),
                prefix@ == p,
                out.deep_view() == start + list_leaves(nodes, id, node.children@.take(k as int), p),
            decreases node.children@.len() - k,
        {
            let c = node.children[k];
            assert(nodes[id as int].1[k as int] < id);
            assert(node.children@.take(k + 1).drop_last() =~= node.children@.take(k as int));
            self.collect_leaves(c, prefix, out);
            k = k + 1;
        }
        assert(node.children@.take(k as int) =~= node.children@);
        prefix.pop();
        assert(prefix@ =~= old(prefix)@);
    }
}

/// `path` goes down the tree from a node to a leaf part: every node of it
/// exists, each node but the last is an assembly that lists the next one
/// among its children, and the last is not an assembly.
pub open spec fn is_leaf_chain(nodes: Seq<NodeModel>, path: Seq<usize>) -> bool {
    &&& path.len() >= 1
    &&& forall|k: int| 0 <= k < path.len() ==> #[trigger] path[k] < nodes.len()
    &&& forall|k: int|
        0 <= k < path.len() - 1 ==> nodes[#[trigger] path[k] as int].0 && nodes[path[k] as int].1.contains(
            path[k + 1],
        )
    &&& !nodes[path.last() as int].0
}

proof fn lemma_node_leaves_are_chains(nodes: Seq<NodeModel>, id: usize, prefix: Seq<usize>)
    ensures
        forall|j: int|
            0 <= j < node_leaves(nodes, id, prefix).len() ==> {
                let q = #[trigger] node_leaves(nodes, id, prefix)[j];
                &&& q.len() > prefix.len()
                &&& q.take(prefix.len() as int) == prefix
                &&& q[prefix.len() as int] == id
                &&& is_leaf_chain(nodes, q.skip(prefix.len() as int))
            },
    decreases id + 1, 0int,
{
    if id >= nodes.len() {
    } else if !nodes[id as int].0 {
        let q = prefix.push(id);
        assert(q.take(prefix.len() as int) =~= prefix);
        assert(q.skip(prefix.len() as int) =~= seq![id]);
    } else {
        let p1 = prefix.push(id);
        lemma_list_leaves_are_chains(nodes, id, nodes[id as int].1, p1);
        assert forall|j: int| 0 <= j < node_leaves(nodes, id, prefix).len() implies {
            let q = #[trigger] node_leaves(nodes, id, prefix)[j];
            &&& q.len() > prefix.len()
            &&& q.take(prefix.len() as int) == prefix
            &&& q[prefix.len() as int] == id
            &&& is_leaf_chain(nodes, q.skip(prefix.len() as int))
        } by {
            let q = node_leaves(nodes, id, prefix)[j];
            let l = list_leaves(nodes, id, nodes[id as int].1, p1);
            assert(q == l[j]);
            let n = prefix.len() as int;
            assert(q.take(n + 1) == p1);
            assert(q.take(n) =~= q.take(n + 1).take(n));
            assert(p1.take(n) =~= prefix);
            assert(q[n] == q.take(n + 1)[n]);
            let tail = q.skip(n + 1);
            let full = q.skip(n);
            assert(full =~= seq![id] + tail);
            assert(is_leaf_chain(nodes, tail));
            assert forall|k: int| 0 <= k < full.len() implies #[trigger] full[k] < nodes.len() by {
                if k > 0 {
                    assert(full[k] == tail[k - 1]);
                }
            }
            assert forall|k: int| 0 <= k < full.len() - 1 implies nodes[#[trigger] full[k] as int].0
                && nodes[full[k] as int].1.contains(full[k + 1]) by {
                if k > 0 {
                    assert(full[k] == tail[k - 1]);
                    assert(full[k + 1] == tail[k]);
                } else {
                    assert(full[1] == tail[0]);
                }
            }
            assert(full.last() == tail.last());
        }
    }
}

proof fn lemma_list_leaves_are_chains(nodes: Seq<NodeModel>, bound: usize, ids: Seq<usize>, prefix: Seq<usize>)
    ensures
        forall|j: int|
            0 <= j < list_leaves(nodes, bound, ids, prefix).len() ==> {
                let q = #[trigger] list_leaves(nodes, bound, ids, prefix)[j];
                &&& q.len() > prefix.len()
                &&& q.take(prefix.len() as int) == prefix
                &&& ids.contains(q[prefix.len() as int])
                &&& is_leaf_chain(nodes, q.skip(prefix.len() as int))
            },
    decreases bound, ids.len(),
{
    if ids.len() == 0 {
    } else {
        let rest = list_leaves(nodes, bound, ids.drop_last(), prefix);
        lemma_list_leaves_are_chains(nodes, bound, ids.drop_last(), prefix);
        if ids.last() < bound {
            lemma_node_leaves_are_chains(nodes, ids.last(), prefix);
        }
        let all = list_leaves(nodes, bound, ids, prefix);
        assert forall|j: int| 0 <= j < all.len() implies {
            let q = #[trigger] all[j];
            &&& q.len() > prefix.len()
            &&& q.take(prefix.len() as int) == prefix
            &&& ids.contains(q[prefix.len() as int])
            &&& is_leaf_chain(nodes, q.skip(prefix.len() as int))
        } by {
            let n = prefix.len() as int;
            if j < rest.len() {
                assert(all[j] == rest[j]);
                let x = rest[j][n];
                assert(ids.drop_last().contains(x));
                let i = choose|i: int| 0 <= i < ids.drop_last().len() && ids.drop_last()[i] == x;
                assert(ids[i] == x);
            } else {
                let tail = node_leaves(nodes, ids.last(), prefix);
                assert(all[j] == tail[j - rest.len()]);
                assert(ids[ids.len() - 1] == ids.last());
            }
        }
    }
}

/// Law: every chain that flattening the tree gives starts at a root and goes
/// down through assemblies, each listing the next node as a child, to a part
/// that is not an assembly.
pub proof fn lemma_leaf_paths_are_root_chains(tree: &AssemblyTree)
    ensures
        forall|j: int|
            0 <= j < tree.leaf_paths_spec().len() ==> {
                let q = #[trigger] tree.leaf_paths_spec()[j];
                &&& tree.roots_spec().contains(q[0])
                &&& is_leaf_chain(tree.nodes_spec(), q)
            },
{
    let nodes = tree.nodes_spec();
    let e = Seq::<usize>::empty();
    lemma_list_leaves_are_chains(nodes, nodes.len() as usize, tree.roots_spec(), e);
    assert forall|j: int| 0 <= j < tree.leaf_paths_spec().len() implies {
        let q = #[trigger] tree.leaf_paths_spec()[j];
        &&& tree.roots_spec().contains(q[0])
        &&& is_leaf_chain(tree.nodes_spec(), q)
    } by {
        let q = tree.leaf_paths_spec()[j];
        assert(q.skip(0) =~= q);
    }
}

/// `q` goes down the tree from `q[0]` to a leaf part by the child positions
/// `pos`: each node but the last exists, is an assembly, and its child at
/// position `pos[k]` is `q[k + 1]`; the last node exists and is not an
/// assembly.
pub open spec fn is_down_route(nodes: Seq<NodeModel>, pos: Seq<int>, q: Seq<usize>) -> bool {
    &&& q.len() >= 1
    &&& pos.len() == q.len() - 1
    &&& forall|k: int| 0 <= k < q.len() ==> #[trigger] q[k] < nodes.len()
    &&& forall|k: int|
        0 <= k < q.len() - 1 ==> {
            &&& nodes[#[trigger] q[k] as int].0
            &&& 0 <= pos[k] < nodes[q[k] as int].1.len()
            &&& nodes[q[k] as int].1[pos[k]] == q[k + 1]
        }
    &&& !nodes[q.last() as int].0
}

proof fn lemma_down_route_tail(nodes: Seq<NodeModel>, pos: Seq<int>, q: Seq<usize>)
    requires
        is_down_route(nodes, pos, q),
        q.len() >= 2,
    ensures
        is_down_route(nodes, pos.drop_first(), q.drop_first()),
{
    let q1 = q.drop_first();
    let p1 = pos.drop_first();
    assert forall|k: int| 0 <= k < q1.len() implies #[trigger] q1[k] < nodes.len() by {
        assert(q1[k] == q[k + 1]);
    }
    assert forall|k: int| 0 <= k < q1.len() - 1 implies {
        &&& nodes[#[trigger] q1[k] as int].0
        &&& 0 <= p1[k] < nodes[q1[k] as int].1.len()
        &&& nodes[q1[k] as int].1[p1[k]] == q1[k + 1]
    } by {
        assert(q1[k] == q[k + 1]);
        assert(q1[k + 1] == q[k + 2]);
        assert(p1[k] == pos[k + 1]);
    }
    assert(q1.last() == q.last());
}

proof fn lemma_node_leaves_complete(
    nodes: Seq<NodeModel>,
    id: usize,
    prefix: Seq<usize>,
    pos: Seq<int>,
    q: Seq<usize>,
)
    requires
        forall|i: int, k: int|
            0 <= i < nodes.len() && 0 <= k < nodes[i].1.len() ==> #[trigger] nodes[i].1[k] < i,
        is_down_route(nodes, pos, q),
        q[0] == id,
    ensures
        node_leaves(nodes, id, prefix).contains(prefix + q),
    decreases id + 1, 0int,
{
    assert(q[0] < nodes.len());
    if !nodes[id as int].0 {
        if q.len() >= 2 {
            assert(nodes[q[0] as int].0);
        }
        assert(prefix + q =~= prefix.push(id));
        assert(node_leaves(nodes, id, prefix)[0] == prefix + q);
    } else {
        if q.len() == 1 {
            assert(q.last() == q[0]);
        }
        let ch = nodes[id as int].1;
        let c = pos[0];
        assert(nodes[q[0] as int].0 && 0 <= pos[0] < ch.len() && ch[pos[0]] == q[1]);
        lemma_down_route_tail(nodes, pos, q);
        let p1 = prefix.push(id);
        assert forall|k: int| 0 <= k < ch.len() implies #[trigger] ch[k] < id by {
            assert(nodes[id as int].1[k] < id);
        }
        lemma_list_leaves_complete(nodes, id, ch, p1, c, pos.drop_first(), q.drop_first());
        assert(p1 + q.drop_first() =~= prefix + q);
    }
}

proof fn lemma_list_leaves_complete(
    nodes: Seq<NodeModel>,
    bound: usize,
    ids: Seq<usize>,
    prefix: Seq<usize>,
    k: int,
    pos: Seq<int>,
    q: Seq<usize>,
)
    requires
        forall|i: int, k: int|
            0 <= i < nodes.len() && 0 <= k < nodes[i].1.len() ==> #[trigger] nodes[i].1[k] < i,
        forall|i: int| 0 <= i < ids.len() ==> #[trigger] ids[i] < bound,
        0 <= k < ids.len(),
        is_down_route(nodes, pos, q),
        q[0] == ids[k],
    ensures
        list_leaves(nodes, bound, ids, prefix).contains(prefix + q),
    decreases bound, ids.len(),
{
    let rest = list_leaves(nodes, bound, ids.drop_last(), prefix);
    let all = list_leaves(nodes, bound, ids, prefix);
    assert(ids.last() == ids[ids.len() - 1]);
    assert(ids.last() < bound);
    if k == ids.len() - 1 {
        lemma_node_leaves_complete(nodes, ids.last(), prefix, pos, q);
        let tail = node_leaves(nodes, ids.last(), prefix);
        let j = choose|j: int| 0 <= j < tail.len() && tail[j] == prefix + q;
        assert(all == rest + tail);
        assert(all[rest.len() + j] == prefix + q);
    } else {
        let d = ids.drop_last();
        assert forall|i: int| 0 <= i < d.len() implies #[trigger] d[i] < bound by {
            assert(d[i] == ids[i]);
        }
        assert(d[k] == ids[k]);
        lemma_list_leaves_complete(nodes, bound, d, prefix, k, pos, q);
        let j = choose|j: int| 0 <= j < rest.len() && rest[j] == prefix + q;
        assert(all == rest + node_leaves(nodes, ids.last(), prefix));
        assert(all[j] == prefix + q);
    }
}

/// Law: flattening drops no part: for every root and every way down from it
/// through assemblies (choosing any child of each) to a part, that chain of
/// nodes is among the leaf paths.  Every root that is a part gives the chain
/// of itself alone.
pub proof fn lemma_leaf_paths_complete(tree: &AssemblyTree, r: int, pos: Seq<int>, q: Seq<usize>)
    requires
        tree.wf(),
        0 <= r < tree.roots_spec().len(),
        is_down_route(tree.nodes_spec(), pos, q),
        q[0] == tree.roots_spec()[r],
    ensures
        tree.leaf_paths_spec().contains(q),
{
    let nodes = tree.nodes_spec();
    let roots = tree.roots_spec();
    assert(nodes.len() == tree.nodes@.len());
    assert(tree.nodes@.len() == tree.nodes.len());
    assert forall|i: int| 0 <= i < roots.len() implies #[trigger] roots[i] < nodes.len() as usize by {}
    lemma_list_leaves_complete(nodes, nodes.len() as usize, roots, Seq::empty(), r, pos, q);
    assert(Seq::<usize>::empty() + q =~= q);
}

/// The leaf chains of the tree with nodes `nodes` and roots `roots`: what
/// flattening it gives.
pub open spec fn leaf_chains(nodes: Seq<NodeModel>, roots: Seq<usize>) -> Seq<Seq<usize>> {
    list_leaves(nodes, nodes.len() as usize, roots, Seq::empty())
}

/// The chains `chains`, each preceded by `prefix`.
pub open spec fn prefixed(prefix: Seq<usize>, chains: Seq<Seq<usize>>) -> Seq<Seq<usize>> {
    chains.map_values(|c: Seq<usize>| prefix + c)
}

proof fn lemma_prefixed_concat(prefix: Seq<usize>, a: Seq<Seq<usize>>, b: Seq<Seq<usize>>)
    ensures
        prefixed(prefix, a + b) == prefixed(prefix, a) + prefixed(prefix, b),
{
    assert(prefixed(prefix, a + b) =~= prefixed(prefix, a) + prefixed(prefix, b));
}

proof fn lemma_node_leaves_prefix(nodes: Seq<NodeModel>, id: usize, prefix: Seq<usize>)
    ensures
        node_leaves(nodes, id, prefix) == prefixed(prefix, node_leaves(nodes, id, Seq::empty())),
    decreases id + 1, 0int,
{
    let e = Seq::<usize>::empty();
    if id >= nodes.len() {
        assert(prefixed(prefix, Seq::<Seq<usize>>::empty()) =~= Seq::<Seq<usize>>::empty());
    } else if !nodes[id as int].0 {
        assert(prefix + e.push(id) =~= prefix.push(id));
        assert(prefixed(prefix, seq![e.push(id)]) =~= seq![prefix.push(id)]);
    } else {
        let ch = nodes[id as int].1;
        lemma_list_leaves_prefix(nodes, id, ch, prefix.push(id));
        lemma_list_leaves_prefix(nodes, id, ch, e.push(id));
        let base = list_leaves(nodes, id, ch, e);
        assert forall|j: int| 0 <= j < base.len() implies prefix + (e.push(id) + #[trigger] base[j]) == prefix.push(id) + base[j] by {
            assert(prefix + (e.push(id) + base[j]) =~= prefix.push(id) + base[j]);
        }
        assert(prefixed(prefix, prefixed(e.push(id), base)) =~= prefixed(prefix.push(id), base));
    }
}

proof fn lemma_list_leaves_prefix(nodes: Seq<NodeModel>, bound: usize, ids: Seq<usize>, prefix: Seq<usize>)
    ensures
        list_leaves(nodes, bound, ids, prefix) == prefixed(prefix, list_leaves(nodes, bound, ids, Seq::empty())),
    decreases bound, ids.len(),
{
    let e = Seq::<usize>::empty();
    if ids.len() == 0 {
        assert(prefixed(prefix, Seq::<Seq<usize>>::empty()) =~= Seq::<Seq<usize>>::empty());
    } else {
        lemma_list_leaves_prefix(nodes, bound, ids.drop_last(), prefix);
        let rest0 = list_leaves(nodes, bound, ids.drop_last(), e);
        if ids.last() < bound {
            lemma_node_leaves_prefix(nodes, ids.last(), prefix);
            lemma_prefixed_concat(prefix, rest0, node_leaves(nodes, ids.last(), e));
        }
    }
}

proof fn lemma_list_leaves_bound(nodes: Seq<NodeModel>, b1: usize, b2: usize, ids: Seq<usize>, prefix: Seq<usize>)
    requires
        forall|i: int| 0 <= i < ids.len() ==> #[trigger] ids[i] < b1 && ids[i] < b2,
    ensures
        list_leaves(nodes, b1, ids, prefix) == list_leaves(nodes, b2, ids, prefix),
    decreases ids.len(),
{
    if ids.len() > 0 {
        let d = ids.drop_last();
        assert forall|i: int| 0 <= i < d.len() implies #[trigger] d[i] < b1 && d[i] < b2 by {
            assert(d[i] == ids[i]);
        }
        lemma_list_leaves_bound(nodes, b1, b2, d, prefix);
        assert(ids.last() == ids[ids.len() - 1]);
    }
}

/// Law: adding a root appends exactly the chains of that root, alone, to
/// the chains of the tree: the roots are flattened one after the other, in
/// order, none dropped or repeated.
pub proof fn lemma_leaf_chains_add_root(nodes: Seq<NodeModel>, roots: Seq<usize>, r: usize)
    requires
        nodes.len() <= usize::MAX,
        tree_wf(nodes, roots.push(r)),
    ensures
        leaf_chains(nodes, roots.push(r)) == leaf_chains(nodes, roots) + leaf_chains(nodes, seq![r]),
{
    let rr = roots.push(r);
    assert(rr.drop_last() =~= roots);
    assert(rr[rr.len() - 1] == r);
    assert(r < nodes.len());
    let single = seq![r];
    assert(single.drop_last() =~= Seq::<usize>::empty());
    assert(list_leaves(nodes, nodes.len() as usize, Seq::<usize>::empty(), Seq::empty()) =~= Seq::<Seq<usize>>::empty());
    assert(leaf_chains(nodes, single) =~= node_leaves(nodes, r, Seq::empty()));
}

/// Law: a root that is a part gives exactly the one chain made of itself.
pub proof fn lemma_leaf_chains_part(nodes: Seq<NodeModel>, r: usize)
    requires
        nodes.len() <= usize::MAX,
        r < nodes.len(),
        !nodes[r as int].0,
    ensures
        leaf_chains(nodes, seq![r]) == seq![seq![r]],
{
    let single = seq![r];
    assert(single.drop_last() =~= Seq::<usize>::empty());
    assert(single.last() == r);
    assert(r < nodes.len() as usize);
    assert(list_leaves(nodes, nodes.len() as usize, Seq::<usize>::empty(), Seq::empty()) =~= Seq::<Seq<usize>>::empty());
    assert(Seq::<usize>::empty().push(r) =~= seq![r]);
    assert(leaf_chains(nodes, single) =~= node_leaves(nodes, r, Seq::empty()));
    assert(node_leaves(nodes, r, Seq::empty()) == seq![Seq::<usize>::empty().push(r)]);
    assert(leaf_chains(nodes, single) =~= seq![seq![r]]);
}

/// Law: an assembly gives, in order, the chains of each of its children
/// (every child, with repeats), each preceded by the assembly itself.
pub proof fn lemma_leaf_chains_assembly(nodes: Seq<NodeModel>, a: usize)
    requires
        nodes.len() <= usize::MAX,
        tree_wf(nodes, seq![a]),
        nodes[a as int].0,
    ensures
        leaf_chains(nodes, seq![a]) == prefixed(seq![a], leaf_chains(nodes, nodes[a as int].1)),
{
    let e = Seq::<usize>::empty();
    let single = seq![a];
    let ch = nodes[a as int].1;
    assert(single[0] == a);
    assert(a < nodes.len());
    assert(single.drop_last() =~= e);
    assert(single.last() == a);
    assert(a < nodes.len() as usize);
    assert(list_leaves(nodes, nodes.len() as usize, e, e) =~= Seq::<Seq<usize>>::empty());
    assert(leaf_chains(nodes, single) =~= node_leaves(nodes, a, e));
    assert(node_leaves(nodes, a, e) == list_leaves(nodes, a, ch, e.push(a)));
    lemma_list_leaves_prefix(nodes, a, ch, e.push(a));
    assert forall|i: int| 0 <= i < ch.len() implies #[trigger] ch[i] < a && ch[i] < nodes.len() as usize by {
        assert(nodes[a as int].1[i] < a);
    }
    lemma_list_leaves_bound(nodes, a, nodes.len() as usize, ch, e);
    assert(e.push(a) =~= seq![a]);
}

} // verus!
