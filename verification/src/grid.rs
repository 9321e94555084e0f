//! Adaptive grids of features: an octree whose leaves hold a vertex and the signs of the
//! field at the leaf's corners, and the quads of the dual mesh, one for each minimal edge
//! along which the sign changes.
use crate::connectivity::{minimal_edges_of, Edges, Faces, MinimalEdges, TraverseOctree};
use crate::octree::{answered_by, bit, built_from, layout, Answer, law_child_follows, Branch, BuildOctree, ChildIndex, Key, Node, Octree};
use crate::quant::Quant;
use crate::topology::{
    cell_edge_table, cell_edges, cell_face_corners, cell_faces, edge_axis, edge_corner_pairs, edge_corner_table, face_axis, spec_edge_kind,
    spec_face_kind, Corner, Delta3, EdgeKind, FaceKind, Neighbors,
};
use crate::extractor::{edge_slot_offset, face_slot_offset, SharedEdgeKind, SharedFaceKind};
use crate::lattice::{has_axis, Offset};
use crate::utils::array_transpose;
use vstd::prelude::*;

verus! {

/// The payload of a leaf: the vertex placed in it, its cell, and which of its corners
/// have a positive field value (bit `i` for corner `i`).
#[derive(Copy, Clone, Debug)]
pub struct Feature<V> {
    pub vertex: V,
    pub quant: Quant,
    pub p_mask: u8,
}

impl<V> Feature<V> {
    /// The field changes sign along the edge between the two corners.
    pub fn contains_sign_change(&self, edge: (Corner, Corner)) -> (r: bool)
        ensures
            r == (bit(self.p_mask, edge.0.bits()) != bit(self.p_mask, edge.1.bits())),
    {
        let (a, b) = edge;
        self.is_corner_sign_positive(a) != self.is_corner_sign_positive(b)
    }

    /// The field changes sign between corners `a` and `b`, given by their numbers.
    pub fn is_feature_edge(&self, a: u8, b: u8) -> (r: bool)
        requires
            a < 8,
            b < 8,
        ensures
            r == (bit(self.p_mask, a) != bit(self.p_mask, b)),
    {
        self.is_corner_sign_positive(Corner::new(a)) != self.is_corner_sign_positive(Corner::new(b))
    }

    pub fn is_corner_sign_positive(&self, corner: Corner) -> (r: bool)
        ensures
            r == bit(self.p_mask, corner.bits()),
    {
        let c = corner.as_u8();
        let mask = self.p_mask;
        proof {
            assert((mask & (1u8 << c) != 0) == ((mask >> c) & 1u8 == 1u8)) by (bit_vector)
                requires
                    c < 8,
            ;
        }
        mask & (1u8 << c) != 0
    }
}

/// The last of the four cells around an edge with the deepest level: the smallest.
pub open spec fn deepest(levels: Seq<nat>) -> int
    decreases levels.len(),
{
    if levels.len() <= 1 {
        0
    } else {
        let rest = deepest(levels.drop_last());
        if levels.last() >= levels[rest] {
            levels.len() - 1
        } else {
            rest
        }
    }
}

/// Along an edge of kind `kind` shared by the cells of `features`, the field changes
/// sign: as the smallest cell, the last of greatest level, sees it at its corners on the
/// edge.
pub open spec fn sign_change<V>(kind: EdgeKind, features: Seq<Feature<V>>) -> bool {
    let i = deepest(features.map_values(|f: Feature<V>| f.quant.spec_level()));
    let (a, b) = edge_corner_pairs(kind)[i];
    bit(features[i].p_mask, a) != bit(features[i].p_mask, b)
}

proof fn lemma_deepest_range(levels: Seq<nat>)
    requires
        levels.len() >= 1,
    ensures
        0 <= deepest(levels) < levels.len(),
    decreases levels.len(),
{
    if levels.len() > 1 {
        lemma_deepest_range(levels.drop_last());
    }
}

/// Whether the field changes sign along the edge of kind `kind` shared by the cells of
/// `features`.
pub fn contains_sign_change<V: Copy>(kind: EdgeKind, features: [Feature<V>; 4]) -> (r: bool)
    ensures
        r == sign_change(kind, features@),
{
    let table = edge_corner_table(kind);
    let ghost levels = features@.map_values(|f: Feature<V>| f.quant.spec_level());
    let mut best: usize = 0;
    let mut best_level = features[0].quant.level();
    let mut i: usize = 1;
    while i < 4
        invariant
            1 <= i <= 4,
            levels == features@.map_values(|f: Feature<V>| f.quant.spec_level()),
            best == deepest(levels.take(i as int)),
            best < i,
            best_level == levels[best as int],
        decreases 4 - i,
    {
        let level = features[i].quant.level();
        proof {
            assert(levels.take(i + 1).drop_last() =~= levels.take(i as int));
            assert(levels.take(i + 1).last() == levels[i as int]);
            assert(levels.take(i + 1)[best as int] == levels[best as int]);
        }
        if level >= best_level {
            best = i;
            best_level = level;
        }
        i = i + 1;
    }
    proof {
        assert(levels.take(4) =~= levels);
        Corner::lemma_of(edge_corner_pairs(kind)[best as int].0);
        Corner::lemma_of(edge_corner_pairs(kind)[best as int].1);
    }
    let (a, b) = table[best];
    features[best].contains_sign_change((a, b))
}

/// An octree of features.
pub struct AdaptiveGrid<V> {
    octree: Octree<Feature<V>>,
}

/// How far a key of the grid is from the leaves, bounded by where it is stored: children
/// are stored after their parents.
pub open spec fn key_height<V>(nodes: Seq<Node<u32>>, key: Key) -> nat {
    if (key.0 as int) < nodes.len() && nodes[key.0 as int] is Branch {
        (nodes.len() - key.0) as nat
    } else {
        0
    }
}

/// Refining the node at `key` of an octree with nodes `nodes` to its child `which`: the
/// child of a branch, where it has one, and any other key itself.
pub open spec fn refined_key(nodes: Seq<Node<u32>>, key: Key, which: Corner) -> Option<Key> {
    if (key.0 as int) < nodes.len() && nodes[key.0 as int] is Branch {
        nodes[key.0 as int]->Branch_0.spec_child(which.bits())
    } else {
        Some(key)
    }
}

/// The branches among `nodes`, in order.
pub open spec fn grid_branches(nodes: Seq<Node<u32>>) -> Seq<Branch> {
    nodes.filter(|n: Node<u32>| n is Branch).map_values(|n: Node<u32>| n->Branch_0)
}

/// The keys of the two children that meet across interior face `i` of kind `kind` of
/// branch `b`, where it has both.
pub open spec fn face_keys(b: Branch, kind: FaceKind, i: int) -> Seq<[Key; 2]> {
    match (b.spec_child(cell_faces(kind)[i].0), b.spec_child(cell_faces(kind)[i].1)) {
        (Some(k0), Some(k1)) => seq![[k0, k1]],
        _ => seq![],
    }
}

/// The faces of kind `kind` among the first `n` interior faces of branch `b`.
pub open spec fn branch_faces(b: Branch, kind: FaceKind, n: int) -> Seq<[Key; 2]>
    decreases n,
{
    if n <= 0 {
        seq![]
    } else {
        branch_faces(b, kind, n - 1) + face_keys(b, kind, n - 1)
    }
}

/// The interior faces of kind `kind` of the branches `bs`, branch by branch.
pub open spec fn interior_faces(bs: Seq<Branch>, kind: FaceKind) -> Seq<[Key; 2]>
    decreases bs.len(),
{
    if bs.len() == 0 {
        seq![]
    } else {
        interior_faces(bs.drop_last(), kind) + branch_faces(bs.last(), kind, 4)
    }
}

/// The keys of the four children around interior edge `j` of kind `kind` of branch `b`,
/// where it has them all.
pub open spec fn edge_keys(b: Branch, kind: EdgeKind, j: int) -> Seq<[Key; 4]> {
    let c = cell_edges(kind)[j];
    match (b.spec_child(c[0]), b.spec_child(c[1]), b.spec_child(c[2]), b.spec_child(c[3])) {
        (Some(k0), Some(k1), Some(k2), Some(k3)) => seq![[k0, k1, k2, k3]],
        _ => seq![],
    }
}

/// The edges of kind `kind` among the first `n` interior edges of branch `b`.
pub open spec fn branch_edges(b: Branch, kind: EdgeKind, n: int) -> Seq<[Key; 4]>
    decreases n,
{
    if n <= 0 {
        seq![]
    } else {
        branch_edges(b, kind, n - 1) + edge_keys(b, kind, n - 1)
    }
}

/// The interior edges of kind `kind` of the branches `bs`, branch by branch.
pub open spec fn interior_edges(bs: Seq<Branch>, kind: EdgeKind) -> Seq<[Key; 4]>
    decreases bs.len(),
{
    if bs.len() == 0 {
        seq![]
    } else {
        interior_edges(bs.drop_last(), kind) + branch_edges(bs.last(), kind, 2)
    }
}

/// The faces of axis `b` while axis `a` of the branch that `after` adds is being
/// collected: those of `after` for an axis already done, else those of `before`.
spec fn old_axis_faces(before: Seq<Branch>, after: Seq<Branch>, a: int, b: int) -> Seq<[Key; 2]> {
    if b < a {
        interior_faces(after, spec_face_kind(b))
    } else {
        interior_faces(before, spec_face_kind(b))
    }
}

spec fn old_axis_edges(before: Seq<Branch>, after: Seq<Branch>, a: int, b: int) -> Seq<[Key; 4]> {
    if b < a {
        interior_edges(after, spec_edge_kind(b))
    } else {
        interior_edges(before, spec_edge_kind(b))
    }
}

impl<V: Copy> AdaptiveGrid<V> {
    pub closed spec fn spec_nodes(&self) -> Seq<Node<u32>> {
        self.octree.spec_nodes()
    }

    pub closed spec fn spec_leaves(&self) -> Seq<Feature<V>> {
        self.octree.spec_leaves()
    }

    /// The feature of the leaf at `key`, where the grid has one.
    pub open spec fn feature(&self, key: Key) -> Option<Feature<V>> {
        if (key.0 as int) < self.spec_nodes().len() && self.spec_nodes()[key.0 as int] is Leaf && (
        self.spec_nodes()[key.0 as int]->Leaf_0 as int) < self.spec_leaves().len() {
            Some(self.spec_leaves()[self.spec_nodes()[key.0 as int]->Leaf_0 as int])
        } else {
            None
        }
    }

    pub open spec fn wf(&self) -> bool {
        layout(self.spec_nodes())
    }

    /// The grid whose octree `source` describes.
    pub fn build<S>(source: &mut S) -> (r: AdaptiveGrid<V>) where S: BuildOctree<Feature<V>>
        ensures
            r.wf(),
            exists|tags: Seq<S::Tag>, answers: Seq<Answer<u32, S::Tag>>|
                #[trigger] built_from(r.spec_nodes(), tags, answers) && answered_by(*old(source), tags, answers),
    {
        AdaptiveGrid { octree: Octree::build(source) }
    }

    /// The feature of the leaf at `key`, where there is one.
    fn get_feature(&self, key: Key) -> (r: Option<Feature<V>>)
        ensures
            r == self.feature(key),
    {
        match self.octree.get(key) {
            Some(Node::Leaf(feature)) => Some(*feature),
            _ => {
                proof {
                    if self.feature(key) is Some {
                        assert(self.octree.contains(key));
                    }
                }
                None
            },
        }
    }

    /// Whether `key` is not a branch of the grid.
    fn is_leaf_key(&self, key: Key) -> (r: bool)
        ensures
            r == !((key.0 as int) < self.spec_nodes().len() && self.spec_nodes()[key.0 as int] is Branch),
    {
        match self.octree.get(key) {
            Some(Node::Branch(_)) => false,
            _ => {
                proof {
                    if (key.0 as int) < self.spec_nodes().len() && self.spec_nodes()[key.0 as int] is Branch {
                        assert(self.octree.contains(key));
                    }
                }
                true
            },
        }
    }

    /// The child `which` of the node at `key`, or the node itself where it is a leaf.
    fn refine_key(&self, key: Key, which: Corner) -> (r: Option<Key>)
        requires
            self.wf(),
        ensures
            r matches Some(c) ==> key_height::<V>(self.spec_nodes(), c) == 0 || key_height::<V>(self.spec_nodes(), c)
                < key_height::<V>(self.spec_nodes(), key),
            r == refined_key(self.spec_nodes(), key, which),
    {
        match self.octree.get(key) {
            Some(Node::Branch(branch)) => {
                let r = branch.child(ChildIndex::new(which.as_u8()));
                proof {
                    if r is Some {
                        law_child_follows(self.spec_nodes(), key.0 as int, which.bits());
                    }
                }
                r
            },
            _ => {
                proof {
                    if (key.0 as int) < self.spec_nodes().len() && self.spec_nodes()[key.0 as int] is Branch {
                        assert(self.octree.contains(key));
                    }
                }
                Some(key)
            },
        }
    }

    /// The faces and edges inside each branch, between its children.
    fn interior(&self) -> (r: MinimalEdges<Key>)
        ensures
            forall|a: int|
                0 <= a < 3 ==> (#[trigger] r.spec_faces().axis(a)) == interior_faces(
                    grid_branches(self.spec_nodes()),
                    spec_face_kind(a),
                ) && r.spec_edges().axis(a) == interior_edges(grid_branches(self.spec_nodes()), spec_edge_kind(a)),
    {
        let mut faces: Faces<Key> = Faces::new();
        let mut edges: Edges<Key> = Edges::new();
        let branches = self.octree.branches();
        let ghost bs = grid_branches(self.spec_nodes());
        let face_kinds = [FaceKind::X, FaceKind::Y, FaceKind::Z];
        let edge_kinds = [EdgeKind::X, EdgeKind::Y, EdgeKind::Z];
        proof {
            assert(branches@ == bs);
            assert(forall|a: int| 0 <= a < 3 ==> (#[trigger] faces.axis(a)) =~= interior_faces(bs.take(0), spec_face_kind(a)));
            assert(forall|a: int| 0 <= a < 3 ==> (#[trigger] edges.axis(a)) =~= interior_edges(bs.take(0), spec_edge_kind(a)));
        }
        let mut i: usize = 0;
        while i < branches.len()
            invariant
                branches@ == bs,
                i <= bs.len(),
                forall|a: int| 0 <= a < 3 ==> face_kinds[a] == spec_face_kind(a) && edge_kinds[a] == spec_edge_kind(a),
                forall|a: int| 0 <= a < 3 ==> (#[trigger] faces.axis(a)) == interior_faces(bs.take(i as int), spec_face_kind(a)),
                forall|a: int| 0 <= a < 3 ==> (#[trigger] edges.axis(a)) == interior_edges(bs.take(i as int), spec_edge_kind(a)),
            decreases branches@.len() - i,
        {
            let branch = branches[i];
            let ghost before = bs.take(i as int);
            let ghost after = bs.take(i + 1);
            proof {
                assert(after.drop_last() =~= before);
                assert(after.last() == branch);
                assert(after.len() > 0);
            }
            let mut a: usize = 0;
            while a < 3
                invariant
                    i < bs.len(),
                    after.len() > 0,
                    branch == bs[i as int],
                    after.drop_last() == before,
                    after.last() == branch,
                    a <= 3,
                    forall|a: int| 0 <= a < 3 ==> face_kinds[a] == spec_face_kind(a),
                    forall|b: int| 0 <= b < a ==> (#[trigger] faces.axis(b)) == interior_faces(after, spec_face_kind(b)),
                    forall|b: int| a <= b < 3 ==> (#[trigger] faces.axis(b)) == interior_faces(before, spec_face_kind(b)),
                decreases 3 - a,
            {
                let kind = face_kinds[a];
                let table = cell_face_corners(kind);
                let mut j: usize = 0;
                while j < 4
                    invariant
                        a < 3,
                        kind == spec_face_kind(a as int),
                        j <= 4,
                        forall|i: int|
                            0 <= i < 4 ==> (#[trigger] table[i]).0 == Corner::of(cell_faces(kind)[i].0) && table[i].1
                                == Corner::of(cell_faces(kind)[i].1),
                        faces.axis(a as int) == interior_faces(before, kind) + branch_faces(branch, kind, j as int),
                        forall|b: int| 0 <= b < 3 && b != a ==> (#[trigger] faces.axis(b)) == old_axis_faces(
                            before,
                            after,
                            a as int,
                            b,
                        ),
                    decreases 4 - j,
                {
                    let (c0, c1) = table[j];
                    proof {
                        Corner::lemma_of(cell_faces(kind)[j as int].0);
                        Corner::lemma_of(cell_faces(kind)[j as int].1);
                    }
                    let k0 = branch.child(ChildIndex::new(c0.as_u8()));
                    let k1 = branch.child(ChildIndex::new(c1.as_u8()));
                    let ghost prev = faces.axis(a as int);
                    match array_transpose([k0, k1]) {
                        Some(keys) => {
                            faces.insert(kind, keys);
                            proof {
                                assert(keys =~= [k0->0, k1->0]);
                            }
                        },
                        None => {},
                    }
                    proof {
                        assert(branch_faces(branch, kind, j + 1) == branch_faces(branch, kind, j as int) + face_keys(
                            branch,
                            kind,
                            j as int,
                        ));
                        assert(faces.axis(a as int) =~= interior_faces(before, kind) + branch_faces(
                            branch,
                            kind,
                            j + 1,
                        ));
                    }
                    j = j + 1;
                }
                proof {
                    assert(faces.axis(a as int) == interior_faces(after, kind));
                }
                a = a + 1;
            }
            let mut a: usize = 0;
            while a < 3
                invariant
                    i < bs.len(),
                    after.len() > 0,
                    branch == bs[i as int],
                    after.drop_last() == before,
                    after.last() == branch,
                    a <= 3,
                    forall|a: int| 0 <= a < 3 ==> edge_kinds[a] == spec_edge_kind(a),
                    forall|b: int| 0 <= b < a ==> (#[trigger] edges.axis(b)) == interior_edges(after, spec_edge_kind(b)),
                    forall|b: int| a <= b < 3 ==> (#[trigger] edges.axis(b)) == interior_edges(before, spec_edge_kind(b)),
                decreases 3 - a,
            {
                let kind = edge_kinds[a];
                let table = cell_edge_table(kind);
                let mut j: usize = 0;
                while j < 2
                    invariant
                        a < 3,
                        kind == spec_edge_kind(a as int),
                        j <= 2,
                        forall|j: int, s: int|
                            0 <= j < 2 && 0 <= s < 4 ==> (#[trigger] table[j][s]).bits() == cell_edges(kind)[j][s],
                        edges.axis(a as int) == interior_edges(before, kind) + branch_edges(branch, kind, j as int),
                        forall|b: int| 0 <= b < 3 && b != a ==> (#[trigger] edges.axis(b)) == old_axis_edges(
                            before,
                            after,
                            a as int,
                            b,
                        ),
                    decreases 2 - j,
                {
                    let row = table[j];
                    let k0 = branch.child(ChildIndex::new(row[0].as_u8()));
                    let k1 = branch.child(ChildIndex::new(row[1].as_u8()));
                    let k2 = branch.child(ChildIndex::new(row[2].as_u8()));
                    let k3 = branch.child(ChildIndex::new(row[3].as_u8()));
                    match array_transpose([k0, k1, k2, k3]) {
                        Some(keys) => {
                            edges.insert(kind, keys);
                            proof {
                                assert(keys =~= [k0->0, k1->0, k2->0, k3->0]);
                            }
                        },
                        None => {},
                    }
                    proof {
                        assert(branch_edges(branch, kind, j + 1) == branch_edges(branch, kind, j as int) + edge_keys(
                            branch,
                            kind,
                            j as int,
                        ));
                        assert(edges.axis(a as int) =~= interior_edges(before, kind) + branch_edges(
                            branch,
                            kind,
                            j + 1,
                        ));
                    }
                    j = j + 1;
                }
                proof {
                    assert(edges.axis(a as int) == interior_edges(after, kind));
                }
                a = a + 1;
            }
            i = i + 1;
        }
        proof {
            assert(bs.take(bs.len() as int) =~= bs);
        }
        MinimalEdges::new(faces, edges)
    }

    /// Calls `f` with the vertices of the four cells around each minimal edge of the grid
    /// along which the field changes sign.
    pub fn for_each_interior_quad<F>(&self, f: F) where F: FnMut([V; 4])
        requires
            self.wf(),
            forall|q: [V; 4]| feature_quad(self, q) ==> call_requires(f, (q,)),
        ensures
            exists|m: MinimalEdges<Key>, found: Seq<(EdgeKind, [Key; 4])>|
                #[trigger] grid_minimal_edges(self, m, found) && quads_handed(self, found, found.len() as int, f),
    {
        let mut f = f;
        let ghost f0 = f;
        let mut cx = GridCells { grid: self };
        let interior = self.interior();
        let ghost m = interior;
        let found = interior.leaf_edges(&mut cx);
        proof {
            assert(grid_minimal_edges(self, m, found@));
        }
        let mut i: usize = 0;
        while i < found.len()
            invariant
                forall|q: [V; 4]| feature_quad(self, q) ==> call_requires(f0, (q,)),
                f == f0,
                grid_minimal_edges(self, m, found@),
                i <= found@.len(),
                quads_handed(self, found@, i as int, f0),
            decreases found@.len() - i,
        {
            let (kind, keys) = found[i];
            let ghost e = found@[i as int];
            let f0 = self.get_feature(keys[0]);
            let f1 = self.get_feature(keys[1]);
            let f2 = self.get_feature(keys[2]);
            let f3 = self.get_feature(keys[3]);
            let transposed = array_transpose([f0, f1, f2, f3]);
            proof {
                assert(e == (kind, keys));
                assert(edge_features(self, keys) == seq![f0, f1, f2, f3]);
            }
            if let Some(features) = transposed {
                if contains_sign_change(kind, features) {
                    let q = [features[0].vertex, features[1].vertex, features[2].vertex, features[3].vertex];
                    proof {
                        assert(q@ =~= features@.map_values(|x: Feature<V>| x.vertex));
                        self.lemma_quad_of_edge(found@[i as int], features, q);
                        assert(feature_quad(self, q));
                    }
                    f(q);
                    proof {
                        assert forall|q2: [V; 4]| #[trigger] quad_of_edge(self, e, q2) implies call_ensures(f, (q2,), ()) by {
                            self.lemma_quad_unique(e, q, q2);
                        }
                    }
                } else {
                    proof {
                        self.lemma_no_quad(e, transposed);
                    }
                }
            } else {
                proof {
                    assert(!(forall|j: int| 0 <= j < 4 ==> ([f0, f1, f2, f3][j]) is Some));
                    let j = choose|j: int| 0 <= j < 4 && !(([f0, f1, f2, f3][j]) is Some);
                    assert(edge_features(self, e.1)[j] is None);
                    self.lemma_no_quad(e, transposed);
                }
            }
            i = i + 1;
        }
        proof {
            assert(grid_minimal_edges(self, m, found@) && quads_handed(self, found@, found@.len() as int, f0));
        }
    }

    proof fn lemma_quad_of_edge(&self, e: (EdgeKind, [Key; 4]), features: [Feature<V>; 4], q: [V; 4])
        requires
            forall|j: int| 0 <= j < 4 ==> Some(#[trigger] features[j]) == [
                self.feature(e.1[0]),
                self.feature(e.1[1]),
                self.feature(e.1[2]),
                self.feature(e.1[3]),
            ][j],
            sign_change(e.0, features@),
            q@ == features@.map_values(|x: Feature<V>| x.vertex),
        ensures
            quad_of_edge(self, e, q),
    {
        let fs = edge_features(self, e.1);
        assert forall|j: int| 0 <= j < 4 implies (#[trigger] fs[j]) == Some(features[j]) by {
            assert(fs[j] == [
                self.feature(e.1[0]),
                self.feature(e.1[1]),
                self.feature(e.1[2]),
                self.feature(e.1[3]),
            ][j]);
        }
        assert(fs.map_values(|o: Option<Feature<V>>| o->0) =~= features@);
        assert(q@ =~= fs.map_values(|o: Option<Feature<V>>| o->0.vertex));
    }

    /// An edge has at most one quad.
    proof fn lemma_quad_unique(&self, e: (EdgeKind, [Key; 4]), q1: [V; 4], q2: [V; 4])
        requires
            quad_of_edge(self, e, q1),
            quad_of_edge(self, e, q2),
        ensures
            q1 == q2,
    {
        assert forall|j: int| 0 <= j < 4 implies q1[j] == q2[j] by {
            assert(q1@[j] == q2@[j]);
        }
        assert(q1 =~= q2);
    }

    /// An edge with a missing leaf, or without a sign change across the leaves
    /// `features`, has no quad.
    proof fn lemma_no_quad(&self, e: (EdgeKind, [Key; 4]), features: Option<[Feature<V>; 4]>)
        requires
            features is None ==> exists|j: int| 0 <= j < 4 && #[trigger] edge_features(self, e.1)[j] is None,
            features matches Some(fs) ==> (forall|j: int|
                0 <= j < 4 ==> Some(#[trigger] fs[j]) == edge_features(self, e.1)[j]) && !sign_change(e.0, fs@),
        ensures
            forall|q: [V; 4]| !quad_of_edge(self, e, q),
    {
        if let Some(fs) = features {
            let es = edge_features(self, e.1);
            assert(es.map_values(|o: Option<Feature<V>>| o->0) =~= fs@) by {
                assert forall|j: int| 0 <= j < 4 implies es.map_values(|o: Option<Feature<V>>| o->0)[j] == fs@[j] by {
                    assert(Some(fs[j]) == es[j]);
                }
            }
        }
    }
}

impl<V: Copy> AdaptiveGrid<V> {
    /// `for_each_interior_quad`, under the name that chunk extraction uses.
    pub fn for_each_quad<F>(&self, f: F) where F: FnMut([V; 4])
        requires
            self.wf(),
            forall|q: [V; 4]| feature_quad(self, q) ==> call_requires(f, (q,)),
        ensures
            exists|m: MinimalEdges<Key>, found: Seq<(EdgeKind, [Key; 4])>|
                #[trigger] grid_minimal_edges(self, m, found) && quads_handed(self, found, found.len() as int, f),
    {
        self.for_each_interior_quad(f)
    }

    /// Calls `f` with the vertices of the four cells around each minimal edge of the grid
    /// along which the field changes sign, as the smallest of the cells sees it at its two
    /// corners on the edge.
    pub fn for_each_feature_edge<F>(&self, f: F) where F: FnMut([V; 4])
        requires
            self.wf(),
            forall|q: [V; 4]| feature_quad(self, q) ==> call_requires(f, (q,)),
        ensures
            exists|m: MinimalEdges<Key>, found: Seq<(EdgeKind, [Key; 4])>|
                #[trigger] grid_minimal_edges(self, m, found) && quads_handed(self, found, found.len() as int, f),
    {
        let mut f = f;
        let ghost f0 = f;
        let mut cx = GridCells { grid: self };
        let interior = self.interior();
        let ghost m = interior;
        let found = interior.leaf_edges(&mut cx);
        proof {
            assert(grid_minimal_edges(self, m, found@));
        }
        let mut n: usize = 0;
        while n < found.len()
            invariant
                forall|q: [V; 4]| feature_quad(self, q) ==> call_requires(f0, (q,)),
                f == f0,
                grid_minimal_edges(self, m, found@),
                n <= found@.len(),
                quads_handed(self, found@, n as int, f0),
            decreases found@.len() - n,
        {
            let (kind, keys) = found[n];
            let ghost e = found@[n as int];
            proof {
                assert(e == (kind, keys));
            }
            match self.feature_edge(kind, keys) {
                Some(q) => {
                    proof {
                        assert(feature_quad(self, q));
                    }
                    f(q);
                    proof {
                        assert forall|q2: [V; 4]| #[trigger] quad_of_edge(self, e, q2) implies call_ensures(f, (q2,), ()) by {
                            self.lemma_quad_unique(e, q, q2);
                        }
                    }
                },
                None => {},
            }
            n = n + 1;
        }
        proof {
            assert(grid_minimal_edges(self, m, found@) && quads_handed(self, found@, found@.len() as int, f0));
        }
    }

    /// The vertices of the four leaves around the edge `keys` of kind `kind`, where they
    /// are all leaves and the deepest of them, the last on ties, changes sign at its two
    /// corners on the edge.
    fn feature_edge(&self, kind: EdgeKind, keys: [Key; 4]) -> (r: Option<[V; 4]>)
        ensures
            r matches Some(q) ==> quad_of_edge(self, (kind, keys), q),
            r is None ==> forall|q: [V; 4]| !quad_of_edge(self, (kind, keys), q),
    {
        let ghost e = (kind, keys);
        let f0 = self.get_feature(keys[0]);
        let f1 = self.get_feature(keys[1]);
        let f2 = self.get_feature(keys[2]);
        let f3 = self.get_feature(keys[3]);
        let transposed = array_transpose([f0, f1, f2, f3]);
        proof {
            assert(edge_features(self, keys) == seq![f0, f1, f2, f3]);
        }
        if let Some(edge) = transposed {
            let indices: [[u8; 2]; 4] = match kind {
                EdgeKind::X => [[6, 7], [4, 5], [0, 1], [2, 3]],
                EdgeKind::Y => [[5, 7], [4, 6], [0, 2], [1, 3]],
                EdgeKind::Z => [[3, 7], [2, 6], [0, 4], [1, 5]],
            };
            let ghost levels = edge@.map_values(|x: Feature<V>| x.quant.spec_level());
            let mut min_index: usize = 0;
            let mut max_level = edge[0].quant.level();
            let mut i: usize = 1;
            while i < 4
                invariant
                    1 <= i <= 4,
                    levels == edge@.map_values(|x: Feature<V>| x.quant.spec_level()),
                    min_index == deepest(levels.take(i as int)),
                    min_index < i,
                    max_level == levels[min_index as int],
                decreases 4 - i,
            {
                let level = edge[i].quant.level();
                proof {
                    assert(levels.take(i + 1).drop_last() =~= levels.take(i as int));
                    assert(levels.take(i + 1).last() == levels[i as int]);
                    assert(levels.take(i + 1)[min_index as int] == levels[min_index as int]);
                }
                if level >= max_level {
                    min_index = i;
                    max_level = level;
                }
                i = i + 1;
            }
            let pair = indices[min_index];
            proof {
                assert(levels.take(4) =~= levels);
                assert(pair[0] as int == edge_corner_pairs(kind)[min_index as int].0);
                assert(pair[1] as int == edge_corner_pairs(kind)[min_index as int].1);
                assert(pair[0] < 8 && pair[1] < 8);
            }
            if edge[min_index].is_feature_edge(pair[0], pair[1]) {
                let q = [edge[0].vertex, edge[1].vertex, edge[2].vertex, edge[3].vertex];
                proof {
                    assert(sign_change(kind, edge@));
                    assert(q@ =~= edge@.map_values(|x: Feature<V>| x.vertex));
                    self.lemma_quad_of_edge(e, edge, q);
                }
                Some(q)
            } else {
                proof {
                    assert(!sign_change(kind, edge@));
                    self.lemma_no_quad(e, transposed);
                }
                None
            }
        } else {
            proof {
                assert(!(forall|j: int| 0 <= j < 4 ==> ([f0, f1, f2, f3][j]) is Some));
                let j = choose|j: int| 0 <= j < 4 && !(([f0, f1, f2, f3][j]) is Some);
                assert(edge_features(self, e.1)[j] is None);
                self.lemma_no_quad(e, transposed);
            }
            None
        }
    }
}

/// The cells of one grid, for the traversal of its minimal edges.
pub struct GridCells<'a, V> {
    pub grid: &'a AdaptiveGrid<V>,
}

/// The faces and edges of `m` are those inside the branches of `grid`, between their
/// children.
pub open spec fn interior_of<V: Copy>(grid: &AdaptiveGrid<V>, m: MinimalEdges<Key>) -> bool {
    forall|a: int|
        0 <= a < 3 ==> (#[trigger] m.spec_faces().axis(a)) == interior_faces(
            grid_branches(grid.spec_nodes()),
            spec_face_kind(a),
        ) && m.spec_edges().axis(a) == interior_edges(grid_branches(grid.spec_nodes()), spec_edge_kind(a))
}

/// `found` lists the minimal edges of `grid`, each with its kind, as the traversal from the
/// faces and edges `m` inside its branches reaches them.
pub open spec fn grid_minimal_edges<V: Copy>(
    grid: &AdaptiveGrid<V>,
    m: MinimalEdges<Key>,
    found: Seq<(EdgeKind, [Key; 4])>,
) -> bool {
    &&& interior_of(grid, m)
    &&& minimal_edges_of(GridCells { grid }, m.spec_faces(), m.spec_edges(), found)
}

/// The features of the four cells around the edge `keys`, where the grid has them.
pub open spec fn edge_features<V: Copy>(grid: &AdaptiveGrid<V>, keys: [Key; 4]) -> Seq<Option<Feature<V>>> {
    seq![grid.feature(keys[0]), grid.feature(keys[1]), grid.feature(keys[2]), grid.feature(keys[3])]
}

/// The four cells around the edge `e` of `grid` are leaves, the field changes sign along
/// the edge, and `q` holds the vertices of the cells, in order.
pub open spec fn quad_of_edge<V: Copy>(grid: &AdaptiveGrid<V>, e: (EdgeKind, [Key; 4]), q: [V; 4]) -> bool {
    let fs = edge_features(grid, e.1);
    &&& forall|j: int| 0 <= j < 4 ==> (#[trigger] fs[j]) is Some
    &&& sign_change(e.0, fs.map_values(|o: Option<Feature<V>>| o->0))
    &&& q@ == fs.map_values(|o: Option<Feature<V>>| o->0.vertex)
}

/// `f` has been called with the quad of each of the first `n` edges of `found` that has
/// one.
pub open spec fn quads_handed<V: Copy, F: FnMut([V; 4])>(
    grid: &AdaptiveGrid<V>,
    found: Seq<(EdgeKind, [Key; 4])>,
    n: int,
    f: F,
) -> bool {
    forall|i: int, q: [V; 4]| 0 <= i < n && #[trigger] quad_of_edge(grid, found[i], q) ==> call_ensures(f, (q,), ())
}

/// `q` holds the vertices of the four cells around a minimal edge of `grid` along which the
/// field changes sign.
pub open spec fn feature_quad<V: Copy>(grid: &AdaptiveGrid<V>, q: [V; 4]) -> bool {
    exists|m: MinimalEdges<Key>, found: Seq<(EdgeKind, [Key; 4])>, i: int|
        #[trigger] grid_minimal_edges(grid, m, found) && 0 <= i < found.len() && #[trigger] quad_of_edge(
            grid,
            found[i],
            q,
        )
}

impl<'a, V: Copy> TraverseOctree for GridCells<'a, V> {
    type Node = Key;

    closed spec fn height(&self, node: Key) -> nat {
        key_height::<V>(self.grid.spec_nodes(), node)
    }

    closed spec fn wf(&self) -> bool {
        self.grid.wf()
    }

    closed spec fn refines_face(&self, node: Key, kind: FaceKind, slot: usize, corner: Corner, r: Option<Key>) -> bool {
        r == refined_key(self.grid.spec_nodes(), node, corner)
    }

    closed spec fn refines_edge(&self, node: Key, kind: EdgeKind, slot: usize, corner: Corner, r: Option<Key>) -> bool {
        r == refined_key(self.grid.spec_nodes(), node, corner)
    }

    fn is_face_leaf(&mut self, node: &Key, slot: usize) -> (r: bool) {
        self.grid.is_leaf_key(*node)
    }

    fn is_edge_leaf(&mut self, node: &Key, kind: EdgeKind, slot: usize) -> (r: bool) {
        self.grid.is_leaf_key(*node)
    }

    fn refine_face(&mut self, node: &Key, kind: FaceKind, slot: usize, corner: Corner) -> (r: Option<Key>) {
        self.grid.refine_key(*node, corner)
    }

    fn refine_edge(&mut self, node: &Key, kind: EdgeKind, slot: usize, corner: Corner) -> (r: Option<Key>) {
        self.grid.refine_key(*node, corner)
    }
}

/// A grid next to the one whose seams are traversed, and the step to it.
#[derive(Copy, Clone)]
pub struct SeamSlot<'a, V> {
    pub grid: &'a AdaptiveGrid<V>,
    pub offset: Delta3,
}

/// The feature of the leaf `key` of the grid in slot `which`, with the step to that grid.
pub open spec fn slot_feature<V: Copy>(slots: Seq<SeamSlot<V>>, which: int, key: Key) -> Option<(Feature<V>, Delta3)> {
    if 0 <= which < slots.len() {
        match slots[which].grid.feature(key) {
            Some(f) => Some((f, slots[which].offset)),
            None => None,
        }
    } else {
        None
    }
}

/// `q` holds four leaves of the grids of `slots`, each with the step to its grid, around
/// an edge of kind `kind`, and the field changes sign along that edge.
pub open spec fn slot_quad_at<V: Copy>(
    slots: Seq<SeamSlot<V>>,
    kind: EdgeKind,
    cells: Seq<(int, Key)>,
    q: [(Feature<V>, Delta3); 4],
) -> bool {
    &&& cells.len() == 4
    &&& forall|j: int| 0 <= j < 4 ==> slot_feature(slots, cells[j].0, cells[j].1) == Some(#[trigger] q[j])
    &&& sign_change(kind, q@.map_values(|x: (Feature<V>, Delta3)| x.0))
}

/// `q` holds four leaves of the grids of `slots`, each with the step to its grid, around
/// an edge along which the field changes sign.
pub open spec fn slot_quad<V: Copy>(slots: Seq<SeamSlot<V>>, q: [(Feature<V>, Delta3); 4]) -> bool {
    exists|kind: EdgeKind, cells: Seq<(int, Key)>| #[trigger] slot_quad_at(slots, kind, cells, q)
}

/// The slot of the grid `grid` at the chunk offset `bits`.
pub open spec fn chunk_slot<'a, V>(grid: &'a AdaptiveGrid<V>, bits: u8) -> SeamSlot<'a, V> {
    SeamSlot {
        grid,
        offset: Delta3 {
            x: if has_axis(bits, 0) { 1i32 } else { 0i32 },
            y: if has_axis(bits, 1) { 1i32 } else { 0i32 },
            z: if has_axis(bits, 2) { 1i32 } else { 0i32 },
        },
    }
}

impl<'a, V> SeamSlot<'a, V> {
    fn new(grid: &'a AdaptiveGrid<V>, offset: Delta3) -> (r: SeamSlot<'a, V>)
        ensures
            r.grid == grid,
            r.offset == offset,
    {
        SeamSlot { grid, offset }
    }
}

/// A node of one of the grids along a seam: the grid's slot, and the node's key in it.
#[derive(Copy, Clone, Debug)]
pub struct SeamCell {
    pub which: u8,
    pub key: Key,
}

impl SeamCell {
    fn new(which: u8, key: Key) -> (r: SeamCell)
        ensures
            r.which == which,
            r.key == key,
    {
        SeamCell { which, key }
    }
}

/// The cells of the grids along a seam, for the traversal of its minimal edges.
pub struct SeamCells<'a, 'b, V> {
    pub slots: &'b Vec<SeamSlot<'a, V>>,
}

/// `q` holds, for the edge `e` along the seam between the grids of `slots`, the leaf of
/// each of its four cells with the step to its grid, and the field changes sign along it.
pub open spec fn seam_quad_of<V: Copy>(slots: Seq<SeamSlot<V>>, e: (EdgeKind, [SeamCell; 4]), q: [(Feature<V>, Delta3); 4]) -> bool {
    &&& forall|j: int| 0 <= j < 4 ==> slot_feature(slots, e.1[j].which as int, e.1[j].key) == Some(#[trigger] q[j])
    &&& sign_change(e.0, q@.map_values(|x: (Feature<V>, Delta3)| x.0))
}

/// `f` has been called with the quad of each of the first `n` edges of `found` that has
/// one.
pub open spec fn seam_quads_handed<V: Copy, F: FnMut([(Feature<V>, Delta3); 4])>(
    slots: Seq<SeamSlot<V>>,
    found: Seq<(EdgeKind, [SeamCell; 4])>,
    n: int,
    f: F,
) -> bool {
    forall|i: int, q: [(Feature<V>, Delta3); 4]|
        0 <= i < n && #[trigger] seam_quad_of(slots, found[i], q) ==> call_ensures(f, (q,), ())
}

/// The traversal of the seam between the grids of `slots`, from the faces `faces` and the
/// edges `edges`, reaches the minimal edges `found`, and `f` has been called with the quad
/// of each that has one.
pub open spec fn seam_traversed<'a, 'b, V: Copy, F: FnMut([(Feature<V>, Delta3); 4])>(
    slots: &'b Vec<SeamSlot<'a, V>>,
    faces: Faces<SeamCell>,
    edges: Edges<SeamCell>,
    f: F,
) -> bool {
    exists|found: Seq<(EdgeKind, [SeamCell; 4])>|
        #[trigger] minimal_edges_of(SeamCells { slots }, faces, edges, found) && seam_quads_handed(
            slots@,
            found,
            found.len() as int,
            f,
        )
}

/// `faces` holds one face, of kind `kind`, between the roots of slots 0 and 1; `edges`
/// holds none.
pub open spec fn face_seam_roots(faces: Faces<SeamCell>, edges: Edges<SeamCell>, kind: FaceKind) -> bool {
    &&& faces.axis(face_axis(kind)) == seq![[SeamCell { which: 0, key: Key(0) }, SeamCell { which: 1, key: Key(0) }]]
    &&& forall|a: int| 0 <= a < 3 && a != face_axis(kind) ==> (#[trigger] faces.axis(a)).len() == 0
    &&& forall|a: int| 0 <= a < 3 ==> (#[trigger] edges.axis(a)).len() == 0
}

/// `edges` holds one edge, of kind `kind`, around the roots of slots 0 to 3; `faces`
/// holds none.
pub open spec fn edge_seam_roots(faces: Faces<SeamCell>, edges: Edges<SeamCell>, kind: EdgeKind) -> bool {
    &&& edges.axis(edge_axis(kind)) == seq![
        [
            SeamCell { which: 0, key: Key(0) },
            SeamCell { which: 1, key: Key(0) },
            SeamCell { which: 2, key: Key(0) },
            SeamCell { which: 3, key: Key(0) },
        ],
    ]
    &&& forall|a: int| 0 <= a < 3 && a != edge_axis(kind) ==> (#[trigger] edges.axis(a)).len() == 0
    &&& forall|a: int| 0 <= a < 3 ==> (#[trigger] faces.axis(a)).len() == 0
}

impl<'a, 'b, V: Copy> TraverseOctree for SeamCells<'a, 'b, V> {
    type Node = SeamCell;

    closed spec fn height(&self, node: SeamCell) -> nat {
        if (node.which as int) < self.slots@.len() {
            key_height::<V>(self.slots@[node.which as int].grid.spec_nodes(), node.key)
        } else {
            0
        }
    }

    closed spec fn wf(&self) -> bool {
        forall|i: int| 0 <= i < self.slots@.len() ==> (#[trigger] self.slots@[i]).grid.wf()
    }

    closed spec fn refines_face(&self, node: SeamCell, kind: FaceKind, slot: usize, corner: Corner, r: Option<SeamCell>) -> bool {
        r == self.refined_cell(node, corner)
    }

    closed spec fn refines_edge(&self, node: SeamCell, kind: EdgeKind, slot: usize, corner: Corner, r: Option<SeamCell>) -> bool {
        r == self.refined_cell(node, corner)
    }

    fn is_face_leaf(&mut self, node: &SeamCell, slot: usize) -> (r: bool) {
        self.is_cell_leaf(node)
    }

    fn is_edge_leaf(&mut self, node: &SeamCell, kind: EdgeKind, slot: usize) -> (r: bool) {
        self.is_cell_leaf(node)
    }

    fn refine_face(&mut self, node: &SeamCell, kind: FaceKind, slot: usize, corner: Corner) -> (r: Option<SeamCell>) {
        self.refine_cell(node, corner)
    }

    fn refine_edge(&mut self, node: &SeamCell, kind: EdgeKind, slot: usize, corner: Corner) -> (r: Option<SeamCell>) {
        self.refine_cell(node, corner)
    }
}

impl<'a, 'b, V: Copy> SeamCells<'a, 'b, V> {
    /// Refining a cell to its child `corner`: within the cell's own grid, and any cell
    /// outside the slots itself.
    spec fn refined_cell(&self, node: SeamCell, corner: Corner) -> Option<SeamCell> {
        if (node.which as int) < self.slots@.len() {
            match refined_key(self.slots@[node.which as int].grid.spec_nodes(), node.key, corner) {
                Some(key) => Some(SeamCell { which: node.which, key }),
                None => None,
            }
        } else {
            Some(node)
        }
    }

    fn is_cell_leaf(&self, node: &SeamCell) -> (r: bool)
        ensures
            r == (self.height(*node) == 0),
    {
        let which = node.which as usize;
        if which < self.slots.len() {
            self.slots[which].grid.is_leaf_key(node.key)
        } else {
            true
        }
    }

    fn refine_cell(&self, node: &SeamCell, corner: Corner) -> (r: Option<SeamCell>)
        requires
            self.wf(),
        ensures
            r matches Some(c) ==> self.height(c) == 0 || self.height(c) < self.height(*node),
            r == self.refined_cell(*node, corner),
    {
        let which = node.which as usize;
        if which < self.slots.len() {
            proof {
                assert(self.slots@[which as int].grid.wf());
            }
            match self.slots[which].grid.refine_key(node.key, corner) {
                Some(key) => Some(SeamCell { which: node.which, key }),
                None => None,
            }
        } else {
            Some(*node)
        }
    }
}

/// Calls `f` for each minimal edge, along the seam between the grids of `slots`, across
/// which the field changes sign, with the feature of each of the four leaves around it
/// and the step to its grid.
fn traverse_seam<V: Copy, F: FnMut([(Feature<V>, Delta3); 4])>(
    slots: &Vec<SeamSlot<V>>,
    faces: Faces<SeamCell>,
    edges: Edges<SeamCell>,
    f: &mut F,
)
    requires
        forall|i: int| 0 <= i < slots@.len() ==> (#[trigger] slots@[i]).grid.wf(),
        forall|q: [(Feature<V>, Delta3); 4]| slot_quad(slots@, q) ==> call_requires(*old(f), (q,)),
    ensures
        *final(f) == *old(f),
        seam_traversed(slots, faces, edges, *old(f)),
{
    let ghost f0 = *f;
    let ghost faces0 = faces;
    let ghost edges0 = edges;
    let mut cx = SeamCells { slots };
    let found = MinimalEdges::new(faces, edges).leaf_edges(&mut cx);
    let mut n: usize = 0;
    while n < found.len()
        invariant
            forall|q: [(Feature<V>, Delta3); 4]| slot_quad(slots@, q) ==> call_requires(f0, (q,)),
            *f == f0,
            n <= found@.len(),
            seam_quads_handed(slots@, found@, n as int, f0),
        decreases found@.len() - n,
    {
        let (kind, cells) = found[n];
        let ghost e = found@[n as int];
        let s0 = seam_feature(slots, cells[0]);
        let s1 = seam_feature(slots, cells[1]);
        let s2 = seam_feature(slots, cells[2]);
        let s3 = seam_feature(slots, cells[3]);
        let transposed = array_transpose([s0, s1, s2, s3]);
        proof {
            assert(e == (kind, cells));
            let ss = seq![s0, s1, s2, s3];
            assert forall|j: int| 0 <= j < 4 implies slot_feature(slots@, cells[j].which as int, cells[j].key)
                == #[trigger] ss[j] && ss[j] == [s0, s1, s2, s3][j] by {}
        }
        if let Some(located) = transposed {
            let features = [located[0].0, located[1].0, located[2].0, located[3].0];
            proof {
                assert(features@ =~= located@.map_values(|x: (Feature<V>, Delta3)| x.0));
                assert forall|q2: [(Feature<V>, Delta3); 4]| #[trigger] seam_quad_of(slots@, e, q2) implies q2 == located by {
                    assert forall|j: int| 0 <= j < 4 implies q2[j] == located[j] by {
                        assert(Some(located[j]) == [s0, s1, s2, s3][j]);
                        assert(seq![s0, s1, s2, s3][j] == [s0, s1, s2, s3][j]);
                        assert(slot_feature(slots@, cells[j].which as int, cells[j].key) == Some(q2[j]));
                    }
                    assert(q2 =~= located);
                }
            }
            if contains_sign_change(kind, features) {
                proof {
                    let cells = seq![
                        (cells[0].which as int, cells[0].key),
                        (cells[1].which as int, cells[1].key),
                        (cells[2].which as int, cells[2].key),
                        (cells[3].which as int, cells[3].key),
                    ];
                    assert forall|j: int| 0 <= j < 4 implies slot_feature(slots@, cells[j].0, cells[j].1) == Some(
                        #[trigger] located[j],
                    ) by {
                        assert(Some(located[j]) == [s0, s1, s2, s3][j]);
                    }
                    assert(slot_quad_at(slots@, kind, cells, located));
                    assert(slot_quad(slots@, located));
                }
                f(located);
            }
        } else {
            proof {
                assert(!(forall|j: int| 0 <= j < 4 ==> ([s0, s1, s2, s3][j]) is Some));
                let j = choose|j: int| 0 <= j < 4 && !(([s0, s1, s2, s3][j]) is Some);
                assert forall|q2: [(Feature<V>, Delta3); 4]| !seam_quad_of(slots@, e, q2) by {
                    if seam_quad_of(slots@, e, q2) {
                        assert(seq![s0, s1, s2, s3][j] == [s0, s1, s2, s3][j]);
                        assert(slot_feature(slots@, cells[j].which as int, cells[j].key) == Some(q2[j]));
                    }
                }
            }
        }
        n = n + 1;
    }
    proof {
        assert(minimal_edges_of(SeamCells { slots }, faces0, edges0, found@));
    }
}

/// The feature at `cell`, where it is a leaf of its grid, and the step to that grid.
fn seam_feature<V: Copy>(slots: &Vec<SeamSlot<V>>, cell: SeamCell) -> (r: Option<(Feature<V>, Delta3)>)
    ensures
        r == if (cell.which as int) < slots@.len() {
            match slots@[cell.which as int].grid.feature(cell.key) {
                Some(f) => Some((f, slots@[cell.which as int].offset)),
                None => None,
            }
        } else {
            None
        },
{
    let which = cell.which as usize;
    if which < slots.len() {
        let slot = slots[which];
        match slot.grid.get_feature(cell.key) {
            Some(feature) => Some((feature, slot.offset)),
            None => None,
        }
    } else {
        None
    }
}

/// Each grid of `slots` is `grid` or a neighbor that `peek` gives.
pub open spec fn seam_grids<'a, V, N: FnMut(Delta3) -> Option<&'a AdaptiveGrid<V>>>(
    grid: &'a AdaptiveGrid<V>,
    peek: N,
    slots: Seq<SeamSlot<'a, V>>,
) -> bool {
    forall|t: int|
        0 <= t < slots.len() ==> (#[trigger] slots[t]).grid == grid || exists|d: Delta3|
            call_ensures(peek, (d,), Some(slots[t].grid))
}

/// Where both grids across a face seam, `tagged`, are there, the seam between them, from
/// the face of kind `kind` between their roots, has been traversed with `f`.
pub open spec fn face_seam_done<'a, V: Copy, F: FnMut([(Feature<V>, Delta3); 4])>(
    tagged: [(Delta3, Option<&'a AdaptiveGrid<V>>); 2],
    kind: FaceKind,
    f: F,
) -> bool {
    tagged[0].1 is Some && tagged[1].1 is Some ==> exists|
        slots: Vec<SeamSlot<'a, V>>,
        faces: Faces<SeamCell>,
        edges: Edges<SeamCell>,
    |
        slots@ == seq![
            SeamSlot { grid: tagged[0].1->0, offset: tagged[0].0 },
            SeamSlot { grid: tagged[1].1->0, offset: tagged[1].0 },
        ] && face_seam_roots(faces, edges, kind) && #[trigger] seam_traversed(&slots, faces, edges, f)
}

/// Where all four grids around an edge seam, `tagged`, are there, the seam between them,
/// from the edge of kind `kind` around their roots, has been traversed with `f`.
pub open spec fn edge_seam_done<'a, V: Copy, F: FnMut([(Feature<V>, Delta3); 4])>(
    tagged: [(Delta3, Option<&'a AdaptiveGrid<V>>); 4],
    kind: EdgeKind,
    f: F,
) -> bool {
    tagged[0].1 is Some && tagged[1].1 is Some && tagged[2].1 is Some && tagged[3].1 is Some ==> exists|
        slots: Vec<SeamSlot<'a, V>>,
        faces: Faces<SeamCell>,
        edges: Edges<SeamCell>,
    |
        slots@ == seq![
            SeamSlot { grid: tagged[0].1->0, offset: tagged[0].0 },
            SeamSlot { grid: tagged[1].1->0, offset: tagged[1].0 },
            SeamSlot { grid: tagged[2].1->0, offset: tagged[2].0 },
            SeamSlot { grid: tagged[3].1->0, offset: tagged[3].0 },
        ] && edge_seam_roots(faces, edges, kind) && #[trigger] seam_traversed(&slots, faces, edges, f)
}

/// `nb` holds what `peek` gave for the step to each neighbor of `grid`, and every seam
/// between `grid` and its neighbors has been traversed with `f` where its grids are there.
pub open spec fn seams_traversed<'a, V: Copy, N: FnMut(Delta3) -> Option<&'a AdaptiveGrid<V>>, F: FnMut([(Feature<V>, Delta3); 4])>(
    grid: &'a AdaptiveGrid<V>,
    peek: N,
    nb: Neighbors<Option<&'a AdaptiveGrid<V>>>,
    f: F,
) -> bool {
    &&& forall|k: int| 0 <= k < 6 ==> call_ensures(peek, (crate::topology::face_step(k),), #[trigger] nb.face(k))
    &&& forall|k: int| 0 <= k < 12 ==> call_ensures(peek, (crate::topology::edge_step(k),), #[trigger] nb.edge(k))
    &&& forall|k: int|
        #![trigger nb.face(k)]
        0 <= k < 6 ==> face_seam_done(
            crate::topology::face_seam(crate::topology::face_step(k), nb.face(k), k % 2 == 1, Some(grid)),
            spec_face_kind(k / 2),
            f,
        )
    &&& forall|k: int|
        0 <= k < 12 ==> #[trigger] edge_seam_done(crate::topology::edge_seam(nb, k, Some(grid)), spec_edge_kind(k / 4), f)
}

impl<V: Copy> AdaptiveGrid<V> {
    /// Calls `f` for each minimal edge along the seams between this grid and its
    /// neighbors across which the field changes sign, with the feature of each of the
    /// four leaves around it and the step to that leaf's grid. `peek` gives the neighbor at a
    /// step, where there is one; a seam is traversed only where every grid along it is
    /// there.
    pub fn for_each_seam_quad<'a, N, F>(&'a self, peek: N, f: F) where
        N: FnMut(Delta3) -> Option<&'a AdaptiveGrid<V>>,
        F: FnMut([(Feature<V>, Delta3); 4]),

        requires
            self.wf(),
            forall|d: Delta3| call_requires(peek, (d,)),
            forall|d: Delta3, g: &AdaptiveGrid<V>| call_ensures(peek, (d,), Some(g)) ==> g.wf(),
            forall|q: [(Feature<V>, Delta3); 4], slots: Seq<SeamSlot<V>>|
                slot_quad(slots, q) && seam_grids(self, peek, slots) ==> call_requires(f, (q,)),
        ensures
            exists|nb: Neighbors<Option<&'a AdaptiveGrid<V>>>| #[trigger] seams_traversed(self, peek, nb, f),
    {
        let mut f = f;
        let ghost f0 = f;
        let neighbors = Neighbors::from_fn(peek);
        let this: Option<&'a AdaptiveGrid<V>> = Some(self);
        let face_seams = neighbors.face_seams(this);
        let mut i: usize = 0;
        while i < face_seams.len()
            invariant
                forall|q: [(Feature<V>, Delta3); 4], slots: Seq<SeamSlot<V>>|
                    slot_quad(slots, q) && seam_grids(self, peek, slots) ==> call_requires(f0, (q,)),
                f == f0,
                self.wf(),
                this == Some(self),
                face_seams@.len() == 6,
                forall|k: int|
                    0 <= k < 6 ==> #[trigger] face_seams@[k] == (
                        crate::topology::spec_face_kind(k / 2),
                        crate::topology::face_seam(crate::topology::face_step(k), neighbors.face(k), k % 2 == 1, this),
                    ),
                forall|k: int| 0 <= k < 6 ==> call_ensures(peek, (crate::topology::face_step(k),), #[trigger] neighbors.face(k)),
                forall|k: int| 0 <= k < 12 ==> call_ensures(peek, (crate::topology::edge_step(k),), #[trigger] neighbors.edge(k)),
                forall|d: Delta3, g: &AdaptiveGrid<V>| call_ensures(peek, (d,), Some(g)) ==> g.wf(),
                i <= 6,
                forall|k: int|
                    #![trigger neighbors.face(k)]
                    0 <= k < i ==> face_seam_done(
                        crate::topology::face_seam(crate::topology::face_step(k), neighbors.face(k), k % 2 == 1, Some(self)),
                        spec_face_kind(k / 2),
                        f0,
                    ),
            decreases face_seams@.len() - i,
        {
            let (kind, tagged) = face_seams[i];
            match (tagged[0].1, tagged[1].1) {
                (Some(g0), Some(g1)) => {
                    proof {
                        let k = i as int;
                        let seam = crate::topology::face_seam(
                            crate::topology::face_step(k),
                            neighbors.face(k),
                            k % 2 == 1,
                            this,
                        );
                        assert(tagged == seam);
                        assert(call_ensures(peek, (crate::topology::face_step(k),), neighbors.face(k)));
                        if k % 2 == 1 {
                            assert(seam[0].1 == this && seam[1].1 == neighbors.face(k));
                            assert(g0 == self);
                            assert(call_ensures(peek, (crate::topology::face_step(k),), Some(g1)));
                        } else {
                            assert(seam[1].1 == this && seam[0].1 == neighbors.face(k));
                            assert(g1 == self);
                            assert(call_ensures(peek, (crate::topology::face_step(k),), Some(g0)));
                        }
                    }
                    let mut faces: Faces<SeamCell> = Faces::new();
                    let c0 = SeamCell::new(0, Key::root());
                    let c1 = SeamCell::new(1, Key::root());
                    faces.insert(kind, [c0, c1]);
                    let mut slots: Vec<SeamSlot<V>> = Vec::new();
                    slots.push(SeamSlot::new(g0, tagged[0].0));
                    slots.push(SeamSlot::new(g1, tagged[1].0));
                    assert(g0.wf() && g1.wf());
                    assert(slots@[0].grid == g0 && slots@[1].grid == g1);
                    proof {
                        let k = i as int;
                        assert(call_ensures(peek, (crate::topology::face_step(k),), neighbors.face(k)));
                        assert(seam_grids(self, peek, slots@));
                    }
                    let edges: Edges<SeamCell> = Edges::new();
                    let ghost faces0 = faces;
                    let ghost edges0 = edges;
                    proof {
                        assert(c0 == SeamCell { which: 0, key: Key(0) });
                        assert(c1 == SeamCell { which: 1, key: Key(0) });
                        assert(faces0.axis(face_axis(kind)) =~= seq![[c0, c1]]);
                        assert(kind == spec_face_kind(i as int / 2));
                        assert(face_seam_roots(faces0, edges0, kind));
                        assert(slots@ =~= seq![
                            SeamSlot { grid: tagged[0].1->0, offset: tagged[0].0 },
                            SeamSlot { grid: tagged[1].1->0, offset: tagged[1].0 },
                        ]);
                    }
                    traverse_seam(&slots, faces, edges, &mut f);
                    proof {
                        assert(seam_traversed(&slots, faces0, edges0, f0));
                        assert(face_seam_done(tagged, kind, f0));
                    }
                },
                _ => {},
            }
            i = i + 1;
        }
        let edge_seams = neighbors.edge_seams(this);
        let mut i: usize = 0;
        while i < edge_seams.len()
            invariant
                forall|q: [(Feature<V>, Delta3); 4], slots: Seq<SeamSlot<V>>|
                    slot_quad(slots, q) && seam_grids(self, peek, slots) ==> call_requires(f0, (q,)),
                f == f0,
                self.wf(),
                this == Some(self),
                edge_seams@.len() == 12,
                forall|k: int|
                    0 <= k < 12 ==> #[trigger] edge_seams@[k] == (
                        crate::topology::spec_edge_kind(k / 4),
                        crate::topology::edge_seam(neighbors, k, this),
                    ),
                forall|k: int| 0 <= k < 6 ==> call_ensures(peek, (crate::topology::face_step(k),), #[trigger] neighbors.face(k)),
                forall|k: int| 0 <= k < 12 ==> call_ensures(peek, (crate::topology::edge_step(k),), #[trigger] neighbors.edge(k)),
                forall|d: Delta3, g: &AdaptiveGrid<V>| call_ensures(peek, (d,), Some(g)) ==> g.wf(),
                i <= 12,
                forall|k: int|
                    #![trigger neighbors.face(k)]
                    0 <= k < 6 ==> face_seam_done(
                        crate::topology::face_seam(crate::topology::face_step(k), neighbors.face(k), k % 2 == 1, Some(self)),
                        spec_face_kind(k / 2),
                        f0,
                    ),
                forall|k: int|
                    0 <= k < i ==> #[trigger] edge_seam_done(crate::topology::edge_seam(neighbors, k, Some(self)), spec_edge_kind(k / 4), f0),
            decreases edge_seams@.len() - i,
        {
            let (kind, tagged) = edge_seams[i];
            match (tagged[0].1, tagged[1].1, tagged[2].1, tagged[3].1) {
                (Some(g0), Some(g1), Some(g2), Some(g3)) => {
                    let mut edges: Edges<SeamCell> = Edges::new();
                    let c0 = SeamCell::new(0, Key::root());
                    let c1 = SeamCell::new(1, Key::root());
                    let c2 = SeamCell::new(2, Key::root());
                    let c3 = SeamCell::new(3, Key::root());
                    edges.insert(kind, [c0, c1, c2, c3]);
                    let mut slots: Vec<SeamSlot<V>> = Vec::new();
                    slots.push(SeamSlot::new(g0, tagged[0].0));
                    slots.push(SeamSlot::new(g1, tagged[1].0));
                    slots.push(SeamSlot::new(g2, tagged[2].0));
                    slots.push(SeamSlot::new(g3, tagged[3].0));
                    proof {
                        let k = i as int;
                        let (fa, fb) = crate::topology::edge_faces(k);
                        assert(0 <= fa < 6 && 0 <= fb < 6);
                        let seam = crate::topology::edge_seam(neighbors, k, this);
                        assert(tagged == seam);
                        assert(call_ensures(peek, (crate::topology::face_step(fa),), neighbors.face(fa)));
                        assert(call_ensures(peek, (crate::topology::face_step(fb),), neighbors.face(fb)));
                        assert(call_ensures(peek, (crate::topology::edge_step(k),), neighbors.edge(k)));
                        assert forall|s: int| 0 <= s < 4 implies {
                            ||| seam[s].1 == this
                            ||| seam[s].1 == neighbors.face(fa)
                            ||| seam[s].1 == neighbors.face(fb)
                            ||| seam[s].1 == neighbors.edge(k)
                        } by {
                            assert(seam[s] == crate::topology::edge_seam_entry(neighbors, k, this, s));
                        }
                        assert(seam[0].1 == tagged[0].1 && seam[1].1 == tagged[1].1);
                        assert(seam[2].1 == tagged[2].1 && seam[3].1 == tagged[3].1);
                        assert forall|g: &AdaptiveGrid<V>|
                            #![trigger g.wf()]
                            g == self || call_ensures(peek, (crate::topology::face_step(fa),), Some(g))
                                || call_ensures(peek, (crate::topology::face_step(fb),), Some(g))
                                || call_ensures(peek, (crate::topology::edge_step(k),), Some(g)) implies g.wf() by {}
                    }
                    assert(g0.wf() && g1.wf() && g2.wf() && g3.wf());
                    assert(slots@[0].grid == g0 && slots@[1].grid == g1);
                    assert(slots@[2].grid == g2 && slots@[3].grid == g3);
                    proof {
                        let k = i as int;
                        let (fa, fb) = crate::topology::edge_faces(k);
                        assert(call_ensures(peek, (crate::topology::face_step(fa),), neighbors.face(fa)));
                        assert(call_ensures(peek, (crate::topology::face_step(fb),), neighbors.face(fb)));
                        assert(call_ensures(peek, (crate::topology::edge_step(k),), neighbors.edge(k)));
                        assert(seam_grids(self, peek, slots@));
                    }
                    let faces: Faces<SeamCell> = Faces::new();
                    let ghost faces0 = faces;
                    let ghost edges0 = edges;
                    proof {
                        assert(c0 == SeamCell { which: 0, key: Key(0) });
                        assert(c1 == SeamCell { which: 1, key: Key(0) });
                        assert(c2 == SeamCell { which: 2, key: Key(0) });
                        assert(c3 == SeamCell { which: 3, key: Key(0) });
                        assert(edges0.axis(edge_axis(kind)) =~= seq![[c0, c1, c2, c3]]);
                        assert(kind == spec_edge_kind(i as int / 4));
                        assert(edge_seam_roots(faces0, edges0, kind));
                        assert(slots@ =~= seq![
                            SeamSlot { grid: tagged[0].1->0, offset: tagged[0].0 },
                            SeamSlot { grid: tagged[1].1->0, offset: tagged[1].0 },
                            SeamSlot { grid: tagged[2].1->0, offset: tagged[2].0 },
                            SeamSlot { grid: tagged[3].1->0, offset: tagged[3].0 },
                        ]);
                    }
                    traverse_seam(&slots, faces, edges, &mut f);
                    proof {
                        assert(seam_traversed(&slots, faces0, edges0, f0));
                        assert(edge_seam_done(tagged, kind, f0));
                    }
                },
                _ => {},
            }
            i = i + 1;
        }
        proof {
            assert(seams_traversed(self, peek, neighbors, f0));
        }
    }
}

/// The step to a chunk at a lattice offset.
fn offset_delta(offset: Offset) -> (r: Delta3)
    ensures
        r.x == (if has_axis(offset.bits(), 0) { 1i32 } else { 0i32 }),
        r.y == (if has_axis(offset.bits(), 1) { 1i32 } else { 0i32 }),
        r.z == (if has_axis(offset.bits(), 2) { 1i32 } else { 0i32 }),
{
    let c = offset.as_coords();
    Delta3::new(c.x as i32, c.y as i32, c.z as i32)
}

/// The seam across a face shared by the grids of two chunks, in slot order.
pub struct FaceSeam<'a, V> {
    kind: FaceKind,
    grids: [&'a AdaptiveGrid<V>; 2],
}

impl<'a, V: Copy> FaceSeam<'a, V> {
    pub fn new(kind: FaceKind, grids: [&'a AdaptiveGrid<V>; 2]) -> (r: FaceSeam<'a, V>)
        ensures
            r.spec_kind() == kind,
            r.spec_grids() == grids,
    {
        FaceSeam { kind, grids }
    }

    pub closed spec fn spec_kind(&self) -> FaceKind {
        self.kind
    }

    pub closed spec fn spec_grids(&self) -> [&'a AdaptiveGrid<V>; 2] {
        self.grids
    }

    /// Calls `f` for each minimal edge along the face across which the field changes
    /// sign, with the feature of each of the four leaves around it and the step from the
    /// first chunk to that leaf's chunk.
    pub fn for_each_quad<F>(&self, f: F) where F: FnMut([(Feature<V>, Delta3); 4])
        requires
            self.spec_grids()[0].wf(),
            self.spec_grids()[1].wf(),
            forall|q: [(Feature<V>, Delta3); 4]| slot_quad(self.spec_slots(), q) ==> call_requires(f, (q,)),
        ensures
            exists|slots: Vec<SeamSlot<'a, V>>, faces: Faces<SeamCell>, edges: Edges<SeamCell>|
                slots@ == self.spec_slots() && face_seam_roots(faces, edges, self.spec_kind()) && #[trigger] seam_traversed(
                    &slots,
                    faces,
                    edges,
                    f,
                ),
    {
        let ghost f0 = f;
        let mut f = f;
        let offsets = SharedFaceKind(self.kind).slot_offsets();
        let mut faces: Faces<SeamCell> = Faces::new();
        let c0 = SeamCell::new(0, Key::root());
        let c1 = SeamCell::new(1, Key::root());
        faces.insert(self.kind, [c0, c1]);
        let mut slots: Vec<SeamSlot<V>> = Vec::new();
        slots.push(SeamSlot::new(self.grids[0], offset_delta(offsets[0])));
        slots.push(SeamSlot::new(self.grids[1], offset_delta(offsets[1])));
        proof {
            assert(slots@ =~= self.spec_slots());
        }
        let edges: Edges<SeamCell> = Edges::new();
        let ghost faces0 = faces;
        let ghost edges0 = edges;
        proof {
            assert(c0 == SeamCell { which: 0, key: Key(0) });
            assert(c1 == SeamCell { which: 1, key: Key(0) });
            assert(faces0.axis(face_axis(self.kind)) =~= seq![[c0, c1]]);
            assert(face_seam_roots(faces0, edges0, self.kind));
        }
        traverse_seam(&slots, faces, edges, &mut f);
        proof {
            assert(seam_traversed(&slots, faces0, edges0, f0));
        }
    }

    /// The two grids with the steps to their chunks from the first.
    pub open spec fn spec_slots(&self) -> Seq<SeamSlot<'a, V>> {
        seq![
            chunk_slot(self.spec_grids()[0], face_slot_offset(self.spec_kind(), 0)),
            chunk_slot(self.spec_grids()[1], face_slot_offset(self.spec_kind(), 1)),
        ]
    }
}

/// The seam along an edge shared by the grids of four chunks, in slot order.
pub struct EdgeSeam<'a, V> {
    kind: EdgeKind,
    grids: [&'a AdaptiveGrid<V>; 4],
}

impl<'a, V: Copy> EdgeSeam<'a, V> {
    pub fn new(kind: EdgeKind, grids: [&'a AdaptiveGrid<V>; 4]) -> (r: EdgeSeam<'a, V>)
        ensures
            r.spec_kind() == kind,
            r.spec_grids() == grids,
    {
        EdgeSeam { kind, grids }
    }

    pub closed spec fn spec_kind(&self) -> EdgeKind {
        self.kind
    }

    pub closed spec fn spec_grids(&self) -> [&'a AdaptiveGrid<V>; 4] {
        self.grids
    }

    /// Calls `f` for each minimal edge along the edge across which the field changes
    /// sign, with the feature of each of the four leaves around it and the step from the
    /// first chunk to that leaf's chunk.
    pub fn for_each_quad<F>(&self, f: F) where F: FnMut([(Feature<V>, Delta3); 4])
        requires
            forall|s: int| 0 <= s < 4 ==> (#[trigger] self.spec_grids()[s]).wf(),
            forall|q: [(Feature<V>, Delta3); 4]| slot_quad(self.spec_slots(), q) ==> call_requires(f, (q,)),
        ensures
            exists|slots: Vec<SeamSlot<'a, V>>, faces: Faces<SeamCell>, edges: Edges<SeamCell>|
                slots@ == self.spec_slots() && edge_seam_roots(faces, edges, self.spec_kind()) && #[trigger] seam_traversed(
                    &slots,
                    faces,
                    edges,
                    f,
                ),
    {
        let ghost f0 = f;
        let mut f = f;
        let offsets = SharedEdgeKind(self.kind).slot_offsets();
        let mut edges: Edges<SeamCell> = Edges::new();
        let c0 = SeamCell::new(0, Key::root());
        let c1 = SeamCell::new(1, Key::root());
        let c2 = SeamCell::new(2, Key::root());
        let c3 = SeamCell::new(3, Key::root());
        edges.insert(self.kind, [c0, c1, c2, c3]);
        let mut slots: Vec<SeamSlot<V>> = Vec::new();
        let mut s: usize = 0;
        while s < 4
            invariant
                s <= 4,
                slots@.len() == s,
                forall|t: int| 0 <= t < 4 ==> (#[trigger] self.spec_grids()[t]).wf(),
                forall|t: int| 0 <= t < s ==> (#[trigger] slots@[t]).grid == self.spec_grids()[t],
                forall|t: int| 0 <= t < s ==> (#[trigger] slots@[t]) == self.spec_slots()[t],
                forall|t: int| 0 <= t < 4 ==> (#[trigger] offsets[t]).bits() == edge_slot_offset(self.spec_kind(), t),
            decreases 4 - s,
        {
            slots.push(SeamSlot::new(self.grids[s], offset_delta(offsets[s])));
            s = s + 1;
        }
        proof {
            assert(slots@ =~= self.spec_slots());
        }
        let faces: Faces<SeamCell> = Faces::new();
        let ghost faces0 = faces;
        let ghost edges0 = edges;
        proof {
            assert(c0 == SeamCell { which: 0, key: Key(0) });
            assert(c1 == SeamCell { which: 1, key: Key(0) });
            assert(c2 == SeamCell { which: 2, key: Key(0) });
            assert(c3 == SeamCell { which: 3, key: Key(0) });
            assert(edges0.axis(edge_axis(self.kind)) =~= seq![[c0, c1, c2, c3]]);
            assert(edge_seam_roots(faces0, edges0, self.kind));
        }
        traverse_seam(&slots, faces, edges, &mut f);
        proof {
            assert(seam_traversed(&slots, faces0, edges0, f0));
        }
    }

    /// The four grids with the steps to their chunks from the first.
    pub open spec fn spec_slots(&self) -> Seq<SeamSlot<'a, V>> {
        Seq::new(4, |t: int| chunk_slot(self.spec_grids()[t], edge_slot_offset(self.spec_kind(), t)))
    }
}

} // verus!
