//! The faces and edges between octree cells, and the walk that refines them down to the
//! minimal edges, the edges between leaves.
use crate::topology::{
    edge_axis, face_axis, face_edge_table, face_edges, spec_edge_kind, spec_face_kind, sub_edge_table, sub_edges,
    sub_face_table, sub_faces, Corner,
    EdgeKind, FaceKind,
};
use crate::topology::law_face_edges_normal;
use crate::utils::array_transpose;
use vstd::prelude::*;

verus! {

broadcast use vstd::function::group_function_axioms;

/// Faces between pairs of cells, grouped by kind.
#[derive(Debug)]
pub struct Faces<T> {
    x: Vec<[T; 2]>,
    y: Vec<[T; 2]>,
    z: Vec<[T; 2]>,
}

impl<T> Faces<T> {
    /// The faces whose normal is axis `a`.
    pub closed spec fn axis(&self, a: int) -> Seq<[T; 2]> {
        if a == 0 {
            self.x@
        } else if a == 1 {
            self.y@
        } else {
            self.z@
        }
    }

    pub fn new() -> (r: Faces<T>)
        ensures
            forall|a: int| 0 <= a < 3 ==> (#[trigger] r.axis(a)).len() == 0,
    {
        Faces { x: Vec::new(), y: Vec::new(), z: Vec::new() }
    }

    /// Adds `face` to the faces of kind `kind`.
    pub fn insert(&mut self, kind: FaceKind, face: [T; 2])
        ensures
            final(self).axis(face_axis(kind)) == old(self).axis(face_axis(kind)).push(face),
            forall|a: int| 0 <= a < 3 && a != face_axis(kind) ==> (#[trigger] final(self).axis(a)) == old(self).axis(a),
    {
        match kind {
            FaceKind::X => self.x.push(face),
            FaceKind::Y => self.y.push(face),
            FaceKind::Z => self.z.push(face),
        }
    }

    /// Hands `f` the faces of each kind in turn, in axis order, to change as it will.
    pub fn for_each_axis_mut<F>(&mut self, mut f: F) where F: FnMut(FaceKind, &mut Vec<[T; 2]>)
        requires
            forall|k: FaceKind, v: &mut Vec<[T; 2]>| call_requires(f, (k, v)),
        ensures
            exists|v: &mut Vec<[T; 2]>|
                #[trigger] call_ensures(f, (FaceKind::X, v), ()) && v@ == old(self).axis(0) && final(self).axis(0)
                    == final(v)@,
            exists|v: &mut Vec<[T; 2]>|
                #[trigger] call_ensures(f, (FaceKind::Y, v), ()) && v@ == old(self).axis(1) && final(self).axis(1)
                    == final(v)@,
            exists|v: &mut Vec<[T; 2]>|
                #[trigger] call_ensures(f, (FaceKind::Z, v), ()) && v@ == old(self).axis(2) && final(self).axis(2)
                    == final(v)@,
    {
        f(FaceKind::X, &mut self.x);
        f(FaceKind::Y, &mut self.y);
        f(FaceKind::Z, &mut self.z);
    }

    /// The faces of each kind, in axis order.
    pub fn into_axes(self) -> (r: Vec<(FaceKind, Vec<[T; 2]>)>)
        ensures
            r@.len() == 3,
            forall|a: int| 0 <= a < 3 ==> (#[trigger] r@[a]).0 == spec_face_kind(a) && r@[a].1@ == self.axis(a),
    {
        let Faces { x, y, z } = self;
        let mut out: Vec<(FaceKind, Vec<[T; 2]>)> = Vec::new();
        out.push((FaceKind::X, x));
        out.push((FaceKind::Y, y));
        out.push((FaceKind::Z, z));
        out
    }
}

impl<T> Default for Faces<T> {
    fn default() -> (r: Faces<T>)
        ensures
            forall|a: int| 0 <= a < 3 ==> (#[trigger] r.axis(a)).len() == 0,
    {
        Faces::new()
    }
}

/// Edges between four cells, grouped by kind.
#[derive(Debug)]
pub struct Edges<T> {
    x: Vec<[T; 4]>,
    y: Vec<[T; 4]>,
    z: Vec<[T; 4]>,
}

impl<T> Edges<T> {
    /// The edges that run along axis `a`.
    pub closed spec fn axis(&self, a: int) -> Seq<[T; 4]> {
        if a == 0 {
            self.x@
        } else if a == 1 {
            self.y@
        } else {
            self.z@
        }
    }

    pub fn new() -> (r: Edges<T>)
        ensures
            forall|a: int| 0 <= a < 3 ==> (#[trigger] r.axis(a)).len() == 0,
    {
        Edges { x: Vec::new(), y: Vec::new(), z: Vec::new() }
    }

    /// Adds `edge` to the edges of kind `kind`.
    pub fn insert(&mut self, kind: EdgeKind, edge: [T; 4])
        ensures
            final(self).axis(edge_axis(kind)) == old(self).axis(edge_axis(kind)).push(edge),
            forall|a: int| 0 <= a < 3 && a != edge_axis(kind) ==> (#[trigger] final(self).axis(a)) == old(self).axis(a),
    {
        match kind {
            EdgeKind::X => self.x.push(edge),
            EdgeKind::Y => self.y.push(edge),
            EdgeKind::Z => self.z.push(edge),
        }
    }

    /// Hands `f` the edges of each kind in turn, in axis order, to change as it will.
    pub fn for_each_axis_mut<F>(&mut self, mut f: F) where F: FnMut(EdgeKind, &mut Vec<[T; 4]>)
        requires
            forall|k: EdgeKind, v: &mut Vec<[T; 4]>| call_requires(f, (k, v)),
        ensures
            exists|v: &mut Vec<[T; 4]>|
                #[trigger] call_ensures(f, (EdgeKind::X, v), ()) && v@ == old(self).axis(0) && final(self).axis(0)
                    == final(v)@,
            exists|v: &mut Vec<[T; 4]>|
                #[trigger] call_ensures(f, (EdgeKind::Y, v), ()) && v@ == old(self).axis(1) && final(self).axis(1)
                    == final(v)@,
            exists|v: &mut Vec<[T; 4]>|
                #[trigger] call_ensures(f, (EdgeKind::Z, v), ()) && v@ == old(self).axis(2) && final(self).axis(2)
                    == final(v)@,
    {
        f(EdgeKind::X, &mut self.x);
        f(EdgeKind::Y, &mut self.y);
        f(EdgeKind::Z, &mut self.z);
    }

    /// The edges of each kind, in axis order.
    pub fn into_axes(self) -> (r: Vec<(EdgeKind, Vec<[T; 4]>)>)
        ensures
            r@.len() == 3,
            forall|a: int| 0 <= a < 3 ==> (#[trigger] r@[a]).0 == spec_edge_kind(a) && r@[a].1@ == self.axis(a),
    {
        let Edges { x, y, z } = self;
        let mut out: Vec<(EdgeKind, Vec<[T; 4]>)> = Vec::new();
        out.push((EdgeKind::X, x));
        out.push((EdgeKind::Y, y));
        out.push((EdgeKind::Z, z));
        out
    }
}

/// The edges of kind `kind` among the insertions `ins`, in the order they were made.
pub open spec fn edges_of_kind<T>(ins: Seq<(EdgeKind, [T; 4])>, kind: EdgeKind) -> Seq<[T; 4]>
    decreases ins.len(),
{
    if ins.len() == 0 {
        seq![]
    } else {
        let rest = edges_of_kind(ins.drop_last(), kind);
        if ins.last().0 == kind {
            rest.push(ins.last().1)
        } else {
            rest
        }
    }
}

/// Law: when edges start empty and the insertions `ins` are made one after the other
/// (`states[i + 1]` is `states[i]` after `insert` of `ins[i]`), then what `into_axes`
/// gives, `r`, holds for each kind in axis order the edges of that kind in the order in
/// which they were inserted.
pub proof fn law_into_axes_insertion_order<T>(
    states: Seq<Edges<T>>,
    ins: Seq<(EdgeKind, [T; 4])>,
    r: Seq<(EdgeKind, Vec<[T; 4]>)>,
)
    requires
        states.len() == ins.len() + 1,
        forall|a: int| 0 <= a < 3 ==> (#[trigger] states[0].axis(a)).len() == 0,
        forall|i: int|
            0 <= i < ins.len() ==> (#[trigger] states[i + 1]).axis(edge_axis(ins[i].0)) == states[i].axis(
                edge_axis(ins[i].0),
            ).push(ins[i].1),
        forall|i: int, a: int|
            0 <= i < ins.len() && 0 <= a < 3 && a != edge_axis(ins[i].0) ==> (#[trigger] states[i + 1].axis(a))
                == states[i].axis(a),
        r.len() == 3,
        forall|a: int| 0 <= a < 3 ==> (#[trigger] r[a]).0 == spec_edge_kind(a) && r[a].1@ == states.last().axis(a),
    ensures
        forall|a: int| 0 <= a < 3 ==> (#[trigger] r[a]).0 == spec_edge_kind(a) && r[a].1@ == edges_of_kind(
            ins,
            spec_edge_kind(a),
        ),
{
    let n = ins.len() as int;
    lemma_axes_after(states, ins, n);
    assert(states.last() == states[n]);
    assert(ins.take(n) =~= ins);
    assert forall|a: int| 0 <= a < 3 implies (#[trigger] r[a]).0 == spec_edge_kind(a) && r[a].1@ == edges_of_kind(
        ins,
        spec_edge_kind(a),
    ) by {
        assert(states[n].axis(a) == edges_of_kind(ins.take(n), spec_edge_kind(a)));
    }
}

proof fn lemma_axes_after<T>(states: Seq<Edges<T>>, ins: Seq<(EdgeKind, [T; 4])>, n: int)
    requires
        states.len() == ins.len() + 1,
        0 <= n <= ins.len(),
        forall|a: int| 0 <= a < 3 ==> (#[trigger] states[0].axis(a)).len() == 0,
        forall|i: int|
            0 <= i < ins.len() ==> (#[trigger] states[i + 1]).axis(edge_axis(ins[i].0)) == states[i].axis(
                edge_axis(ins[i].0),
            ).push(ins[i].1),
        forall|i: int, a: int|
            0 <= i < ins.len() && 0 <= a < 3 && a != edge_axis(ins[i].0) ==> (#[trigger] states[i + 1].axis(a))
                == states[i].axis(a),
    ensures
        forall|a: int| 0 <= a < 3 ==> (#[trigger] states[n].axis(a)) == edges_of_kind(ins.take(n), spec_edge_kind(a)),
    decreases n,
{
    if n == 0 {
        assert forall|a: int| 0 <= a < 3 implies (#[trigger] states[n].axis(a)) == edges_of_kind(
            ins.take(n),
            spec_edge_kind(a),
        ) by {
            assert(states[0].axis(a) =~= Seq::<[T; 4]>::empty());
        }
    } else {
        lemma_axes_after(states, ins, n - 1);
        let i = n - 1;
        assert(ins.take(n).drop_last() =~= ins.take(i));
        assert(ins.take(n).last() == ins[i]);
        assert forall|a: int| 0 <= a < 3 implies (#[trigger] states[n].axis(a)) == edges_of_kind(
            ins.take(n),
            spec_edge_kind(a),
        ) by {
            assert(states[i + 1] == states[n]);
            if a == edge_axis(ins[i].0) {
                assert(spec_edge_kind(a) == ins[i].0);
            } else {
                assert(states[i + 1].axis(a) == states[i].axis(a));
                assert(spec_edge_kind(a) != ins[i].0);
            }
        }
    }
}

impl<T> Default for Edges<T> {
    fn default() -> (r: Edges<T>)
        ensures
            forall|a: int| 0 <= a < 3 ==> (#[trigger] r.axis(a)).len() == 0,
    {
        Edges::new()
    }
}

/// An octree as the walk over its faces and edges sees it.
pub trait TraverseOctree: Sized {
    /// A node of the octree.
    type Node;

    /// How many more times `node` can be refined before it is a leaf: 0 for a leaf.
    spec fn height(&self, node: Self::Node) -> nat;

    /// The octree is in a state in which its methods can be called.
    spec fn wf(&self) -> bool;

    /// `r` is what refining `node`, at slot `slot` of a face of kind `kind`, to its child
    /// `corner` can give.
    spec fn refines_face(&self, node: Self::Node, kind: FaceKind, slot: usize, corner: Corner, r: Option<Self::Node>) -> bool;

    /// `r` is what refining `node`, at slot `slot` of an edge of kind `kind`, to its child
    /// `corner` can give.
    spec fn refines_edge(&self, node: Self::Node, kind: EdgeKind, slot: usize, corner: Corner, r: Option<Self::Node>) -> bool;

    /// Whether the node at slot `slot` of a face is a leaf.
    fn is_face_leaf(&mut self, node: &Self::Node, slot: usize) -> (r: bool)
        requires
            old(self).wf(),
        ensures
            final(self).wf(),
            forall|n: Self::Node| #[trigger] final(self).height(n) == old(self).height(n),
            forall|n: Self::Node, k: FaceKind, s: usize, c: Corner, r: Option<Self::Node>|
                #[trigger] final(self).refines_face(n, k, s, c, r) == old(self).refines_face(n, k, s, c, r),
            forall|n: Self::Node, k: EdgeKind, s: usize, c: Corner, r: Option<Self::Node>|
                #[trigger] final(self).refines_edge(n, k, s, c, r) == old(self).refines_edge(n, k, s, c, r),
            r == (old(self).height(*node) == 0),
    ;

    /// Whether the node at slot `slot` of an edge of kind `kind` is a leaf.
    fn is_edge_leaf(&mut self, node: &Self::Node, kind: EdgeKind, slot: usize) -> (r: bool)
        requires
            old(self).wf(),
        ensures
            final(self).wf(),
            forall|n: Self::Node| #[trigger] final(self).height(n) == old(self).height(n),
            forall|n: Self::Node, k: FaceKind, s: usize, c: Corner, r: Option<Self::Node>|
                #[trigger] final(self).refines_face(n, k, s, c, r) == old(self).refines_face(n, k, s, c, r),
            forall|n: Self::Node, k: EdgeKind, s: usize, c: Corner, r: Option<Self::Node>|
                #[trigger] final(self).refines_edge(n, k, s, c, r) == old(self).refines_edge(n, k, s, c, r),
            r == (old(self).height(*node) == 0),
    ;

    /// The child `corner` of the node at slot `slot` of a face of kind `kind`, if it has
    /// one: a node lower down, or the node itself where it is a leaf.
    fn refine_face(&mut self, node: &Self::Node, kind: FaceKind, slot: usize, corner: Corner) -> (r: Option<
        Self::Node,
    >)
        requires
            old(self).wf(),
        ensures
            final(self).wf(),
            forall|n: Self::Node| #[trigger] final(self).height(n) == old(self).height(n),
            forall|n: Self::Node, k: FaceKind, s: usize, c: Corner, r: Option<Self::Node>|
                #[trigger] final(self).refines_face(n, k, s, c, r) == old(self).refines_face(n, k, s, c, r),
            forall|n: Self::Node, k: EdgeKind, s: usize, c: Corner, r: Option<Self::Node>|
                #[trigger] final(self).refines_edge(n, k, s, c, r) == old(self).refines_edge(n, k, s, c, r),
            r matches Some(c) ==> old(self).height(c) == 0 || old(self).height(c) < old(self).height(*node),
            old(self).refines_face(*node, kind, slot, corner, r),
    ;

    /// The child `corner` of the node at slot `slot` of an edge of kind `kind`, if it has
    /// one: a node lower down, or the node itself where it is a leaf.
    fn refine_edge(&mut self, node: &Self::Node, kind: EdgeKind, slot: usize, corner: Corner) -> (r: Option<
        Self::Node,
    >)
        requires
            old(self).wf(),
        ensures
            final(self).wf(),
            forall|n: Self::Node| #[trigger] final(self).height(n) == old(self).height(n),
            forall|n: Self::Node, k: FaceKind, s: usize, c: Corner, r: Option<Self::Node>|
                #[trigger] final(self).refines_face(n, k, s, c, r) == old(self).refines_face(n, k, s, c, r),
            forall|n: Self::Node, k: EdgeKind, s: usize, c: Corner, r: Option<Self::Node>|
                #[trigger] final(self).refines_edge(n, k, s, c, r) == old(self).refines_edge(n, k, s, c, r),
            r matches Some(c) ==> old(self).height(c) == 0 || old(self).height(c) < old(self).height(*node),
            old(self).refines_edge(*node, kind, slot, corner, r),
    ;
}

/// `a` refines nodes as `b` does.
pub open spec fn same_refinement<C: TraverseOctree>(a: C, b: C) -> bool {
    &&& forall|n: C::Node, k: FaceKind, s: usize, c: Corner, r: Option<C::Node>|
        #[trigger] a.refines_face(n, k, s, c, r) == b.refines_face(n, k, s, c, r)
    &&& forall|n: C::Node, k: EdgeKind, s: usize, c: Corner, r: Option<C::Node>|
        #[trigger] a.refines_edge(n, k, s, c, r) == b.refines_edge(n, k, s, c, r)
}

/// The greatest height of a node of the faces `s`.
pub open spec fn faces_max<C: TraverseOctree>(cx: C, s: Seq<[C::Node; 2]>) -> nat
    decreases s.len(),
{
    if s.len() == 0 {
        0
    } else {
        let rest = faces_max(cx, s.drop_last());
        let (a, b) = (cx.height(s.last()[0]), cx.height(s.last()[1]));
        let m = if a > b { a } else { b };
        if rest > m { rest } else { m }
    }
}

/// The greatest height of a node of the edges `s`.
pub open spec fn edges_max<C: TraverseOctree>(cx: C, s: Seq<[C::Node; 4]>) -> nat
    decreases s.len(),
{
    if s.len() == 0 {
        0
    } else {
        let rest = edges_max(cx, s.drop_last());
        let e = s.last();
        let (a, b, c, d) = (cx.height(e[0]), cx.height(e[1]), cx.height(e[2]), cx.height(e[3]));
        let m1 = if a > b { a } else { b };
        let m2 = if c > d { c } else { d };
        let m = if m1 > m2 { m1 } else { m2 };
        if rest > m { rest } else { m }
    }
}

/// Every node of the faces `s` has height at most `bound`.
pub open spec fn faces_below<C: TraverseOctree>(cx: C, s: Seq<[C::Node; 2]>, bound: int) -> bool {
    forall|i: int, j: int| 0 <= i < s.len() && 0 <= j < 2 ==> cx.height(#[trigger] s[i][j]) <= bound
}

/// Every node of the edges `s` has height at most `bound`.
pub open spec fn edges_below<C: TraverseOctree>(cx: C, s: Seq<[C::Node; 4]>, bound: int) -> bool {
    forall|i: int, j: int| 0 <= i < s.len() && 0 <= j < 4 ==> cx.height(#[trigger] s[i][j]) <= bound
}

proof fn lemma_faces_max<C: TraverseOctree>(cx: C, s: Seq<[C::Node; 2]>, bound: nat)
    ensures
        forall|i: int, j: int| 0 <= i < s.len() && 0 <= j < 2 ==> cx.height(#[trigger] s[i][j]) <= faces_max(cx, s),
        (forall|i: int, j: int| 0 <= i < s.len() && 0 <= j < 2 ==> cx.height(#[trigger] s[i][j]) <= bound)
            ==> faces_max(cx, s) <= bound,
    decreases s.len(),
{
    if s.len() > 0 {
        let rest = s.drop_last();
        lemma_faces_max(cx, rest, bound);
        assert forall|i: int, j: int| 0 <= i < s.len() && 0 <= j < 2 implies cx.height(#[trigger] s[i][j]) <= faces_max(
            cx,
            s,
        ) by {
            if i < s.len() - 1 {
                assert(s[i] == rest[i]);
            }
        }
        if forall|i: int, j: int| 0 <= i < s.len() && 0 <= j < 2 ==> cx.height(#[trigger] s[i][j]) <= bound {
            assert forall|i: int, j: int| 0 <= i < rest.len() && 0 <= j < 2 implies cx.height(#[trigger] rest[i][j])
                <= bound by {
                assert(rest[i] == s[i]);
            }
            assert(cx.height(s[s.len() - 1][0]) <= bound);
            assert(cx.height(s[s.len() - 1][1]) <= bound);
        }
    }
}

proof fn lemma_edges_max<C: TraverseOctree>(cx: C, s: Seq<[C::Node; 4]>, bound: nat)
    ensures
        forall|i: int, j: int| 0 <= i < s.len() && 0 <= j < 4 ==> cx.height(#[trigger] s[i][j]) <= edges_max(cx, s),
        (forall|i: int, j: int| 0 <= i < s.len() && 0 <= j < 4 ==> cx.height(#[trigger] s[i][j]) <= bound)
            ==> edges_max(cx, s) <= bound,
    decreases s.len(),
{
    if s.len() > 0 {
        let rest = s.drop_last();
        lemma_edges_max(cx, rest, bound);
        assert forall|i: int, j: int| 0 <= i < s.len() && 0 <= j < 4 implies cx.height(#[trigger] s[i][j]) <= edges_max(
            cx,
            s,
        ) by {
            if i < s.len() - 1 {
                assert(s[i] == rest[i]);
            }
        }
        if forall|i: int, j: int| 0 <= i < s.len() && 0 <= j < 4 ==> cx.height(#[trigger] s[i][j]) <= bound {
            assert forall|i: int, j: int| 0 <= i < rest.len() && 0 <= j < 4 implies cx.height(#[trigger] rest[i][j])
                <= bound by {
                assert(rest[i] == s[i]);
            }
            assert(cx.height(s[s.len() - 1][0]) <= bound);
            assert(cx.height(s[s.len() - 1][1]) <= bound);
            assert(cx.height(s[s.len() - 1][2]) <= bound);
            assert(cx.height(s[s.len() - 1][3]) <= bound);
        }
    }
}

/// Refines the face `keys` of kind `kind` one level: pushes onto `next` its four
/// sub-faces, and adds to `edges` the edges inside it, each where all its nodes exist.
fn split_face<T: Copy, C: TraverseOctree<Node = T>>(
    cx: &mut C,
    kind: FaceKind,
    keys: [T; 2],
    next: Vec<[T; 2]>,
    edges: &mut Edges<T>,
    Ghost(cx0): Ghost<C>,
    Ghost(m): Ghost<nat>,
) -> (r: Vec<[T; 2]>)
    requires
        old(cx).wf(),
        forall|n: T| #[trigger] old(cx).height(n) == cx0.height(n),
        same_refinement(*old(cx), cx0),
        m >= 1,
        cx0.height(keys[0]) <= m && cx0.height(keys[1]) <= m,
        faces_below(cx0, next@, m - 1),
    ensures
        final(cx).wf(),
        forall|n: T| #[trigger] final(cx).height(n) == cx0.height(n),
        same_refinement(*final(cx), cx0),
        faces_below(cx0, r@, m - 1),
        r@.len() >= next@.len(),
        r@.take(next@.len() as int) == next@,
        splits_face(cx0, kind, keys, r@.skip(next@.len() as int)),
        forall|a: int|
            0 <= a < 3 ==> {
                &&& (#[trigger] final(edges).axis(a)).len() >= old(edges).axis(a).len()
                &&& final(edges).axis(a).take(old(edges).axis(a).len() as int) == old(edges).axis(a)
                &&& face_edges_from(
                    cx0,
                    kind,
                    keys,
                    spec_edge_kind(a),
                    final(edges).axis(a).skip(old(edges).axis(a).len() as int),
                )
            },
{
    let ghost next0 = next@;
    let ghost e0 = *edges;
    let ghost mut opts: Seq<[Option<T>; 2]> = seq![];
    let mut next = next;
    let subs = sub_face_table(kind);
    let mut j: usize = 0;
    while j < 4
        invariant
            cx.wf(),
            forall|n: T| #[trigger] cx.height(n) == cx0.height(n),
            same_refinement(*cx, cx0),
            m >= 1,
            cx0.height(keys[0]) <= m && cx0.height(keys[1]) <= m,
            faces_below(cx0, next@, m - 1),
            forall|i: int|
                0 <= i < 4 ==> (#[trigger] subs[i]).0 == Corner::of(sub_faces(kind)[i].0) && subs[i].1 == Corner::of(
                    sub_faces(kind)[i].1,
                ),
            j <= 4,
            opts.len() == j,
            forall|i: int, s: int|
                0 <= i < j && 0 <= s < 2 ==> cx0.refines_face(
                    keys[s],
                    kind,
                    s as usize,
                    Corner::of(sub_face_corner(kind, i, s)),
                    #[trigger] opts[i][s],
                ),
            next@.len() >= next0.len(),
            next@.take(next0.len() as int) == next0,
            next@.skip(next0.len() as int) == kept_faces(opts),
        decreases 4 - j,
    {
        let a = cx.refine_face(&keys[0], kind, 0, subs[j].0);
        let b = cx.refine_face(&keys[1], kind, 1, subs[j].1);
        let ghost o = [a, b];
        let ghost before = next@;
        if let Some(sub) = array_transpose([a, b]) {
            proof {
                assert(sub =~= [a->0, b->0]);
            }
            next.push(sub);
        }
        proof {
            let new_opts = opts.push(o);
            assert(new_opts.drop_last() =~= opts);
            assert(next@.take(next0.len() as int) =~= next0);
            if o[0] is Some && o[1] is Some {
                assert(next@.skip(next0.len() as int) =~= before.skip(next0.len() as int).push([o[0]->0, o[1]->0]));
            } else {
                assert(next@ == before);
            }
            assert(next@.skip(next0.len() as int) =~= kept_faces(new_opts));
            opts = new_opts;
        }
        j = j + 1;
    }
    proof {
        assert(splits_face(cx0, kind, keys, next@.skip(next0.len() as int)));
    }
    let tangents = kind.tangent_edges();
    let mut t: usize = 0;
    while t < 2
        invariant
            cx.wf(),
            forall|n: T| #[trigger] cx.height(n) == cx0.height(n),
            same_refinement(*cx, cx0),
            m >= 1,
            faces_below(cx0, next@, m - 1),
            t <= 2,
            edge_axis(tangents[0]) < edge_axis(tangents[1]),
            edge_axis(tangents[0]) != face_axis(kind),
            edge_axis(tangents[1]) != face_axis(kind),
            forall|a: int|
                0 <= a < 3 ==> (#[trigger] edges.axis(a)).len() >= e0.axis(a).len() && edges.axis(a).take(
                    e0.axis(a).len() as int,
                ) == e0.axis(a),
            forall|u: int|
                0 <= u < t ==> face_edges_from(
                    cx0,
                    kind,
                    keys,
                    tangents[u],
                    edges.axis(edge_axis(#[trigger] tangents[u])).skip(e0.axis(edge_axis(tangents[u])).len() as int),
                ),
            forall|a: int|
                0 <= a < 3 && (t < 1 || a != edge_axis(tangents[0])) && (t < 2 || a != edge_axis(tangents[1]))
                    ==> #[trigger] edges.axis(a) == e0.axis(a),
        decreases 2 - t,
    {
        let edge_kind = tangents[t];
        let ghost ae = edge_axis(edge_kind);
        let ghost e1 = *edges;
        let ghost mut eopts: Seq<[Option<T>; 4]> = seq![];
        proof {
            assert(e1.axis(ae) == e0.axis(ae));
        }
        if let Some(rows) = face_edge_table(kind, edge_kind) {
            let mut r: usize = 0;
            while r < 2
                invariant
                    cx.wf(),
                    forall|n: T| #[trigger] cx.height(n) == cx0.height(n),
                    same_refinement(*cx, cx0),
                    forall|j: int, s: int|
                        0 <= j < 2 && 0 <= s < 4 ==> (#[trigger] rows[j][s]).0 == face_edges(kind, edge_kind)[j][s].0
                            && rows[j][s].1 == Corner::of(face_edges(kind, edge_kind)[j][s].1),
                    forall|j: int, s: int| 0 <= j < 2 && 0 <= s < 4 ==> (#[trigger] rows[j][s]).0 < 2,
                    m >= 1,
                    faces_below(cx0, next@, m - 1),
                    ae == edge_axis(edge_kind),
                    0 <= ae < 3,
                    r <= 2,
                    eopts.len() == r,
                    forall|j: int, s: int|
                        0 <= j < r && 0 <= s < 4 ==> cx0.refines_face(
                            keys[face_edges(kind, edge_kind)[j][s].0 as int],
                            kind,
                            face_edges(kind, edge_kind)[j][s].0 as usize,
                            Corner::of(face_edges(kind, edge_kind)[j][s].1),
                            #[trigger] eopts[j][s],
                        ),
                    edges.axis(ae).len() >= e1.axis(ae).len(),
                    edges.axis(ae).take(e1.axis(ae).len() as int) == e1.axis(ae),
                    edges.axis(ae).skip(e1.axis(ae).len() as int) == kept_edges(eopts),
                    forall|a: int| 0 <= a < 3 && a != ae ==> #[trigger] edges.axis(a) == e1.axis(a),
                decreases 2 - r,
            {
                let row = rows[r];
                assert(row[0].0 < 2 && row[1].0 < 2 && row[2].0 < 2 && row[3].0 < 2) by {
                    assert(rows[r as int][0].0 < 2);
                    assert(rows[r as int][1].0 < 2);
                    assert(rows[r as int][2].0 < 2);
                    assert(rows[r as int][3].0 < 2);
                }
                let e0_ = cx.refine_face(&keys[row[0].0], kind, row[0].0, row[0].1);
                let e1_ = cx.refine_face(&keys[row[1].0], kind, row[1].0, row[1].1);
                let e2_ = cx.refine_face(&keys[row[2].0], kind, row[2].0, row[2].1);
                let e3_ = cx.refine_face(&keys[row[3].0], kind, row[3].0, row[3].1);
                let ghost o = [e0_, e1_, e2_, e3_];
                let ghost before = edges.axis(ae);
                proof {
                    assert forall|s: int| 0 <= s < 4 implies cx0.refines_face(
                        keys[face_edges(kind, edge_kind)[r as int][s].0 as int],
                        kind,
                        face_edges(kind, edge_kind)[r as int][s].0 as usize,
                        Corner::of(face_edges(kind, edge_kind)[r as int][s].1),
                        o[s],
                    ) by {
                        assert(rows[r as int][s].0 == face_edges(kind, edge_kind)[r as int][s].0);
                    }
                }
                if let Some(edge) = array_transpose([e0_, e1_, e2_, e3_]) {
                    proof {
                        assert(edge =~= [e0_->0, e1_->0, e2_->0, e3_->0]);
                    }
                    edges.insert(edge_kind, edge);
                }
                proof {
                    let new_opts = eopts.push(o);
                    assert(new_opts.drop_last() =~= eopts);
                    assert(edges.axis(ae).take(e1.axis(ae).len() as int) =~= e1.axis(ae));
                    if o[0] is Some && o[1] is Some && o[2] is Some && o[3] is Some {
                        assert(edges.axis(ae).skip(e1.axis(ae).len() as int) =~= before.skip(
                            e1.axis(ae).len() as int,
                        ).push([o[0]->0, o[1]->0, o[2]->0, o[3]->0]));
                    } else {
                        assert(edges.axis(ae) == before);
                    }
                    assert(edges.axis(ae).skip(e1.axis(ae).len() as int) =~= kept_edges(new_opts));
                    eopts = new_opts;
                }
                r = r + 1;
            }
            proof {
                assert(face_edges_from(cx0, kind, keys, edge_kind, edges.axis(ae).skip(e1.axis(ae).len() as int)));
            }
        } else {
            proof {
                assert(edges.axis(ae).skip(e1.axis(ae).len() as int) =~= Seq::<[T; 4]>::empty());
            }
        }
        proof {
            assert forall|a: int| 0 <= a < 3 implies (#[trigger] edges.axis(a)).len() >= e0.axis(a).len()
                && edges.axis(a).take(e0.axis(a).len() as int) == e0.axis(a) by {
                if a == ae {
                    assert(edges.axis(a).take(e0.axis(a).len() as int) =~= e0.axis(a));
                }
            }
        }
        t = t + 1;
    }
    proof {
        assert forall|a: int| 0 <= a < 3 implies face_edges_from(
            cx0,
            kind,
            keys,
            spec_edge_kind(a),
            (#[trigger] edges.axis(a)).skip(e0.axis(a).len() as int),
        ) by {
            if a == edge_axis(tangents[0]) {
                assert(spec_edge_kind(a) == tangents[0]);
            } else if a == edge_axis(tangents[1]) {
                assert(spec_edge_kind(a) == tangents[1]);
            } else {
                assert(a == face_axis(kind));
                law_face_edges_normal(kind, spec_edge_kind(a));
                assert(edges.axis(a).skip(e0.axis(a).len() as int) =~= Seq::<[T; 4]>::empty());
            }
        }
    }
    next
}

/// Refines the faces `roots` of kind `kind`, level by level, until every face left is
/// between leaves; adds to `edges` each edge that appears inside a face as it is refined.
fn walk_faces<T: Copy, C: TraverseOctree<Node = T>>(
    cx: &mut C,
    kind: FaceKind,
    roots: Vec<[T; 2]>,
    edges: &mut Edges<T>,
    Ghost(cx0): Ghost<C>,
)
    requires
        old(cx).wf(),
        forall|n: T| #[trigger] old(cx).height(n) == cx0.height(n),
        same_refinement(*old(cx), cx0),
    ensures
        final(cx).wf(),
        forall|n: T| #[trigger] final(cx).height(n) == cx0.height(n),
        same_refinement(*final(cx), cx0),
        extends(*final(edges), *old(edges)),
        face_walk(cx0, kind, roots@, added_since(*final(edges), *old(edges))),
{
    let ghost e0 = *edges;
    let ghost roots0 = roots@;
    let mut current = roots;
    proof {
        assert forall|rest: Seq<Seq<[T; 4]>>|
            rest.len() == 3 && face_walk(cx0, kind, current@, rest) implies #[trigger] face_walk(
            cx0,
            kind,
            roots0,
            concat3(added_since(*edges, e0), rest),
        ) by {
            assert(concat3(added_since(*edges, e0), rest) =~= rest) by {
                assert forall|a: int| 0 <= a < 3 implies #[trigger] concat3(added_since(*edges, e0), rest)[a] == rest[a] by {
                    assert(edges.axis(a).skip(e0.axis(a).len() as int) =~= Seq::<[T; 4]>::empty());
                    assert(Seq::<[T; 4]>::empty() + rest[a] =~= rest[a]);
                }
            }
        }
        assert(extends(*edges, e0)) by {
            assert forall|a: int| 0 <= a < 3 implies (#[trigger] edges.axis(a)).take(e0.axis(a).len() as int) == e0.axis(a) by {
                assert(edges.axis(a).take(e0.axis(a).len() as int) =~= e0.axis(a));
            }
        }
    }
    while current.len() > 0
        invariant
            cx.wf(),
            forall|n: T| #[trigger] cx.height(n) == cx0.height(n),
            same_refinement(*cx, cx0),
            extends(*edges, e0),
            forall|rest: Seq<Seq<[T; 4]>>|
                rest.len() == 3 && face_walk(cx0, kind, current@, rest) ==> #[trigger] face_walk(
                    cx0,
                    kind,
                    roots0,
                    concat3(added_since(*edges, e0), rest),
                ),
        decreases (if current@.len() == 0 { 0 } else { faces_max(cx0, current@) + 1 }),
    {
        let ghost m = faces_max(cx0, current@);
        let ghost l0 = *edges;
        proof {
            lemma_faces_max(cx0, current@, 0);
            assert(added_since(*edges, l0) =~= Seq::new(3, |a: int| Seq::<[T; 4]>::empty())) by {
                assert forall|a: int| 0 <= a < 3 implies #[trigger] added_since(*edges, l0)[a] == Seq::<[T; 4]>::empty() by {
                    assert(edges.axis(a).skip(l0.axis(a).len() as int) =~= Seq::<[T; 4]>::empty());
                }
            }
            assert(current@.take(0) =~= Seq::<[T; 2]>::empty());
            assert(extends(*edges, l0)) by {
                assert forall|a: int| 0 <= a < 3 implies (#[trigger] edges.axis(a)).take(l0.axis(a).len() as int) == l0.axis(a) by {
                    assert(edges.axis(a).take(l0.axis(a).len() as int) =~= l0.axis(a));
                }
            }
        }
        let mut next: Vec<[T; 2]> = Vec::new();
        let mut i: usize = 0;
        while i < current.len()
            invariant
                cx.wf(),
                forall|n: T| #[trigger] cx.height(n) == cx0.height(n),
                same_refinement(*cx, cx0),
                i <= current@.len(),
                faces_below(cx0, current@, m as int),
                next@.len() > 0 ==> m >= 1,
                faces_below(cx0, next@, m - 1),
                extends(l0, e0),
                extends(*edges, l0),
                face_level(cx0, kind, current@.take(i as int), next@, added_since(*edges, l0)),
            decreases current@.len() - i,
        {
            let keys = current[i];
            proof {
                assert(current@.take(i + 1).drop_last() =~= current@.take(i as int));
                assert(current@.take(i + 1).last() == keys);
            }
            assert(cx0.height(current@[i as int][0]) <= m && cx0.height(current@[i as int][1]) <= m);
            let leaf = cx.is_face_leaf(&keys[0], 0) && cx.is_face_leaf(&keys[1], 1);
            if !leaf {
                let ghost eb = *edges;
                let ghost nb = next@;
                proof {
                    assert(face_level(cx0, kind, current@.take(i as int), nb, added_since(eb, l0)));
                }
                next = split_face(cx, kind, keys, next, edges, Ghost(cx0), Ghost(m));
                proof {
                    let ks = Seq::new(3, |a: int| eb.axis(a).len() - l0.axis(a).len());
                    let added = added_since(*edges, l0);
                    assert(prefixes(added, ks) =~= added_since(eb, l0)) by {
                        assert forall|a: int| 0 <= a < 3 implies #[trigger] prefixes(added, ks)[a] == added_since(eb, l0)[a] by {
                            assert(edges.axis(a).take(eb.axis(a).len() as int) == eb.axis(a));
                            assert(eb.axis(a).take(l0.axis(a).len() as int) == l0.axis(a));
                            assert(added[a].take(ks[a]) =~= eb.axis(a).skip(l0.axis(a).len() as int));
                        }
                    }
                    assert forall|a: int| 0 <= a < 3 implies face_edges_from(
                        cx0,
                        kind,
                        keys,
                        spec_edge_kind(a),
                        #[trigger] added[a].skip(ks[a]),
                    ) by {
                        assert(edges.axis(a).take(eb.axis(a).len() as int) == eb.axis(a));
                        assert(added[a].skip(ks[a]) =~= edges.axis(a).skip(eb.axis(a).len() as int));
                    }
                    assert(splits_axes(added, ks)) by {
                        assert forall|a: int| 0 <= a < 3 implies 0 <= #[trigger] ks[a] <= added[a].len() by {
                            assert(edges.axis(a).take(eb.axis(a).len() as int) == eb.axis(a));
                            assert(eb.axis(a).take(l0.axis(a).len() as int) == l0.axis(a));
                        }
                    }
                    assert(next@.take(nb.len() as int) == nb);
                    let k = nb.len() as int;
                    let cur = current@.take(i + 1);
                    assert(!(cx0.height(cur.last()[0]) == 0 && cx0.height(cur.last()[1]) == 0));
                    assert(face_level(cx0, kind, cur.drop_last(), next@.take(k), prefixes::<C::Node>(added, ks)));
                    assert(0 <= k <= next@.len() && splits_axes(added, ks) && face_level(
                        cx0,
                        kind,
                        cur.drop_last(),
                        next@.take(k),
                        prefixes(added, ks),
                    ) && splits_face(cx0, kind, cur.last(), next@.skip(k)) && forall|a: int|
                        0 <= a < 3 ==> face_edges_from(
                            cx0,
                            kind,
                            cur.last(),
                            spec_edge_kind(a),
                            #[trigger] added[a].skip(ks[a]),
                        ));
                    assert(face_level(cx0, kind, current@.take(i + 1), next@, added));
                    assert(extends(*edges, l0)) by {
                        assert forall|a: int| 0 <= a < 3 implies (#[trigger] edges.axis(a)).take(l0.axis(a).len() as int) == l0.axis(a) by {
                            assert(edges.axis(a).take(eb.axis(a).len() as int) == eb.axis(a));
                            assert(eb.axis(a).take(l0.axis(a).len() as int) == l0.axis(a));
                            assert(edges.axis(a).take(l0.axis(a).len() as int) =~= eb.axis(a).take(l0.axis(a).len() as int));
                        }
                    }
                }
            } else {
                proof {
                    assert(face_level(cx0, kind, current@.take(i + 1), next@, added_since(*edges, l0)));
                }
            }
            i = i + 1;
        }
        proof {
            lemma_faces_max(cx0, next@, (m - 1) as nat);
            assert(current@.take(current@.len() as int) =~= current@);
            let lv = added_since(*edges, l0);
            assert forall|rest: Seq<Seq<[T; 4]>>|
                rest.len() == 3 && face_walk(cx0, kind, next@, rest) implies #[trigger] face_walk(
                cx0,
                kind,
                roots0,
                concat3(added_since(*edges, e0), rest),
            ) by {
                let whole = concat3(lv, rest);
                let ks = Seq::new(3, |a: int| lv[a].len() as int);
                assert(prefixes(whole, ks) =~= lv) by {
                    assert forall|a: int| 0 <= a < 3 implies #[trigger] prefixes(whole, ks)[a] == lv[a] by {
                        assert((lv[a] + rest[a]).take(lv[a].len() as int) =~= lv[a]);
                    }
                }
                assert(suffixes(whole, ks) =~= rest) by {
                    assert forall|a: int| 0 <= a < 3 implies #[trigger] suffixes(whole, ks)[a] == rest[a] by {
                        assert((lv[a] + rest[a]).skip(lv[a].len() as int) =~= rest[a]);
                    }
                }
                assert(splits_axes(whole, ks));
                assert(next@.len() == 0 || faces_max(cx0, next@) < faces_max(cx0, current@));
                assert(face_level(cx0, kind, current@, next@, prefixes(whole, ks)));
                assert(face_walk(cx0, kind, next@, suffixes::<C::Node>(whole, ks)));
                assert(splits_axes(whole, ks) && face_level(cx0, kind, current@, next@, prefixes(whole, ks)) && (
                next@.len() == 0 || faces_max(cx0, next@) < faces_max(cx0, current@)) && face_walk(
                    cx0,
                    kind,
                    next@,
                    suffixes(whole, ks),
                ));
                assert(face_walk(cx0, kind, current@, whole));
                assert(concat3(added_since(l0, e0), whole) =~= concat3(added_since(*edges, e0), rest)) by {
                    assert forall|a: int| 0 <= a < 3 implies #[trigger] concat3(added_since(l0, e0), whole)[a] == concat3(
                        added_since(*edges, e0),
                        rest,
                    )[a] by {
                        assert(edges.axis(a).take(l0.axis(a).len() as int) == l0.axis(a));
                        assert(l0.axis(a).take(e0.axis(a).len() as int) == e0.axis(a));
                        assert(edges.axis(a).skip(e0.axis(a).len() as int) =~= l0.axis(a).skip(e0.axis(a).len() as int)
                            + edges.axis(a).skip(l0.axis(a).len() as int));
                    }
                }
            }
            assert(extends(*edges, e0)) by {
                assert forall|a: int| 0 <= a < 3 implies (#[trigger] edges.axis(a)).take(e0.axis(a).len() as int) == e0.axis(a) by {
                    assert(edges.axis(a).take(l0.axis(a).len() as int) == l0.axis(a));
                    assert(l0.axis(a).take(e0.axis(a).len() as int) == e0.axis(a));
                    assert(edges.axis(a).take(e0.axis(a).len() as int) =~= l0.axis(a).take(e0.axis(a).len() as int));
                }
            }
        }
        current = next;
    }
    proof {
        let empties = Seq::new(3, |a: int| Seq::<[T; 4]>::empty());
        assert(face_walk(cx0, kind, current@, empties));
        assert(concat3(added_since(*edges, e0), empties) =~= added_since(*edges, e0)) by {
            assert forall|a: int| 0 <= a < 3 implies #[trigger] concat3(added_since(*edges, e0), empties)[a] == added_since(
                *edges,
                e0,
            )[a] by {
                assert(added_since(*edges, e0)[a] + Seq::<[T; 4]>::empty() =~= added_since(*edges, e0)[a]);
            }
        }
    }
}

/// Every node of the edge `e` is a leaf.
pub open spec fn leaf_edge<T, C: TraverseOctree<Node = T>>(cx: C, e: [T; 4]) -> bool {
    forall|s: int| 0 <= s < 4 ==> cx.height(#[trigger] e[s]) == 0
}

/// The edges among `opts` whose four nodes all exist, in order.
pub open spec fn kept_edges<T>(opts: Seq<[Option<T>; 4]>) -> Seq<[T; 4]>
    decreases opts.len(),
{
    if opts.len() == 0 {
        seq![]
    } else {
        let o = opts.last();
        kept_edges(opts.drop_last()) + if o[0] is Some && o[1] is Some && o[2] is Some && o[3] is Some {
            seq![[o[0]->0, o[1]->0, o[2]->0, o[3]->0]]
        } else {
            seq![]
        }
    }
}

/// The faces among `opts` whose two nodes both exist, in order.
pub open spec fn kept_faces<T>(opts: Seq<[Option<T>; 2]>) -> Seq<[T; 2]>
    decreases opts.len(),
{
    if opts.len() == 0 {
        seq![]
    } else {
        let o = opts.last();
        kept_faces(opts.drop_last()) + if o[0] is Some && o[1] is Some {
            seq![[o[0]->0, o[1]->0]]
        } else {
            seq![]
        }
    }
}

/// The corner of the node at slot `s` of a face of kind `kind` that sub-face `i` takes.
pub open spec fn sub_face_corner(kind: FaceKind, i: int, s: int) -> u8 {
    if s == 0 {
        sub_faces(kind)[i].0
    } else {
        sub_faces(kind)[i].1
    }
}

/// `subs` are the four quarters, where both their nodes exist, that the face `f` of kind
/// `kind` splits into when `cx` refines its nodes.
pub open spec fn splits_face<C: TraverseOctree>(cx: C, kind: FaceKind, f: [C::Node; 2], subs: Seq<[C::Node; 2]>) -> bool {
    exists|o: Seq<[Option<C::Node>; 2]>|
        o.len() == 4 && (forall|i: int, s: int|
            0 <= i < 4 && 0 <= s < 2 ==> cx.refines_face(
                f[s],
                kind,
                s as usize,
                Corner::of(sub_face_corner(kind, i, s)),
                #[trigger] o[i][s],
            )) && subs == kept_faces(o)
}

/// `es` are the edges of kind `ek`, where all their nodes exist, that lie inside the face
/// `f` of kind `kind` when `cx` refines its nodes: none where `ek` is normal to the face.
pub open spec fn face_edges_from<C: TraverseOctree>(
    cx: C,
    kind: FaceKind,
    f: [C::Node; 2],
    ek: EdgeKind,
    es: Seq<[C::Node; 4]>,
) -> bool {
    if face_edges(kind, ek).len() == 2 {
        exists|o: Seq<[Option<C::Node>; 4]>|
            o.len() == 2 && (forall|j: int, s: int|
                0 <= j < 2 && 0 <= s < 4 ==> cx.refines_face(
                    f[face_edges(kind, ek)[j][s].0 as int],
                    kind,
                    face_edges(kind, ek)[j][s].0 as usize,
                    Corner::of(face_edges(kind, ek)[j][s].1),
                    #[trigger] o[j][s],
                )) && es == kept_edges(o)
    } else {
        es.len() == 0
    }
}

/// The edges that `edges` holds, axis by axis, beyond those of `base`.
pub open spec fn added_since<T>(edges: Edges<T>, base: Edges<T>) -> Seq<Seq<[T; 4]>> {
    Seq::new(3, |a: int| edges.axis(a).skip(base.axis(a).len() as int))
}

/// `edges` holds the edges of `base` and maybe more after them, axis by axis.
pub open spec fn extends<T>(edges: Edges<T>, base: Edges<T>) -> bool {
    forall|a: int|
        0 <= a < 3 ==> (#[trigger] edges.axis(a)).len() >= base.axis(a).len() && edges.axis(a).take(
            base.axis(a).len() as int,
        ) == base.axis(a)
}

/// The first `ks[a]` edges of each axis `a` of `added`.
pub open spec fn prefixes<T>(added: Seq<Seq<[T; 4]>>, ks: Seq<int>) -> Seq<Seq<[T; 4]>> {
    Seq::new(3, |a: int| added[a].take(ks[a]))
}

/// The edges of each axis `a` of `added` from the `ks[a]`-th on.
pub open spec fn suffixes<T>(added: Seq<Seq<[T; 4]>>, ks: Seq<int>) -> Seq<Seq<[T; 4]>> {
    Seq::new(3, |a: int| added[a].skip(ks[a]))
}

/// Each axis of `x` followed by the same axis of `y`.
pub open spec fn concat3<T>(x: Seq<Seq<[T; 4]>>, y: Seq<Seq<[T; 4]>>) -> Seq<Seq<[T; 4]>> {
    Seq::new(3, |a: int| x[a] + y[a])
}

/// `ks` splits each axis of `added`.
pub open spec fn splits_axes<T>(added: Seq<Seq<[T; 4]>>, ks: Seq<int>) -> bool {
    &&& added.len() == 3
    &&& ks.len() == 3
    &&& forall|a: int| 0 <= a < 3 ==> 0 <= #[trigger] ks[a] <= added[a].len()
}

/// One level of the walk over faces of kind `kind`: `next` is what the faces of `current`
/// that are not between leaves split into, and `added` the edges, axis by axis, that
/// appear inside them, both in order.
pub open spec fn face_level<C: TraverseOctree>(
    cx: C,
    kind: FaceKind,
    current: Seq<[C::Node; 2]>,
    next: Seq<[C::Node; 2]>,
    added: Seq<Seq<[C::Node; 4]>>,
) -> bool
    decreases current.len(),
{
    if current.len() == 0 {
        next.len() == 0 && added.len() == 3 && forall|a: int| 0 <= a < 3 ==> (#[trigger] added[a]).len() == 0
    } else if cx.height(current.last()[0]) == 0 && cx.height(current.last()[1]) == 0 {
        face_level(cx, kind, current.drop_last(), next, added)
    } else {
        exists|k: int, ks: Seq<int>|
            #![trigger prefixes(added, ks), next.skip(k)]
            0 <= k <= next.len() && splits_axes(added, ks) && face_level(
                cx,
                kind,
                current.drop_last(),
                next.take(k),
                prefixes(added, ks),
            ) && splits_face(cx, kind, current.last(), next.skip(k)) && forall|a: int|
                0 <= a < 3 ==> face_edges_from(cx, kind, current.last(), spec_edge_kind(a), #[trigger] added[a].skip(ks[a]))
    }
}

/// `added` is what the walk over the faces `current` of kind `kind` adds to the edges,
/// axis by axis: the edges inside the faces of each level in turn, down to the level
/// where none is left to split.
pub open spec fn face_walk<C: TraverseOctree>(
    cx: C,
    kind: FaceKind,
    current: Seq<[C::Node; 2]>,
    added: Seq<Seq<[C::Node; 4]>>,
) -> bool
    decreases (if current.len() == 0 { 0 } else { faces_max(cx, current) + 1 }),
{
    if current.len() == 0 {
        added.len() == 3 && forall|a: int| 0 <= a < 3 ==> (#[trigger] added[a]).len() == 0
    } else {
        exists|ks: Seq<int>, next: Seq<[C::Node; 2]>|
            #![trigger suffixes(added, ks), faces_max(cx, next)]
            splits_axes(added, ks) && face_level(cx, kind, current, next, prefixes(added, ks)) && (next.len() == 0
                || faces_max(cx, next) < faces_max(cx, current)) && face_walk(cx, kind, next, suffixes(added, ks))
    }
}

/// `subs` are the two halves, where all their nodes exist, that the edge `e` of kind
/// `kind` splits into when `cx` refines its nodes.
pub open spec fn splits_edge<C: TraverseOctree>(cx: C, kind: EdgeKind, e: [C::Node; 4], subs: Seq<[C::Node; 4]>) -> bool {
    exists|o: Seq<[Option<C::Node>; 4]>|
        o.len() == 2 && (forall|j: int, s: int|
            0 <= j < 2 && 0 <= s < 4 ==> cx.refines_edge(
                e[s],
                kind,
                s as usize,
                Corner::of(sub_edges(kind)[j][s]),
                #[trigger] o[j][s],
            )) && subs == kept_edges(o)
}

/// One level of the walk over edges of kind `kind`: `leaves` are the edges of `current`
/// whose nodes are all leaves, `next` what the others split into, both in order.
pub open spec fn edge_level<C: TraverseOctree>(
    cx: C,
    kind: EdgeKind,
    current: Seq<[C::Node; 4]>,
    leaves: Seq<[C::Node; 4]>,
    next: Seq<[C::Node; 4]>,
) -> bool
    decreases current.len(),
{
    if current.len() == 0 {
        leaves.len() == 0 && next.len() == 0
    } else if leaf_edge(cx, current.last()) {
        leaves.len() > 0 && leaves.last() == current.last() && edge_level(
            cx,
            kind,
            current.drop_last(),
            leaves.drop_last(),
            next,
        )
    } else {
        exists|k: int|
            0 <= k <= next.len() && edge_level(cx, kind, current.drop_last(), leaves, next.take(k)) && splits_edge(
                cx,
                kind,
                current.last(),
                next.skip(k),
            )
    }
}

/// `out` is what the walk over the edges `current` of kind `kind` gives: the leaf edges of
/// each level in turn, down to the level where none is left to split.
pub open spec fn edge_walk<C: TraverseOctree>(cx: C, kind: EdgeKind, current: Seq<[C::Node; 4]>, out: Seq<[C::Node; 4]>) -> bool
    decreases (if current.len() == 0 { 0 } else { edges_max(cx, current) + 1 }),
{
    if current.len() == 0 {
        out.len() == 0
    } else {
        exists|k: int, next: Seq<[C::Node; 4]>|
            0 <= k <= out.len() && edge_level(cx, kind, current, out.take(k), next) && (next.len() == 0 || edges_max(
                cx,
                next,
            ) < edges_max(cx, current)) && edge_walk(cx, kind, next, out.skip(k))
    }
}

/// Refines the edge `keys` of kind `kind` one level: pushes onto `next` the two edges it
/// splits into, each where all its nodes exist.
fn split_edge<T: Copy, C: TraverseOctree<Node = T>>(
    cx: &mut C,
    kind: EdgeKind,
    keys: [T; 4],
    next: Vec<[T; 4]>,
    Ghost(cx0): Ghost<C>,
    Ghost(m): Ghost<nat>,
) -> (r: Vec<[T; 4]>)
    requires
        old(cx).wf(),
        forall|n: T| #[trigger] old(cx).height(n) == cx0.height(n),
        m >= 1,
        forall|s: int| 0 <= s < 4 ==> cx0.height(#[trigger] keys[s]) <= m,
        edges_below(cx0, next@, m - 1),
        same_refinement(*old(cx), cx0),
    ensures
        final(cx).wf(),
        forall|n: T| #[trigger] final(cx).height(n) == cx0.height(n),
        same_refinement(*final(cx), cx0),
        edges_below(cx0, r@, m - 1),
        r@.len() >= next@.len(),
        r@.take(next@.len() as int) == next@,
        splits_edge(cx0, kind, keys, r@.skip(next@.len() as int)),
{
    let ghost next0 = next@;
    let ghost mut opts: Seq<[Option<T>; 4]> = seq![];
    let mut next = next;
    let subs = sub_edge_table(kind);
    let mut j: usize = 0;
    while j < 2
        invariant
            cx.wf(),
            forall|n: T| #[trigger] cx.height(n) == cx0.height(n),
            same_refinement(*cx, cx0),
            m >= 1,
            forall|s: int| 0 <= s < 4 ==> cx0.height(#[trigger] keys[s]) <= m,
            edges_below(cx0, next@, m - 1),
            forall|j: int, s: int| 0 <= j < 2 && 0 <= s < 4 ==> (#[trigger] subs[j][s]).bits() == sub_edges(kind)[j][s],
            j <= 2,
            opts.len() == j,
            forall|i: int, s: int|
                0 <= i < j && 0 <= s < 4 ==> cx0.refines_edge(
                    keys[s],
                    kind,
                    s as usize,
                    Corner::of(sub_edges(kind)[i][s]),
                    #[trigger] opts[i][s],
                ),
            next@.len() >= next0.len(),
            next@.take(next0.len() as int) == next0,
            next@.skip(next0.len() as int) == kept_edges(opts),
        decreases 2 - j,
    {
        let row = subs[j];
        let e0 = cx.refine_edge(&keys[0], kind, 0, row[0]);
        let e1 = cx.refine_edge(&keys[1], kind, 1, row[1]);
        let e2 = cx.refine_edge(&keys[2], kind, 2, row[2]);
        let e3 = cx.refine_edge(&keys[3], kind, 3, row[3]);
        let ghost o = [e0, e1, e2, e3];
        let ghost before = next@;
        proof {
            assert forall|s: int| 0 <= s < 4 implies row[s] == Corner::of(sub_edges(kind)[j as int][s]) by {
                assert(subs[j as int][s].bits() == sub_edges(kind)[j as int][s]);
                Corner::lemma_of_bits(row[s]);
            }
        }
        if let Some(edge) = array_transpose([e0, e1, e2, e3]) {
            proof {
                assert(cx0.height(keys[0]) <= m && cx0.height(keys[1]) <= m);
                assert(cx0.height(keys[2]) <= m && cx0.height(keys[3]) <= m);
            }
            proof {
                assert(edge =~= [e0->0, e1->0, e2->0, e3->0]);
            }
            next.push(edge);
        }
        proof {
            let new_opts = opts.push(o);
            assert(new_opts.drop_last() =~= opts);
            assert(next@.take(next0.len() as int) =~= next0);
            if o[0] is Some && o[1] is Some && o[2] is Some && o[3] is Some {
                assert(next@.skip(next0.len() as int) =~= before.skip(next0.len() as int).push([o[0]->0, o[1]->0, o[2]->0, o[3]->0]));
            } else {
                assert(next@ == before);
            }
            assert(next@.skip(next0.len() as int) =~= kept_edges(new_opts));
            opts = new_opts;
        }
        j = j + 1;
    }
    proof {
        assert(splits_edge(cx0, kind, keys, next@.skip(next0.len() as int)));
    }
    next
}

/// Refines the edges `roots` of kind `kind`, level by level, and gives each edge whose
/// nodes are all leaves, in the order in which the refinement reaches them.
fn walk_edges<T: Copy, C: TraverseOctree<Node = T>>(
    cx: &mut C,
    kind: EdgeKind,
    roots: Vec<[T; 4]>,
    Ghost(cx0): Ghost<C>,
) -> (r: Vec<[T; 4]>)
    requires
        old(cx).wf(),
        forall|n: T| #[trigger] old(cx).height(n) == cx0.height(n),
        same_refinement(*old(cx), cx0),
    ensures
        final(cx).wf(),
        forall|n: T| #[trigger] final(cx).height(n) == cx0.height(n),
        same_refinement(*final(cx), cx0),
        forall|i: int| 0 <= i < r@.len() ==> leaf_edge(cx0, #[trigger] r@[i]),
        edge_walk(cx0, kind, roots@, r@),
{
    let ghost roots0 = roots@;
    let mut out: Vec<[T; 4]> = Vec::new();
    let mut current = roots;
    proof {
        assert forall|rest: Seq<[T; 4]>| edge_walk(cx0, kind, current@, rest) implies edge_walk(
            cx0,
            kind,
            roots0,
            out@ + rest,
        ) by {
            assert(out@ + rest =~= rest);
        }
    }
    while current.len() > 0
        invariant
            cx.wf(),
            forall|n: T| #[trigger] cx.height(n) == cx0.height(n),
            same_refinement(*cx, cx0),
            forall|i: int| 0 <= i < out@.len() ==> leaf_edge(cx0, #[trigger] out@[i]),
            forall|rest: Seq<[T; 4]>|
                edge_walk(cx0, kind, current@, rest) ==> #[trigger] edge_walk(cx0, kind, roots0, out@ + rest),
        decreases (if current@.len() == 0 { 0 } else { edges_max(cx0, current@) + 1 }),
    {
        let ghost m = edges_max(cx0, current@);
        let ghost out0 = out@;
        proof {
            lemma_edges_max(cx0, current@, 0);
        }
        let mut next: Vec<[T; 4]> = Vec::new();
        let mut i: usize = 0;
        while i < current.len()
            invariant
                cx.wf(),
                forall|n: T| #[trigger] cx.height(n) == cx0.height(n),
                same_refinement(*cx, cx0),
                forall|i: int| 0 <= i < out@.len() ==> leaf_edge(cx0, #[trigger] out@[i]),
                i <= current@.len(),
                edges_below(cx0, current@, m as int),
                next@.len() > 0 ==> m >= 1,
                edges_below(cx0, next@, m - 1),
                out@.len() >= out0.len(),
                out@.take(out0.len() as int) == out0,
                edge_level(cx0, kind, current@.take(i as int), out@.skip(out0.len() as int), next@),
            decreases current@.len() - i,
        {
            let keys = current[i];
            let ghost lv = out@.skip(out0.len() as int);
            let ghost nx = next@;
            proof {
                assert(current@.take(i + 1).drop_last() =~= current@.take(i as int));
                assert(current@.take(i + 1).last() == keys);
            }
            assert(forall|s: int| 0 <= s < 4 ==> cx0.height(#[trigger] keys[s]) <= m) by {
                assert(forall|s: int| 0 <= s < 4 ==> keys[s] == current@[i as int][s]);
            }
            let leaf = cx.is_edge_leaf(&keys[0], kind, 0) && cx.is_edge_leaf(&keys[1], kind, 1) && cx.is_edge_leaf(
                &keys[2],
                kind,
                2,
            ) && cx.is_edge_leaf(&keys[3], kind, 3);
            if leaf {
                assert(leaf_edge(cx0, keys));
                out.push(keys);
                proof {
                    assert(out@.take(out0.len() as int) =~= out0);
                    assert(out@.skip(out0.len() as int) =~= lv.push(keys));
                    assert(lv.push(keys).drop_last() =~= lv);
                }
            } else {
                proof {
                    assert(!leaf_edge(cx0, keys)) by {
                        if leaf_edge(cx0, keys) {
                            assert(cx0.height(keys[0]) == 0 && cx0.height(keys[1]) == 0);
                            assert(cx0.height(keys[2]) == 0 && cx0.height(keys[3]) == 0);
                        }
                    }
                }
                next = split_edge(cx, kind, keys, next, Ghost(cx0), Ghost(m));
                proof {
                    let k = nx.len() as int;
                    assert(next@.take(k) == nx);
                    assert(edge_level(cx0, kind, current@.take(i + 1), lv, next@));
                }
            }
            i = i + 1;
        }
        proof {
            lemma_edges_max(cx0, next@, (m - 1) as nat);
            assert(current@.take(current@.len() as int) =~= current@);
            let lv = out@.skip(out0.len() as int);
            assert forall|rest: Seq<[T; 4]>| edge_walk(cx0, kind, next@, rest) implies #[trigger] edge_walk(
                cx0,
                kind,
                roots0,
                out@ + rest,
            ) by {
                let whole = lv + rest;
                assert(whole.take(lv.len() as int) =~= lv);
                assert(whole.skip(lv.len() as int) =~= rest);
                assert(next@.len() == 0 || edges_max(cx0, next@) < edges_max(cx0, current@));
                assert(edge_walk(cx0, kind, current@, whole));
                assert(out0 + whole =~= out@ + rest) by {
                    assert(out@ =~= out0 + lv);
                }
            }
        }
        current = next;
    }
    proof {
        assert(edge_walk(cx0, kind, current@, Seq::<[T; 4]>::empty()));
        assert(out@ + Seq::<[T; 4]>::empty() =~= out@);
    }
    out
}

/// The edges of axis `e` after the faces of the first `a` kinds have been walked, each
/// adding `fw[kind][e]`.
pub open spec fn axis_after<T>(edges: Edges<T>, fw: Seq<Seq<Seq<[T; 4]>>>, e: int, a: int) -> Seq<[T; 4]>
    decreases a,
{
    if a <= 0 {
        edges.axis(e)
    } else {
        axis_after(edges, fw, e, a - 1) + fw[a - 1][e]
    }
}

proof fn lemma_axis_after_prefix<T>(edges: Edges<T>, fw: Seq<Seq<Seq<[T; 4]>>>, more: Seq<Seq<Seq<[T; 4]>>>, e: int, a: int)
    requires
        0 <= a <= fw.len() <= more.len(),
        forall|i: int| 0 <= i < fw.len() ==> more[i] == fw[i],
    ensures
        axis_after(edges, more, e, a) == axis_after(edges, fw, e, a),
    decreases a,
{
    if a > 0 {
        lemma_axis_after_prefix(edges, fw, more, e, a - 1);
    }
}

/// The edges of axis `e` that the walk over edges starts from: those given, then those
/// that the walks over faces of each kind added, in kind order.
pub open spec fn edge_roots<T>(edges: Edges<T>, fw: Seq<Seq<Seq<[T; 4]>>>, e: int) -> Seq<[T; 4]> {
    edges.axis(e) + fw[0][e] + fw[1][e] + fw[2][e]
}

proof fn lemma_axis_after_roots<T>(edges: Edges<T>, fw: Seq<Seq<Seq<[T; 4]>>>, e: int)
    ensures
        axis_after(edges, fw, e, 3) == edge_roots(edges, fw, e),
{
    reveal_with_fuel(axis_after, 4);
}

/// The walks over edges of each axis, each edge with its kind, in axis order.
pub open spec fn tagged_walks<T>(ew: Seq<Seq<[T; 4]>>) -> Seq<(EdgeKind, [T; 4])>
    decreases ew.len(),
{
    if ew.len() == 0 {
        seq![]
    } else {
        tagged_walks(ew.drop_last()) + ew.last().map_values(|e: [T; 4]| (spec_edge_kind(ew.len() - 1), e))
    }
}

/// `out` is what the walk over `faces`, then over `edges` with the edges that the faces
/// add, gives in `cx`: the edges between leaves, each with its kind, axis by axis.
pub open spec fn minimal_edges_of<C: TraverseOctree>(
    cx: C,
    faces: Faces<C::Node>,
    edges: Edges<C::Node>,
    out: Seq<(EdgeKind, [C::Node; 4])>,
) -> bool {
    exists|fw: Seq<Seq<Seq<[C::Node; 4]>>>, ew: Seq<Seq<[C::Node; 4]>>|
        #![trigger tagged_walks(ew), fw.len()]
        fw.len() == 3 && ew.len() == 3 && (forall|a: int|
            0 <= a < 3 ==> face_walk(cx, spec_face_kind(a), faces.axis(a), #[trigger] fw[a])) && (forall|a: int|
            0 <= a < 3 ==> edge_walk(cx, spec_edge_kind(a), edge_roots(edges, fw, a), #[trigger] ew[a]))
            && out == tagged_walks(ew)
}

/// The faces and edges of an octree, ready to be refined down to its minimal edges.
pub struct MinimalEdges<T> {
    faces: Faces<T>,
    edges: Edges<T>,
}

impl<T: Copy> MinimalEdges<T> {
    pub closed spec fn spec_faces(&self) -> Faces<T> {
        self.faces
    }

    pub closed spec fn spec_edges(&self) -> Edges<T> {
        self.edges
    }

    pub fn new(faces: Faces<T>, edges: Edges<T>) -> (r: MinimalEdges<T>)
        ensures
            r.spec_faces() == faces,
            r.spec_edges() == edges,
    {
        MinimalEdges { faces, edges }
    }

    /// Refines the faces, then the edges (among them those that appear inside the faces as
    /// they are refined), until only edges between leaves are left, and calls `f` with
    /// each of those, in order of kind: the edges of `leaf_edges`, in its order.
    pub fn traverse<C: TraverseOctree<Node = T>, F: FnMut(EdgeKind, [T; 4])>(self, cx: &mut C, f: F)
        requires
            old(cx).wf(),
            forall|k: EdgeKind, e: [T; 4]| leaf_edge(*old(cx), e) ==> #[trigger] call_requires(f, (k, e)),
        ensures
            final(cx).wf(),
            forall|n: T| #[trigger] final(cx).height(n) == old(cx).height(n),
            exists|s: Seq<(EdgeKind, [T; 4])>|
                #[trigger] minimal_edges_of(*old(cx), self.spec_faces(), self.spec_edges(), s) && forall|i: int|
                    0 <= i < s.len() ==> call_ensures(f, #[trigger] s[i], ()),
    {
        let ghost cx0 = *cx;
        let ghost faces0 = self.spec_faces();
        let ghost edges0 = self.spec_edges();
        let mut f = f;
        let ghost f0 = f;
        let found = self.leaf_edges(cx);
        let mut i: usize = 0;
        while i < found.len()
            invariant
                forall|k: EdgeKind, e: [T; 4]| leaf_edge(cx0, e) ==> #[trigger] call_requires(f0, (k, e)),
                forall|j: int| 0 <= j < found@.len() ==> leaf_edge(cx0, (#[trigger] found@[j]).1),
                forall|j: int| 0 <= j < i ==> call_ensures(f0, #[trigger] found@[j], ()),
                i <= found@.len(),
                f == f0,
            decreases found@.len() - i,
        {
            let (kind, edge) = found[i];
            proof {
                assert(leaf_edge(cx0, found@[i as int].1));
            }
            f(kind, edge);
            proof {
                assert(found@[i as int] == (kind, edge));
            }
            i = i + 1;
        }
        proof {
            assert(minimal_edges_of(cx0, faces0, edges0, found@));
        }
    }

    /// The edges whose nodes are all leaves that `traverse` reaches, each with its kind,
    /// in the order in which `traverse` gives them to its callback.
    pub fn leaf_edges<C: TraverseOctree<Node = T>>(self, cx: &mut C) -> (r: Vec<(EdgeKind, [T; 4])>)
        requires
            old(cx).wf(),
        ensures
            final(cx).wf(),
            forall|n: T| #[trigger] final(cx).height(n) == old(cx).height(n),
            forall|i: int| 0 <= i < r@.len() ==> leaf_edge(*old(cx), (#[trigger] r@[i]).1),
            minimal_edges_of(*old(cx), self.spec_faces(), self.spec_edges(), r@),
    {
        let ghost cx0 = *cx;
        let ghost faces0 = self.spec_faces();
        let ghost edges0 = self.spec_edges();
        let MinimalEdges { faces, edges } = self;
        let mut edges = edges;
        let mut face_axes = faces.into_axes();
        let ghost mut fw: Seq<Seq<Seq<[T; 4]>>> = seq![];
        let mut a: usize = 0;
        while a < 3
            invariant
                cx.wf(),
                forall|n: T| #[trigger] cx.height(n) == cx0.height(n),
                same_refinement(*cx, cx0),
                a <= 3,
                face_axes@.len() == 3 - a,
                forall|j: int|
                    0 <= j < 3 - a ==> (#[trigger] face_axes@[j]).0 == spec_face_kind(a + j) && face_axes@[j].1@
                        == faces0.axis(a + j),
                fw.len() == a,
                forall|b: int| 0 <= b < a ==> face_walk(cx0, spec_face_kind(b), faces0.axis(b), #[trigger] fw[b]),
                forall|b: int| 0 <= b < a ==> (#[trigger] fw[b]).len() == 3,
                forall|e: int| 0 <= e < 3 ==> #[trigger] edges.axis(e) == axis_after(edges0, fw, e, a as int),
            decreases 3 - a,
        {
            let ghost before = edges;
            let ghost fa = face_axes@;
            let (kind, roots) = face_axes.remove(0);
            proof {
                assert forall|j: int| 0 <= j < 3 - (a + 1) implies (#[trigger] face_axes@[j]).0 == spec_face_kind(
                    a + 1 + j,
                ) && face_axes@[j].1@ == faces0.axis(a + 1 + j) by {
                    assert(face_axes@[j] == fa[j + 1]);
                }
            }
            walk_faces(cx, kind, roots, &mut edges, Ghost(cx0));
            proof {
                let added = added_since(edges, before);
                let new_fw = fw.push(added);
                assert forall|e: int| 0 <= e < 3 implies #[trigger] edges.axis(e) == axis_after(edges0, new_fw, e, a + 1) by {
                    assert(edges.axis(e).take(before.axis(e).len() as int) == before.axis(e));
                    assert(edges.axis(e) =~= before.axis(e) + added[e]);
                    assert(axis_after(edges0, new_fw, e, a as int) == axis_after(edges0, fw, e, a as int)) by {
                        lemma_axis_after_prefix(edges0, fw, new_fw, e, a as int);
                    }
                }
                fw = new_fw;
            }
            a = a + 1;
        }
        let ghost roots_by_axis = edges;
        let mut out: Vec<(EdgeKind, [T; 4])> = Vec::new();
        let ghost mut ew: Seq<Seq<[T; 4]>> = seq![];
        let mut edge_axes = edges.into_axes();
        let mut a: usize = 0;
        while a < 3
            invariant
                cx.wf(),
                forall|n: T| #[trigger] cx.height(n) == cx0.height(n),
                same_refinement(*cx, cx0),
                forall|j: int| 0 <= j < out@.len() ==> leaf_edge(cx0, (#[trigger] out@[j]).1),
                a <= 3,
                edge_axes@.len() == 3 - a,
                forall|j: int|
                    0 <= j < 3 - a ==> (#[trigger] edge_axes@[j]).0 == spec_edge_kind(a + j) && edge_axes@[j].1@
                        == roots_by_axis.axis(a + j),
                ew.len() == a,
                forall|b: int|
                    0 <= b < a ==> edge_walk(cx0, spec_edge_kind(b), roots_by_axis.axis(b), #[trigger] ew[b]),
                out@ == tagged_walks(ew),
            decreases 3 - a,
        {
            let ghost ea = edge_axes@;
            let (kind, roots) = edge_axes.remove(0);
            proof {
                assert forall|j: int| 0 <= j < 3 - (a + 1) implies (#[trigger] edge_axes@[j]).0 == spec_edge_kind(
                    a + 1 + j,
                ) && edge_axes@[j].1@ == roots_by_axis.axis(a + 1 + j) by {
                    assert(edge_axes@[j] == ea[j + 1]);
                }
            }
            let ghost before = *cx;
            let found = walk_edges(cx, kind, roots, Ghost(cx0));
            proof {
                assert forall|j: int| 0 <= j < found@.len() implies leaf_edge(cx0, #[trigger] found@[j]) by {
                    assert(leaf_edge(before, found@[j]));
                    assert forall|s: int| 0 <= s < 4 implies cx0.height(#[trigger] found@[j][s]) == 0 by {
                        assert(before.height(found@[j][s]) == 0);
                    }
                }
            }
            let ghost out0 = out@;
            let mut i: usize = 0;
            while i < found.len()
                invariant
                    forall|j: int| 0 <= j < found@.len() ==> leaf_edge(cx0, #[trigger] found@[j]),
                    forall|j: int| 0 <= j < out@.len() ==> leaf_edge(cx0, (#[trigger] out@[j]).1),
                    i <= found@.len(),
                    out@ == out0 + found@.take(i as int).map_values(|e: [T; 4]| (kind, e)),
                decreases found@.len() - i,
            {
                out.push((kind, found[i]));
                proof {
                    assert(found@.take(i + 1).map_values(|e: [T; 4]| (kind, e)) =~= found@.take(i as int).map_values(
                        |e: [T; 4]| (kind, e),
                    ).push((kind, found@[i as int])));
                }
                i = i + 1;
            }
            proof {
                assert(found@.take(found@.len() as int) =~= found@);
                let new_ew = ew.push(found@);
                assert(new_ew.drop_last() =~= ew);
                assert(tagged_walks(new_ew) == tagged_walks(ew) + found@.map_values(|e: [T; 4]| (spec_edge_kind(a as int), e)));
                assert(out@ =~= tagged_walks(new_ew));
                ew = new_ew;
            }
            a = a + 1;
        }
        proof {
            assert forall|b: int| 0 <= b < 3 implies #[trigger] roots_by_axis.axis(b) == edge_roots(edges0, fw, b) by {
                lemma_axis_after_roots(edges0, fw, b);
            }
            assert(minimal_edges_of(cx0, faces0, edges0, out@)) by {
                assert(fw.len() == 3 && ew.len() == 3);
                assert(forall|b: int| 0 <= b < 3 ==> edge_walk(cx0, spec_edge_kind(b), edge_roots(edges0, fw, b), #[trigger] ew[b]));
            }
        }
        out
    }
}

/// An octree given by two functions: whether a node is a leaf, and a node's child at a
/// corner (the node itself for a leaf). `height` bounds how often a node can be refined.
#[verifier::reject_recursive_types(T)]
struct TraverseSingleOctree<T, L, R> {
    is_leaf: L,
    refine: R,
    height: Ghost<spec_fn(T) -> nat>,
}

/// `is_leaf` and `refine` describe an octree in which `height` counts the levels below a
/// node: a node is a leaf exactly when its height is 0, and refining a node that is not
/// a leaf gives a node of lower height.
pub open spec fn single_octree<T, L: FnMut(&T) -> bool, R: FnMut(&T, Corner) -> Option<T>>(
    is_leaf: L,
    refine: R,
    height: spec_fn(T) -> nat,
) -> bool {
    &&& forall|n: &T| #[trigger] call_requires(is_leaf, (n,))
    &&& forall|n: &T, b: bool| #[trigger] call_ensures(is_leaf, (n,), b) ==> b == (height(*n) == 0)
    &&& forall|n: &T, c: Corner| #[trigger] call_requires(refine, (n, c))
    &&& forall|n: &T, c: Corner, r: Option<T>|
        #[trigger] call_ensures(refine, (n, c), r) ==> (r matches Some(x) ==> height(x) == 0 || height(x) < height(*n))
}

impl<T, L: FnMut(&T) -> bool, R: FnMut(&T, Corner) -> Option<T>> TraverseOctree for TraverseSingleOctree<T, L, R> {
    type Node = T;

    closed spec fn height(&self, node: T) -> nat {
        (self.height@)(node)
    }

    closed spec fn wf(&self) -> bool {
        single_octree(self.is_leaf, self.refine, self.height@)
    }

    closed spec fn refines_face(&self, node: T, kind: FaceKind, slot: usize, corner: Corner, r: Option<T>) -> bool {
        call_ensures(self.refine, (&node, corner), r)
    }

    closed spec fn refines_edge(&self, node: T, kind: EdgeKind, slot: usize, corner: Corner, r: Option<T>) -> bool {
        call_ensures(self.refine, (&node, corner), r)
    }

    fn is_face_leaf(&mut self, node: &T, slot: usize) -> (r: bool) {
        (self.is_leaf)(node)
    }

    fn is_edge_leaf(&mut self, node: &T, kind: EdgeKind, slot: usize) -> (r: bool) {
        (self.is_leaf)(node)
    }

    fn refine_face(&mut self, node: &T, kind: FaceKind, slot: usize, corner: Corner) -> (r: Option<T>) {
        (self.refine)(node, corner)
    }

    fn refine_edge(&mut self, node: &T, kind: EdgeKind, slot: usize, corner: Corner) -> (r: Option<T>) {
        (self.refine)(node, corner)
    }
}

impl<T: Copy> MinimalEdges<T> {
    /// `traverse` on the octree that `is_leaf` and `refine` describe, in which `height`
    /// counts the levels below a node.
    pub fn traverse_single<L, R, F>(self, is_leaf: L, refine: R, f: F, Ghost(height): Ghost<spec_fn(T) -> nat>) where
        L: FnMut(&T) -> bool,
        R: FnMut(&T, Corner) -> Option<T>,
        F: FnMut(EdgeKind, [T; 4]),

        requires
            single_octree(is_leaf, refine, height),
            forall|k: EdgeKind, e: [T; 4]|
                (forall|s: int| 0 <= s < 4 ==> height(#[trigger] e[s]) == 0) ==> #[trigger] call_requires(f, (k, e)),
    {
        let mut cx = TraverseSingleOctree { is_leaf, refine, height: Ghost(height) };
        proof {
            assert forall|k: EdgeKind, e: [T; 4]| leaf_edge(cx, e) implies #[trigger] call_requires(f, (k, e)) by {
                assert forall|s: int| 0 <= s < 4 implies height(#[trigger] e[s]) == 0 by {
                    assert(cx.height(e[s]) == 0);
                }
            }
        }
        self.traverse(&mut cx, f);
    }
}

} // verus!
