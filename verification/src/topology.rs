//! The corners, faces and edges of an octree cell, and the tables that say how each
//! of them splits when a cell is refined into its eight children.
//!
//! Corner `c` of a cell is the child whose offset along x, y and z is bit 0, 1 and 2
//! of `c`.
use vstd::prelude::*;

verus! {

broadcast use vstd::function::group_function_axioms;

/// One of the eight corners (children) of a cell.
#[derive(Copy, Clone, PartialEq, Eq, Structural, Debug)]
pub struct Corner(u8);

impl Corner {
    #[verifier::type_invariant]
    spec fn inv(self) -> bool {
        self.0 < 8
    }

    /// The corner's number, `0..8`.
    pub closed spec fn bits(self) -> u8 {
        self.0
    }

    /// The corner numbered `b`.
    pub closed spec fn of(b: u8) -> Corner {
        Corner(b)
    }

    pub proof fn lemma_of(b: u8)
        ensures
            Corner::of(b).bits() == b,
    {
    }

    /// A corner is the corner of its number.
    pub proof fn lemma_of_bits(c: Corner)
        ensures
            Corner::of(c.bits()) == c,
    {
    }

    pub fn new(corner: u8) -> (r: Corner)
        requires
            corner < 8,
        ensures
            r == Corner::of(corner),
            r.bits() == corner,
    {
        Corner(corner)
    }

    pub fn as_u8(self) -> (r: u8)
        ensures
            r == self.bits(),
            r < 8,
    {
        proof {
            use_type_invariant(&self);
        }
        self.0
    }
}

/// The axis a face is normal to.
#[derive(Copy, Clone, PartialEq, Eq, Structural, Hash, Debug)]
pub enum FaceKind {
    X,
    Y,
    Z,
}

/// The axis an edge runs along.
#[derive(Copy, Clone, PartialEq, Eq, Structural, Hash, Debug)]
pub enum EdgeKind {
    X,
    Y,
    Z,
}

/// The number of an axis: 0 for x, 1 for y, 2 for z.
pub open spec fn face_axis(kind: FaceKind) -> int {
    match kind {
        FaceKind::X => 0,
        FaceKind::Y => 1,
        FaceKind::Z => 2,
    }
}

pub open spec fn edge_axis(kind: EdgeKind) -> int {
    match kind {
        EdgeKind::X => 0,
        EdgeKind::Y => 1,
        EdgeKind::Z => 2,
    }
}

impl FaceKind {
    /// The kinds of the edges that lie in a face of this kind.
    pub fn tangent_edges(self) -> (r: [EdgeKind; 2])
        ensures
            edge_axis(r[0]) < edge_axis(r[1]),
            edge_axis(r[0]) != face_axis(self),
            edge_axis(r[1]) != face_axis(self),
    {
        match self {
            FaceKind::X => [EdgeKind::Y, EdgeKind::Z],
            FaceKind::Y => [EdgeKind::X, EdgeKind::Z],
            FaceKind::Z => [EdgeKind::X, EdgeKind::Y],
        }
    }
}

/// The pairs of children that meet across the interior faces of kind `kind` of a cell:
/// the first of each pair on the negative side.
pub open spec fn cell_faces(kind: FaceKind) -> Seq<(u8, u8)> {
    match kind {
        FaceKind::X => seq![(0u8, 1u8), (2u8, 3u8), (6u8, 7u8), (4u8, 5u8)],
        FaceKind::Y => seq![(0u8, 2u8), (1u8, 3u8), (5u8, 7u8), (4u8, 6u8)],
        FaceKind::Z => seq![(0u8, 4u8), (1u8, 5u8), (3u8, 7u8), (2u8, 6u8)],
    }
}

fn cell_face_table(kind: FaceKind) -> (r: [(Corner, Corner); 4])
    ensures
        forall|i: int|
            0 <= i < 4 ==> (#[trigger] r[i]).0.bits() == cell_faces(kind)[i].0 && r[i].1.bits()
                == cell_faces(kind)[i].1,
{
    match kind {
        FaceKind::X => [
            (Corner::new(0), Corner::new(1)),
            (Corner::new(2), Corner::new(3)),
            (Corner::new(6), Corner::new(7)),
            (Corner::new(4), Corner::new(5)),
        ],
        FaceKind::Y => [
            (Corner::new(0), Corner::new(2)),
            (Corner::new(1), Corner::new(3)),
            (Corner::new(5), Corner::new(7)),
            (Corner::new(4), Corner::new(6)),
        ],
        FaceKind::Z => [
            (Corner::new(0), Corner::new(4)),
            (Corner::new(1), Corner::new(5)),
            (Corner::new(3), Corner::new(7)),
            (Corner::new(2), Corner::new(6)),
        ],
    }
}

/// Calls `f` once for each interior face of kind `kind` of `cell`, with the two children
/// of the cell that meet across it, each as `refine` gives it.
pub fn for_each_cell_face<T, B, R, F>(cell: T, kind: FaceKind, mut refine: R, mut f: F) where
    R: FnMut(&T, Corner) -> B,
    F: FnMut([B; 2]),

    requires
        forall|i: int, j: u8|
            0 <= i < 4 && (j == cell_faces(kind)[i].0 || j == cell_faces(kind)[i].1) ==> call_requires(
                refine,
                (&cell, Corner::of(j)),
            ),
        forall|i: int, b0: B, b1: B|
            0 <= i < 4 && call_ensures(refine, (&cell, Corner::of(cell_faces(kind)[i].0)), b0)
                && call_ensures(refine, (&cell, Corner::of(cell_faces(kind)[i].1)), b1)
                ==> call_requires(f, ([b0, b1],)),
    ensures
        forall|i: int|
            #![trigger cell_faces(kind)[i]]
            0 <= i < 4 ==> exists|b: [B; 2]|
                #[trigger] call_ensures(f, (b,), ()) && call_ensures(refine, (&cell, Corner::of(cell_faces(kind)[i].0)), b[0])
                    && call_ensures(refine, (&cell, Corner::of(cell_faces(kind)[i].1)), b[1]),
{
    let ghost f_in = f;
    let ghost refine_in = refine;
    let table = cell_face_table(kind);
    let mut i: usize = 0;
    while i < 4
        invariant
            f == f_in,
            refine == refine_in,
            forall|i: int, j: u8|
                0 <= i < 4 && (j == cell_faces(kind)[i].0 || j == cell_faces(kind)[i].1) ==> call_requires(
                    refine,
                    (&cell, Corner::of(j)),
                ),
            forall|i: int, b0: B, b1: B|
                0 <= i < 4 && call_ensures(refine, (&cell, Corner::of(cell_faces(kind)[i].0)), b0)
                    && call_ensures(refine, (&cell, Corner::of(cell_faces(kind)[i].1)), b1)
                    ==> call_requires(f, ([b0, b1],)),
            forall|i: int|
                0 <= i < 4 ==> (#[trigger] table[i]).0.bits() == cell_faces(kind)[i].0 && table[i].1.bits()
                    == cell_faces(kind)[i].1,
            i <= 4,
            forall|i2: int|
                #![trigger cell_faces(kind)[i2]]
                0 <= i2 < i ==> exists|b: [B; 2]|
                    #[trigger] call_ensures(f, (b,), ()) && call_ensures(refine, (&cell, Corner::of(cell_faces(kind)[i2].0)), b[0])
                        && call_ensures(refine, (&cell, Corner::of(cell_faces(kind)[i2].1)), b[1]),
        decreases 4 - i,
    {
        let (c0, c1) = table[i];
        assert(c0 == Corner::of(cell_faces(kind)[i as int].0));
        assert(c1 == Corner::of(cell_faces(kind)[i as int].1));
        let b0 = refine(&cell, c0);
        let b1 = refine(&cell, c1);
        let b = [b0, b1];
        f(b);
        proof {
            assert(b[0] == b0 && b[1] == b1);
            assert(call_ensures(f, (b,), ()));
        }
        i = i + 1;
    }
}

/// The two children that meet across each interior face of kind `kind`, as corners.
pub fn cell_face_corners(kind: FaceKind) -> (r: [(Corner, Corner); 4])
    ensures
        forall|i: int|
            0 <= i < 4 ==> (#[trigger] r[i]).0 == Corner::of(cell_faces(kind)[i].0) && r[i].1 == Corner::of(
                cell_faces(kind)[i].1,
            ),
{
    cell_face_table(kind)
}

/// The four children around each of the two interior edges of kind `kind` of a cell, the
/// first row on the edge's low end, each row in order around the edge.
pub open spec fn cell_edges(kind: EdgeKind) -> Seq<Seq<u8>> {
    match kind {
        EdgeKind::X => seq![seq![0u8, 2u8, 6u8, 4u8], seq![1u8, 3u8, 7u8, 5u8]],
        EdgeKind::Y => seq![seq![0u8, 1u8, 5u8, 4u8], seq![2u8, 3u8, 7u8, 6u8]],
        EdgeKind::Z => seq![seq![0u8, 1u8, 3u8, 2u8], seq![4u8, 5u8, 7u8, 6u8]],
    }
}

/// Four corners from their numbers.
fn corners4(a: u8, b: u8, c: u8, d: u8) -> (r: [Corner; 4])
    requires
        a < 8,
        b < 8,
        c < 8,
        d < 8,
    ensures
        r[0].bits() == a,
        r[1].bits() == b,
        r[2].bits() == c,
        r[3].bits() == d,
{
    [Corner::new(a), Corner::new(b), Corner::new(c), Corner::new(d)]
}

pub(crate) fn cell_edge_table(kind: EdgeKind) -> (r: [[Corner; 4]; 2])
    ensures
        forall|j: int, s: int| 0 <= j < 2 && 0 <= s < 4 ==> (#[trigger] r[j][s]).bits() == cell_edges(kind)[j][s],
{
    match kind {
        EdgeKind::X => [corners4(0, 2, 6, 4), corners4(1, 3, 7, 5)],
        EdgeKind::Y => [corners4(0, 1, 5, 4), corners4(2, 3, 7, 6)],
        EdgeKind::Z => [corners4(0, 1, 3, 2), corners4(4, 5, 7, 6)],
    }
}

/// `b` holds what `refine` gives for `cell` and each of the four corners numbered in
/// `corners`.
pub open spec fn refined4<T, B, R: FnMut(&T, Corner) -> B>(refine: R, cell: &T, corners: Seq<u8>, b: [B; 4]) -> bool {
    forall|s: int| 0 <= s < 4 ==> call_ensures(refine, (cell, Corner::of(#[trigger] corners[s])), b[s])
}

/// Calls `f` once for each interior edge of kind `kind` of `cell`, with the four children
/// of the cell around it, each as `refine` gives it.
pub fn for_each_cell_edge<T, B, R, F>(cell: T, kind: EdgeKind, mut refine: R, mut f: F) where
    R: FnMut(&T, Corner) -> B,
    F: FnMut([B; 4]),

    requires
        forall|j: int, s: int|
            0 <= j < 2 && 0 <= s < 4 ==> call_requires(refine, (&cell, Corner::of(#[trigger] cell_edges(kind)[j][s]))),
        forall|j: int, b: [B; 4]|
            0 <= j < 2 && #[trigger] refined4(refine, &cell, cell_edges(kind)[j], b) ==> call_requires(f, (b,)),
    ensures
        forall|j: int|
            #![trigger cell_edges(kind)[j]]
            0 <= j < 2 ==> exists|b: [B; 4]|
                #[trigger] call_ensures(f, (b,), ()) && refined4(refine, &cell, cell_edges(kind)[j], b),
{
    let ghost f_in = f;
    let ghost refine_in = refine;
    let table = cell_edge_table(kind);
    let mut j: usize = 0;
    while j < 2
        invariant
            f == f_in,
            refine == refine_in,
            forall|j: int, s: int|
                0 <= j < 2 && 0 <= s < 4 ==> call_requires(refine, (&cell, Corner::of(#[trigger] cell_edges(kind)[j][s]))),
            forall|j: int, b: [B; 4]|
                0 <= j < 2 && #[trigger] refined4(refine, &cell, cell_edges(kind)[j], b) ==> call_requires(f, (b,)),
            forall|j: int, s: int| 0 <= j < 2 && 0 <= s < 4 ==> (#[trigger] table[j][s]).bits() == cell_edges(kind)[j][s],
            j <= 2,
            forall|j2: int|
                #![trigger cell_edges(kind)[j2]]
                0 <= j2 < j ==> exists|b: [B; 4]|
                    #[trigger] call_ensures(f, (b,), ()) && refined4(refine, &cell, cell_edges(kind)[j2], b),
        decreases 2 - j,
    {
        let row = table[j];
        proof {
            assert forall|s: int| 0 <= s < 4 implies row[s] == Corner::of(#[trigger] cell_edges(kind)[j as int][s]) by {
                assert(table[j as int][s].bits() == cell_edges(kind)[j as int][s]);
            }
        }
        let b0 = refine(&cell, row[0]);
        let b1 = refine(&cell, row[1]);
        let b2 = refine(&cell, row[2]);
        let b3 = refine(&cell, row[3]);
        let b = [b0, b1, b2, b3];
        assert(refined4(refine, &cell, cell_edges(kind)[j as int], b));
        f(b);
        assert(call_ensures(f, (b,), ()));
        j = j + 1;
    }
}

/// `b[s]` is what `refine` gives for `cells[s]` and the corner numbered `corners[s]`.
pub open spec fn refined_cells<T, B, R: Fn(&T, Corner) -> B>(refine: R, cells: Seq<T>, corners: Seq<u8>, b: Seq<B>) -> bool {
    &&& b.len() == corners.len()
    &&& forall|s: int| 0 <= s < b.len() ==> call_ensures(refine, (&cells[s], Corner::of(#[trigger] corners[s])), b[s])
}

/// `f` has been called with the two values that `refine` gives for `cells` and `corners`.
pub open spec fn handed2<T, B, R: Fn(&T, Corner) -> B, F: FnMut([B; 2])>(
    f: F,
    refine: R,
    cells: Seq<T>,
    corners: Seq<u8>,
) -> bool {
    exists|b: [B; 2]| #[trigger] call_ensures(f, (b,), ()) && refined_cells(refine, cells, corners, b@)
}

/// `f` has been called with the four values that `refine` gives for `cells` and `corners`.
pub open spec fn handed4<T, B, R: Fn(&T, Corner) -> B, F: FnMut([B; 4])>(
    f: F,
    refine: R,
    cells: Seq<T>,
    corners: Seq<u8>,
) -> bool {
    exists|b: [B; 4]| #[trigger] call_ensures(f, (b,), ()) && refined_cells(refine, cells, corners, b@)
}

/// The children on either side of each interior face of kind `kind` that a face of that
/// kind between two cells splits into: a child of the first (negative) cell, then one of
/// the second.
pub open spec fn sub_faces(kind: FaceKind) -> Seq<(u8, u8)> {
    match kind {
        FaceKind::X => seq![(1u8, 0u8), (3u8, 2u8), (7u8, 6u8), (5u8, 4u8)],
        FaceKind::Y => seq![(2u8, 0u8), (3u8, 1u8), (7u8, 5u8), (6u8, 4u8)],
        FaceKind::Z => seq![(4u8, 0u8), (5u8, 1u8), (7u8, 3u8), (6u8, 2u8)],
    }
}

/// Sub-face `i` of `sub_faces` as a sequence of two corners.
pub open spec fn sub_face_corners(kind: FaceKind, i: int) -> Seq<u8> {
    seq![sub_faces(kind)[i].0, sub_faces(kind)[i].1]
}

pub(crate) fn sub_face_table(kind: FaceKind) -> (r: [(Corner, Corner); 4])
    ensures
        forall|i: int|
            0 <= i < 4 ==> (#[trigger] r[i]).0 == Corner::of(sub_faces(kind)[i].0) && r[i].1 == Corner::of(
                sub_faces(kind)[i].1,
            ),
{
    match kind {
        FaceKind::X => [
            (Corner::new(1), Corner::new(0)),
            (Corner::new(3), Corner::new(2)),
            (Corner::new(7), Corner::new(6)),
            (Corner::new(5), Corner::new(4)),
        ],
        FaceKind::Y => [
            (Corner::new(2), Corner::new(0)),
            (Corner::new(3), Corner::new(1)),
            (Corner::new(7), Corner::new(5)),
            (Corner::new(6), Corner::new(4)),
        ],
        FaceKind::Z => [
            (Corner::new(4), Corner::new(0)),
            (Corner::new(5), Corner::new(1)),
            (Corner::new(7), Corner::new(3)),
            (Corner::new(6), Corner::new(2)),
        ],
    }
}

/// Calls `f` once for each of the four faces that the face `face` of kind `kind` between
/// two cells splits into, with the child of each cell on either side of it, as `refine`
/// gives it.
pub fn for_each_sub_face<T, B, R, F>(face: [T; 2], kind: FaceKind, refine: R, mut f: F) where
    R: Fn(&T, Corner) -> B,
    F: FnMut([B; 2]),

    requires
        forall|i: int| 0 <= i < 4 ==> call_requires(refine, (&face[0], Corner::of(#[trigger] sub_faces(kind)[i].0))),
        forall|i: int| 0 <= i < 4 ==> call_requires(refine, (&face[1], Corner::of(#[trigger] sub_faces(kind)[i].1))),
        forall|i: int, b: [B; 2]|
            0 <= i < 4 && #[trigger] refined_cells(refine, face@, sub_face_corners(kind, i), b@)
                ==> call_requires(f, (b,)),
    ensures
        forall|i: int| 0 <= i < 4 ==> #[trigger] handed2(f, refine, face@, sub_face_corners(kind, i)),
{
    let ghost f_in = f;
    let ghost refine_in = refine;
    let table = sub_face_table(kind);
    let mut i: usize = 0;
    while i < 4
        invariant
            f == f_in,
            refine == refine_in,
            forall|i: int| 0 <= i < 4 ==> call_requires(refine, (&face[0], Corner::of(#[trigger] sub_faces(kind)[i].0))),
            forall|i: int| 0 <= i < 4 ==> call_requires(refine, (&face[1], Corner::of(#[trigger] sub_faces(kind)[i].1))),
            forall|i: int, b: [B; 2]|
                0 <= i < 4 && #[trigger] refined_cells(refine, face@, sub_face_corners(kind, i), b@)
                    ==> call_requires(f, (b,)),
            forall|i: int|
                0 <= i < 4 ==> (#[trigger] table[i]).0 == Corner::of(sub_faces(kind)[i].0) && table[i].1 == Corner::of(
                    sub_faces(kind)[i].1,
                ),
            i <= 4,
            forall|i2: int|
                #![trigger sub_face_corners(kind, i2)]
                0 <= i2 < i ==> exists|b: [B; 2]|
                    #[trigger] call_ensures(f, (b,), ()) && refined_cells(refine, face@, sub_face_corners(kind, i2), b@),
        decreases 4 - i,
    {
        let (c0, c1) = table[i];
        assert(call_requires(refine, (&face[0], Corner::of(sub_faces(kind)[i as int].0))));
        let b0 = refine(&face[0], c0);
        let b1 = refine(&face[1], c1);
        let b = [b0, b1];
        assert(refined_cells(refine, face@, sub_face_corners(kind, i as int), b@));
        f(b);
        assert(call_ensures(f, (b,), ()));
        i = i + 1;
    }
    assert forall|i2: int| 0 <= i2 < 4 implies #[trigger] handed2(f_in, refine_in, face@, sub_face_corners(kind, i2)) by {
        assert(sub_face_corners(kind, i2) == sub_face_corners(kind, i2));
    }
}

/// The edges that lie in the face between two cells, for a face of kind `face` and edges
/// of kind `edge`: two rows, one per end of the edge, of four children around the edge,
/// each as the cell (0 or 1) it is a child of and its corner in that cell. Empty where the
/// edge kind is the face's own axis.
pub open spec fn face_edges(face: FaceKind, edge: EdgeKind) -> Seq<Seq<(u8, u8)>> {
    match (face, edge) {
        (FaceKind::X, EdgeKind::Y) => seq![
            seq![(0u8, 1u8), (1u8, 0u8), (1u8, 4u8), (0u8, 5u8)],
            seq![(0u8, 3u8), (1u8, 2u8), (1u8, 6u8), (0u8, 7u8)],
        ],
        (FaceKind::X, EdgeKind::Z) => seq![
            seq![(0u8, 1u8), (1u8, 0u8), (1u8, 2u8), (0u8, 3u8)],
            seq![(0u8, 5u8), (1u8, 4u8), (1u8, 6u8), (0u8, 7u8)],
        ],
        (FaceKind::Y, EdgeKind::X) => seq![
            seq![(0u8, 2u8), (1u8, 0u8), (1u8, 4u8), (0u8, 6u8)],
            seq![(0u8, 3u8), (1u8, 1u8), (1u8, 5u8), (0u8, 7u8)],
        ],
        (FaceKind::Y, EdgeKind::Z) => seq![
            seq![(0u8, 2u8), (0u8, 3u8), (1u8, 1u8), (1u8, 0u8)],
            seq![(0u8, 6u8), (0u8, 7u8), (1u8, 5u8), (1u8, 4u8)],
        ],
        (FaceKind::Z, EdgeKind::X) => seq![
            seq![(0u8, 4u8), (0u8, 6u8), (1u8, 2u8), (1u8, 0u8)],
            seq![(0u8, 5u8), (0u8, 7u8), (1u8, 3u8), (1u8, 1u8)],
        ],
        (FaceKind::Z, EdgeKind::Y) => seq![
            seq![(0u8, 4u8), (0u8, 5u8), (1u8, 1u8), (1u8, 0u8)],
            seq![(0u8, 6u8), (0u8, 7u8), (1u8, 3u8), (1u8, 2u8)],
        ],
        _ => Seq::empty(),
    }
}

/// A row of `face_edges`: the cell of each of the four children, then its corner.
fn face_edge_row(a: (u8, u8), b: (u8, u8), c: (u8, u8), d: (u8, u8)) -> (r: [(usize, Corner); 4])
    requires
        a.0 < 2 && a.1 < 8,
        b.0 < 2 && b.1 < 8,
        c.0 < 2 && c.1 < 8,
        d.0 < 2 && d.1 < 8,
    ensures
        r[0].0 == a.0 && r[0].1 == Corner::of(a.1),
        r[1].0 == b.0 && r[1].1 == Corner::of(b.1),
        r[2].0 == c.0 && r[2].1 == Corner::of(c.1),
        r[3].0 == d.0 && r[3].1 == Corner::of(d.1),
{
    [
        (a.0 as usize, Corner::new(a.1)),
        (b.0 as usize, Corner::new(b.1)),
        (c.0 as usize, Corner::new(c.1)),
        (d.0 as usize, Corner::new(d.1)),
    ]
}

pub(crate) fn face_edge_table(face: FaceKind, edge: EdgeKind) -> (r: Option<[[(usize, Corner); 4]; 2]>)
    ensures
        r is Some <==> face_edges(face, edge).len() == 2,
        r is None ==> face_edges(face, edge).len() == 0,
        r matches Some(t) ==> forall|j: int, s: int|
            0 <= j < 2 && 0 <= s < 4 ==> (#[trigger] t[j][s]).0 == face_edges(face, edge)[j][s].0 && t[j][s].1
                == Corner::of(face_edges(face, edge)[j][s].1),
{
    match (face, edge) {
        (FaceKind::X, EdgeKind::Y) => Some([
            face_edge_row((0, 1), (1, 0), (1, 4), (0, 5)),
            face_edge_row((0, 3), (1, 2), (1, 6), (0, 7)),
        ]),
        (FaceKind::X, EdgeKind::Z) => Some([
            face_edge_row((0, 1), (1, 0), (1, 2), (0, 3)),
            face_edge_row((0, 5), (1, 4), (1, 6), (0, 7)),
        ]),
        (FaceKind::Y, EdgeKind::X) => Some([
            face_edge_row((0, 2), (1, 0), (1, 4), (0, 6)),
            face_edge_row((0, 3), (1, 1), (1, 5), (0, 7)),
        ]),
        (FaceKind::Y, EdgeKind::Z) => Some([
            face_edge_row((0, 2), (0, 3), (1, 1), (1, 0)),
            face_edge_row((0, 6), (0, 7), (1, 5), (1, 4)),
        ]),
        (FaceKind::Z, EdgeKind::X) => Some([
            face_edge_row((0, 4), (0, 6), (1, 2), (1, 0)),
            face_edge_row((0, 5), (0, 7), (1, 3), (1, 1)),
        ]),
        (FaceKind::Z, EdgeKind::Y) => Some([
            face_edge_row((0, 4), (0, 5), (1, 1), (1, 0)),
            face_edge_row((0, 6), (0, 7), (1, 3), (1, 2)),
        ]),
        _ => None,
    }
}

/// The cells of a `face_edges` row: each child's cell out of `face`.
pub open spec fn face_edge_cells<T>(face: [T; 2], row: Seq<(u8, u8)>) -> Seq<T> {
    row.map_values(|e: (u8, u8)| face[e.0 as int])
}

/// The corners of a `face_edges` row.
pub open spec fn face_edge_corners(row: Seq<(u8, u8)>) -> Seq<u8> {
    row.map_values(|e: (u8, u8)| e.1)
}

/// Calls `f` once for each edge of kind `kind.1` that lies in the face `face` of kind
/// `kind.0` between two cells once they are refined, with the four children around it,
/// as `refine` gives them. Does nothing where the edge kind is the face's own axis.
pub fn for_each_face_edge<T, B, R, F>(face: [T; 2], kind: (FaceKind, EdgeKind), refine: R, mut f: F) where
    R: Fn(&T, Corner) -> B,
    F: FnMut([B; 4]),

    requires
        forall|j: int, s: int|
            0 <= j < face_edges(kind.0, kind.1).len() && 0 <= s < 4 ==> call_requires(
                refine,
                (&face[#[trigger] face_edges(kind.0, kind.1)[j][s].0 as int], Corner::of(face_edges(kind.0, kind.1)[j][s].1)),
            ),
        forall|j: int, b: [B; 4]|
            0 <= j < face_edges(kind.0, kind.1).len() && #[trigger] refined_cells(
                refine,
                face_edge_cells(face, face_edges(kind.0, kind.1)[j]),
                face_edge_corners(face_edges(kind.0, kind.1)[j]),
                b@,
            ) ==> call_requires(f, (b,)),
    ensures
        forall|j: int|
            #![trigger face_edges(kind.0, kind.1)[j]]
            0 <= j < face_edges(kind.0, kind.1).len() ==> exists|b: [B; 4]|
                #[trigger] call_ensures(f, (b,), ()) && refined_cells(
                    refine,
                    face_edge_cells(face, face_edges(kind.0, kind.1)[j]),
                    face_edge_corners(face_edges(kind.0, kind.1)[j]),
                    b@,
                ),
{
    let ghost f_in = f;
    let ghost refine_in = refine;
    let table = match face_edge_table(kind.0, kind.1) {
        Some(table) => table,
        None => return ,
    };
    let ghost rows = face_edges(kind.0, kind.1);
    let mut j: usize = 0;
    while j < 2
        invariant
            f == f_in,
            refine == refine_in,
            rows == face_edges(kind.0, kind.1),
            rows.len() == 2,
            forall|j: int, s: int|
                0 <= j < rows.len() && 0 <= s < 4 ==> call_requires(
                    refine,
                    (&face[#[trigger] rows[j][s].0 as int], Corner::of(rows[j][s].1)),
                ),
            forall|j: int, b: [B; 4]|
                0 <= j < rows.len() && #[trigger] refined_cells(
                    refine,
                    face_edge_cells(face, rows[j]),
                    face_edge_corners(rows[j]),
                    b@,
                ) ==> call_requires(f, (b,)),
            forall|j: int, s: int|
                0 <= j < 2 && 0 <= s < 4 ==> (#[trigger] table[j][s]).0 == rows[j][s].0 && table[j][s].1
                    == Corner::of(rows[j][s].1),
            j <= 2,
            forall|j2: int|
                #![trigger rows[j2]]
                0 <= j2 < j ==> exists|b: [B; 4]|
                    #[trigger] call_ensures(f, (b,), ()) && refined_cells(
                        refine,
                        face_edge_cells(face, rows[j2]),
                        face_edge_corners(rows[j2]),
                        b@,
                    ),
        decreases 2 - j,
    {
        let row = table[j];
        proof {
            assert forall|s: int| 0 <= s < 4 implies call_requires(refine, (&face[row[s].0 as int], row[s].1)) by {
                assert(table[j as int][s].0 == rows[j as int][s].0);
                assert(call_requires(refine, (&face[rows[j as int][s].0 as int], Corner::of(rows[j as int][s].1))));
            }
            assert forall|s: int| 0 <= s < 4 implies (#[trigger] row[s]).0 < 2 by {
                assert(table[j as int][s].0 == rows[j as int][s].0);
            }
        }
        let b0 = refine(&face[row[0].0], row[0].1);
        let b1 = refine(&face[row[1].0], row[1].1);
        let b2 = refine(&face[row[2].0], row[2].1);
        let b3 = refine(&face[row[3].0], row[3].1);
        let b = [b0, b1, b2, b3];
        proof {
            let cells = face_edge_cells(face, rows[j as int]);
            let corners = face_edge_corners(rows[j as int]);
            assert forall|s: int| 0 <= s < 4 implies call_ensures(
                refine,
                (&cells[s], Corner::of(#[trigger] corners[s])),
                b@[s],
            ) by {
                assert(table[j as int][s].0 == rows[j as int][s].0);
            }
            assert(refined_cells(refine, cells, corners, b@));
        }
        f(b);
        assert(call_ensures(f, (b,), ()));
        j = j + 1;
    }
}

/// For an edge of kind `kind` shared by four cells (in order around it), the child of
/// each cell that touches each of the two edges it splits into: one row per end.
pub open spec fn sub_edges(kind: EdgeKind) -> Seq<Seq<u8>> {
    match kind {
        EdgeKind::X => seq![seq![6u8, 4u8, 0u8, 2u8], seq![7u8, 5u8, 1u8, 3u8]],
        EdgeKind::Y => seq![seq![5u8, 4u8, 0u8, 1u8], seq![7u8, 6u8, 2u8, 3u8]],
        EdgeKind::Z => seq![seq![3u8, 2u8, 0u8, 1u8], seq![7u8, 6u8, 4u8, 5u8]],
    }
}

pub(crate) fn sub_edge_table(kind: EdgeKind) -> (r: [[Corner; 4]; 2])
    ensures
        forall|j: int, s: int| 0 <= j < 2 && 0 <= s < 4 ==> (#[trigger] r[j][s]).bits() == sub_edges(kind)[j][s],
{
    match kind {
        EdgeKind::X => [corners4(6, 4, 0, 2), corners4(7, 5, 1, 3)],
        EdgeKind::Y => [corners4(5, 4, 0, 1), corners4(7, 6, 2, 3)],
        EdgeKind::Z => [corners4(3, 2, 0, 1), corners4(7, 6, 4, 5)],
    }
}

/// Calls `f` once for each of the two edges that the edge `edge` of kind `kind` between
/// four cells splits into, with the child of each cell that touches it, as `refine` gives
/// it.
pub fn for_each_sub_edge<T, B, R, F>(edge: [T; 4], kind: EdgeKind, refine: R, mut f: F) where
    R: Fn(&T, Corner) -> B,
    F: FnMut([B; 4]),

    requires
        forall|j: int, s: int|
            0 <= j < 2 && 0 <= s < 4 ==> call_requires(refine, (&edge[s], Corner::of(#[trigger] sub_edges(kind)[j][s]))),
        forall|j: int, b: [B; 4]|
            0 <= j < 2 && #[trigger] refined_cells(refine, edge@, sub_edges(kind)[j], b@) ==> call_requires(f, (b,)),
    ensures
        forall|j: int| 0 <= j < 2 ==> #[trigger] handed4(f, refine, edge@, sub_edges(kind)[j]),
{
    let ghost f_in = f;
    let ghost refine_in = refine;
    let table = sub_edge_table(kind);
    let mut j: usize = 0;
    while j < 2
        invariant
            f == f_in,
            refine == refine_in,
            forall|j: int, s: int|
                0 <= j < 2 && 0 <= s < 4 ==> call_requires(refine, (&edge[s], Corner::of(#[trigger] sub_edges(kind)[j][s]))),
            forall|j: int, b: [B; 4]|
                0 <= j < 2 && #[trigger] refined_cells(refine, edge@, sub_edges(kind)[j], b@) ==> call_requires(f, (b,)),
            forall|j: int, s: int| 0 <= j < 2 && 0 <= s < 4 ==> (#[trigger] table[j][s]).bits() == sub_edges(kind)[j][s],
            j <= 2,
            forall|j2: int|
                #![trigger sub_edges(kind)[j2]]
                0 <= j2 < j ==> exists|b: [B; 4]|
                    #[trigger] call_ensures(f, (b,), ()) && refined_cells(refine, edge@, sub_edges(kind)[j2], b@),
        decreases 2 - j,
    {
        let row = table[j];
        proof {
            assert forall|s: int| 0 <= s < 4 implies row[s] == Corner::of(#[trigger] sub_edges(kind)[j as int][s]) by {
                assert(table[j as int][s].bits() == sub_edges(kind)[j as int][s]);
            }
        }
        let b0 = refine(&edge[0], row[0]);
        let b1 = refine(&edge[1], row[1]);
        let b2 = refine(&edge[2], row[2]);
        let b3 = refine(&edge[3], row[3]);
        let b = [b0, b1, b2, b3];
        assert(refined_cells(refine, edge@, sub_edges(kind)[j as int], b@));
        f(b);
        assert(call_ensures(f, (b,), ()));
        j = j + 1;
    }
    assert forall|j2: int| 0 <= j2 < 2 implies #[trigger] handed4(f_in, refine_in, edge@, sub_edges(kind)[j2]) by {
        assert(sub_edges(kind)[j2] == sub_edges(kind)[j2]);
    }
}

/// For an edge of kind `kind` shared by four cells, the two children of each cell that
/// touch the edge, low end first.
pub open spec fn edge_corner_pairs(kind: EdgeKind) -> Seq<(u8, u8)> {
    match kind {
        EdgeKind::X => seq![(6u8, 7u8), (4u8, 5u8), (0u8, 1u8), (2u8, 3u8)],
        EdgeKind::Y => seq![(5u8, 7u8), (4u8, 6u8), (0u8, 2u8), (1u8, 3u8)],
        EdgeKind::Z => seq![(3u8, 7u8), (2u8, 6u8), (0u8, 4u8), (1u8, 5u8)],
    }
}

pub(crate) fn edge_corner_table(kind: EdgeKind) -> (r: [(Corner, Corner); 4])
    ensures
        forall|s: int|
            0 <= s < 4 ==> (#[trigger] r[s]).0 == Corner::of(edge_corner_pairs(kind)[s].0) && r[s].1 == Corner::of(
                edge_corner_pairs(kind)[s].1,
            ),
{
    match kind {
        EdgeKind::X => [
            (Corner::new(6), Corner::new(7)),
            (Corner::new(4), Corner::new(5)),
            (Corner::new(0), Corner::new(1)),
            (Corner::new(2), Corner::new(3)),
        ],
        EdgeKind::Y => [
            (Corner::new(5), Corner::new(7)),
            (Corner::new(4), Corner::new(6)),
            (Corner::new(0), Corner::new(2)),
            (Corner::new(1), Corner::new(3)),
        ],
        EdgeKind::Z => [
            (Corner::new(3), Corner::new(7)),
            (Corner::new(2), Corner::new(6)),
            (Corner::new(0), Corner::new(4)),
            (Corner::new(1), Corner::new(5)),
        ],
    }
}

/// Each of the four cells around the edge `edge` of kind `kind`, with what `refine` gives
/// for the two of its children that touch the edge.
pub fn edge_corners<T: Copy, B, R>(edge: [T; 4], kind: EdgeKind, refine: R) -> (r: Vec<(T, [B; 2])>) where
    R: Fn(&T, Corner) -> B,

    requires
        forall|s: int|
            0 <= s < 4 ==> call_requires(refine, (&edge[s], Corner::of(#[trigger] edge_corner_pairs(kind)[s].0)))
                && call_requires(refine, (&edge[s], Corner::of(edge_corner_pairs(kind)[s].1))),
    ensures
        r@.len() == 4,
        forall|s: int|
            0 <= s < 4 ==> (#[trigger] r@[s]).0 == edge[s] && call_ensures(
                refine,
                (&edge[s], Corner::of(edge_corner_pairs(kind)[s].0)),
                r@[s].1[0],
            ) && call_ensures(refine, (&edge[s], Corner::of(edge_corner_pairs(kind)[s].1)), r@[s].1[1]),
{
    let table = edge_corner_table(kind);
    let mut out: Vec<(T, [B; 2])> = Vec::new();
    let mut s: usize = 0;
    while s < 4
        invariant
            forall|s: int|
                0 <= s < 4 ==> call_requires(refine, (&edge[s], Corner::of(#[trigger] edge_corner_pairs(kind)[s].0)))
                    && call_requires(refine, (&edge[s], Corner::of(edge_corner_pairs(kind)[s].1))),
            forall|s: int|
                0 <= s < 4 ==> (#[trigger] table[s]).0 == Corner::of(edge_corner_pairs(kind)[s].0) && table[s].1
                    == Corner::of(edge_corner_pairs(kind)[s].1),
            s <= 4,
            out@.len() == s,
            forall|t: int|
                0 <= t < s ==> (#[trigger] out@[t]).0 == edge[t] && call_ensures(
                    refine,
                    (&edge[t], Corner::of(edge_corner_pairs(kind)[t].0)),
                    out@[t].1[0],
                ) && call_ensures(refine, (&edge[t], Corner::of(edge_corner_pairs(kind)[t].1)), out@[t].1[1]),
        decreases 4 - s,
    {
        let cell = edge[s];
        let (c0, c1) = table[s];
        assert(call_requires(refine, (&edge[s as int], Corner::of(edge_corner_pairs(kind)[s as int].0))));
        let b0 = refine(&cell, c0);
        let b1 = refine(&cell, c1);
        out.push((cell, [b0, b1]));
        s = s + 1;
    }
    out
}

/// The side of a cell a face lies on, along the face's axis.
#[derive(Copy, Clone, PartialEq, Eq, Structural, Debug)]
pub enum Side {
    Negative,
    Positive,
}

impl Side {
    pub open spec fn is_positive(self) -> bool {
        self == Side::Positive
    }

    pub fn opposite(self) -> (r: Side)
        ensures
            r.is_positive() == !self.is_positive(),
    {
        match self {
            Side::Negative => Side::Positive,
            Side::Positive => Side::Negative,
        }
    }
}

/// Which of the four cells around an edge lies on side `a` of the edge's first other
/// axis and on side `b` of its second: the order that `cell_edges` goes round an edge.
pub open spec fn ring_sides(slot: int) -> (bool, bool) {
    (slot == 1 || slot == 2, slot >= 2)
}

/// The slot around an edge of the cell on sides `a` and `b` of the edge's two other axes.
pub fn edge_seam_slot(a: Side, b: Side) -> (r: usize)
    ensures
        r < 4,
        ring_sides(r as int) == (a.is_positive(), b.is_positive()),
{
    match (a, b) {
        (Side::Negative, Side::Negative) => 0,
        (Side::Positive, Side::Negative) => 1,
        (Side::Positive, Side::Positive) => 2,
        (Side::Negative, Side::Positive) => 3,
    }
}

/// A displacement between neighboring cells or chunks, in cells along x, y and z.
#[derive(Copy, Clone, PartialEq, Eq, Structural, Debug)]
pub struct Delta3 {
    pub x: i32,
    pub y: i32,
    pub z: i32,
}

impl Delta3 {
    pub fn new(x: i32, y: i32, z: i32) -> (r: Delta3)
        ensures
            r == (Delta3 { x, y, z }),
    {
        Delta3 { x, y, z }
    }

    pub fn zero() -> (r: Delta3)
        ensures
            r == (Delta3 { x: 0, y: 0, z: 0 }),
    {
        Delta3 { x: 0, y: 0, z: 0 }
    }
}

/// The unit step along `axis`, towards the positive side when `positive`.
pub open spec fn axis_step(axis: int, positive: bool) -> Delta3 {
    let d: i32 = if positive { 1i32 } else { -1i32 };
    if axis == 0 {
        Delta3 { x: d, y: 0, z: 0 }
    } else if axis == 1 {
        Delta3 { x: 0, y: d, z: 0 }
    } else {
        Delta3 { x: 0, y: 0, z: d }
    }
}

pub open spec fn spec_face_kind(axis: int) -> FaceKind {
    if axis == 0 {
        FaceKind::X
    } else if axis == 1 {
        FaceKind::Y
    } else {
        FaceKind::Z
    }
}

pub open spec fn spec_edge_kind(axis: int) -> EdgeKind {
    if axis == 0 {
        EdgeKind::X
    } else if axis == 1 {
        EdgeKind::Y
    } else {
        EdgeKind::Z
    }
}

/// One of the six faces of a cell: face `2 * axis` on the negative side of `axis`,
/// face `2 * axis + 1` on its positive side.
#[derive(Copy, Clone, PartialEq, Eq, Structural, Debug)]
pub struct FaceIndex {
    idx: u8,
}

impl FaceIndex {
    #[verifier::type_invariant]
    spec fn inv(self) -> bool {
        self.idx < 6
    }

    pub closed spec fn spec_idx(self) -> int {
        self.idx as int
    }

    pub fn new(kind: FaceKind, which: u8) -> (r: FaceIndex)
        requires
            which < 2,
        ensures
            r.spec_idx() == 2 * face_axis(kind) + which,
    {
        let axis: u8 = match kind {
            FaceKind::X => 0,
            FaceKind::Y => 1,
            FaceKind::Z => 2,
        };
        FaceIndex { idx: axis * 2 + which }
    }

    fn from_raw(idx: u8) -> (r: FaceIndex)
        requires
            idx < 6,
        ensures
            r.spec_idx() == idx,
    {
        FaceIndex { idx }
    }

    pub fn index(self) -> (r: usize)
        ensures
            r == self.spec_idx(),
            r < 6,
    {
        proof {
            use_type_invariant(&self);
        }
        self.idx as usize
    }

    pub fn kind(self) -> (r: FaceKind)
        ensures
            r == spec_face_kind(self.spec_idx() / 2),
    {
        match self.idx / 2 {
            0 => FaceKind::X,
            1 => FaceKind::Y,
            _ => FaceKind::Z,
        }
    }

    pub fn side(self) -> (r: Side)
        ensures
            r.is_positive() == (self.spec_idx() % 2 == 1),
    {
        if self.idx % 2 == 0 {
            Side::Negative
        } else {
            Side::Positive
        }
    }

    /// The step to the cell across this face.
    pub fn as_delta(self) -> (r: Delta3)
        ensures
            r == face_step(self.spec_idx()),
    {
        proof {
            use_type_invariant(&self);
        }
        let side: i32 = (self.idx % 2) as i32 * 2 - 1;
        match self.idx / 2 {
            0 => Delta3::new(side, 0, 0),
            1 => Delta3::new(0, side, 0),
            _ => Delta3::new(0, 0, side),
        }
    }
}

/// The step across face `idx` of a cell.
pub open spec fn face_step(idx: int) -> Delta3 {
    axis_step(idx / 2, idx % 2 == 1)
}

/// The two axes other than `axis`, in ascending order.
pub open spec fn ring_axes(axis: int) -> (int, int) {
    if axis == 0 {
        (1, 2)
    } else if axis == 1 {
        (0, 2)
    } else {
        (0, 1)
    }
}

/// The two faces that meet at edge `idx` of a cell: edge `4 * axis + slot` runs along
/// `axis`, at the sides that `ring_sides(slot)` gives of the two other axes.
pub open spec fn edge_faces(idx: int) -> (int, int) {
    let (a, b) = ring_axes(idx / 4);
    let (sa, sb) = ring_sides(idx % 4);
    (2 * a + if sa { 1int } else { 0 }, 2 * b + if sb { 1int } else { 0 })
}

/// The step to the cell across edge `idx` of a cell: the sum of the steps across its two
/// faces.
pub open spec fn edge_step(idx: int) -> Delta3 {
    let (fa, fb) = edge_faces(idx);
    let (a, b) = (face_step(fa), face_step(fb));
    Delta3 { x: (a.x + b.x) as i32, y: (a.y + b.y) as i32, z: (a.z + b.z) as i32 }
}

/// One of the twelve edges of a cell.
#[derive(Copy, Clone, PartialEq, Eq, Structural, Debug)]
pub struct EdgeIndex {
    idx: u8,
}

fn face_pair(a: u8, b: u8) -> (r: [FaceIndex; 2])
    requires
        a < 6,
        b < 6,
    ensures
        r[0].spec_idx() == a,
        r[1].spec_idx() == b,
{
    [FaceIndex::from_raw(a), FaceIndex::from_raw(b)]
}

impl EdgeIndex {
    #[verifier::type_invariant]
    spec fn inv(self) -> bool {
        self.idx < 12
    }

    pub closed spec fn spec_idx(self) -> int {
        self.idx as int
    }

    fn from_raw(idx: u8) -> (r: EdgeIndex)
        requires
            idx < 12,
        ensures
            r.spec_idx() == idx,
    {
        EdgeIndex { idx }
    }

    pub fn index(self) -> (r: usize)
        ensures
            r == self.spec_idx(),
            r < 12,
    {
        proof {
            use_type_invariant(&self);
        }
        self.idx as usize
    }

    pub fn kind(self) -> (r: EdgeKind)
        ensures
            r == spec_edge_kind(self.spec_idx() / 4),
    {
        match self.idx / 4 {
            0 => EdgeKind::X,
            1 => EdgeKind::Y,
            _ => EdgeKind::Z,
        }
    }

    /// The two faces of the cell that meet at this edge.
    pub fn faces(self) -> (r: [FaceIndex; 2])
        ensures
            (r[0].spec_idx(), r[1].spec_idx()) == edge_faces(self.spec_idx()),
    {
        proof {
            use_type_invariant(&self);
        }
        match self.idx {
            0 => face_pair(2, 4),
            1 => face_pair(3, 4),
            2 => face_pair(3, 5),
            3 => face_pair(2, 5),
            4 => face_pair(0, 4),
            5 => face_pair(1, 4),
            6 => face_pair(1, 5),
            7 => face_pair(0, 5),
            8 => face_pair(0, 2),
            9 => face_pair(1, 2),
            10 => face_pair(1, 3),
            _ => face_pair(0, 3),
        }
    }

    /// The step to the cell across this edge.
    pub fn as_delta(self) -> (r: Delta3)
        ensures
            r == edge_step(self.spec_idx()),
    {
        let faces = self.faces();
        let fa = faces[0];
        let fb = faces[1];
        let a = fa.as_delta();
        let b = fb.as_delta();
        proof {
            use_type_invariant(&self);
            use_type_invariant(&fa);
            use_type_invariant(&fb);
        }
        Delta3::new(a.x + b.x, a.y + b.y, a.z + b.z)
    }
}

/// What lies beyond each of the six faces and twelve edges of a cell (or chunk).
#[derive(Debug)]
pub struct Neighbors<T> {
    faces: Vec<T>,
    edges: Vec<T>,
}

/// The two cells that meet across a face, the negative one first: the neighbor `n` a step
/// `step` away, and the cell itself, `this`, at no step.
pub open spec fn face_seam<T>(step: Delta3, n: T, positive: bool, this: T) -> [(Delta3, T); 2] {
    if positive {
        [(Delta3 { x: 0, y: 0, z: 0 }, this), (step, n)]
    } else {
        [(step, n), (Delta3 { x: 0, y: 0, z: 0 }, this)]
    }
}

impl<T> Neighbors<T> {
    #[verifier::type_invariant]
    spec fn inv(self) -> bool {
        self.faces@.len() == 6 && self.edges@.len() == 12
    }

    /// What lies beyond face `i` (see `FaceIndex`).
    pub closed spec fn face(self, i: int) -> T {
        self.faces@[i]
    }

    /// What lies beyond edge `i` (see `EdgeIndex`).
    pub closed spec fn edge(self, i: int) -> T {
        self.edges@[i]
    }

    /// What `f` gives for the step to each neighbor: the edges are asked first, then the
    /// faces, each in index order.
    pub fn from_fn<F>(mut f: F) -> (r: Self) where F: FnMut(Delta3) -> T
        requires
            forall|d: Delta3| call_requires(f, (d,)),
        ensures
            forall|i: int| 0 <= i < 6 ==> call_ensures(f, (face_step(i),), #[trigger] r.face(i)),
            forall|i: int| 0 <= i < 12 ==> call_ensures(f, (edge_step(i),), #[trigger] r.edge(i)),
    {
        let ghost f0 = f;
        let mut edges: Vec<T> = Vec::new();
        let mut i: u8 = 0;
        while i < 12
            invariant
                f == f0,
                forall|d: Delta3| call_requires(f, (d,)),
                i <= 12,
                edges@.len() == i,
                forall|k: int| 0 <= k < i ==> call_ensures(f, (edge_step(k),), #[trigger] edges@[k]),
            decreases 12 - i,
        {
            let step = EdgeIndex::from_raw(i).as_delta();
            edges.push(f(step));
            i = i + 1;
        }
        let mut faces: Vec<T> = Vec::new();
        let mut i: u8 = 0;
        while i < 6
            invariant
                f == f0,
                forall|d: Delta3| call_requires(f, (d,)),
                forall|k: int| 0 <= k < 12 ==> call_ensures(f, (edge_step(k),), #[trigger] edges@[k]),
                edges@.len() == 12,
                i <= 6,
                faces@.len() == i,
                forall|k: int| 0 <= k < i ==> call_ensures(f, (face_step(k),), #[trigger] faces@[k]),
            decreases 6 - i,
        {
            let step = FaceIndex::from_raw(i).as_delta();
            faces.push(f(step));
            i = i + 1;
        }
        Neighbors { faces, edges }
    }

    /// The neighbors, by reference.
    pub fn as_ref(&self) -> (r: Neighbors<&T>)
        ensures
            forall|i: int| 0 <= i < 6 ==> *(#[trigger] r.face(i)) == self.face(i),
            forall|i: int| 0 <= i < 12 ==> *(#[trigger] r.edge(i)) == self.edge(i),
    {
        proof {
            use_type_invariant(self);
        }
        let mut faces: Vec<&T> = Vec::new();
        let mut i: usize = 0;
        while i < 6
            invariant
                self.faces@.len() == 6,
                i <= 6,
                faces@.len() == i,
                forall|k: int| 0 <= k < i ==> *(#[trigger] faces@[k]) == self.faces@[k],
            decreases 6 - i,
        {
            faces.push(&self.faces[i]);
            i = i + 1;
        }
        let mut edges: Vec<&T> = Vec::new();
        let mut i: usize = 0;
        while i < 12
            invariant
                self.edges@.len() == 12,
                i <= 12,
                edges@.len() == i,
                forall|k: int| 0 <= k < i ==> *(#[trigger] edges@[k]) == self.edges@[k],
            decreases 12 - i,
        {
            edges.push(&self.edges[i]);
            i = i + 1;
        }
        Neighbors { faces, edges }
    }

    /// What `f` gives for each neighbor: the faces first, then the edges, each in index
    /// order.
    pub fn map<U, F>(self, mut f: F) -> (r: Neighbors<U>) where F: FnMut(T) -> U
        requires
            forall|t: T| call_requires(f, (t,)),
        ensures
            forall|i: int| 0 <= i < 6 ==> call_ensures(f, (self.face(i),), #[trigger] r.face(i)),
            forall|i: int| 0 <= i < 12 ==> call_ensures(f, (self.edge(i),), #[trigger] r.edge(i)),
    {
        proof {
            use_type_invariant(&self);
        }
        let ghost old_faces = self.faces@;
        let ghost old_edges = self.edges@;
        let Neighbors { faces: mut rest, edges } = self;
        let ghost f0 = f;
        let mut faces: Vec<U> = Vec::new();
        let mut i: usize = 0;
        while i < 6
            invariant
                f == f0,
                forall|t: T| call_requires(f, (t,)),
                old_faces.len() == 6,
                i <= 6,
                rest@ == old_faces.subrange(i as int, 6),
                faces@.len() == i,
                forall|k: int| 0 <= k < i ==> call_ensures(f, (old_faces[k],), #[trigger] faces@[k]),
            decreases 6 - i,
        {
            let t = rest.remove(0);
            faces.push(f(t));
            i = i + 1;
            assert(rest@ =~= old_faces.subrange(i as int, 6));
        }
        let mut rest = edges;
        let mut edges: Vec<U> = Vec::new();
        let mut i: usize = 0;
        while i < 12
            invariant
                f == f0,
                forall|t: T| call_requires(f, (t,)),
                forall|k: int| 0 <= k < 6 ==> call_ensures(f, (old_faces[k],), #[trigger] faces@[k]),
                faces@.len() == 6,
                old_edges.len() == 12,
                i <= 12,
                rest@ == old_edges.subrange(i as int, 12),
                edges@.len() == i,
                forall|k: int| 0 <= k < i ==> call_ensures(f, (old_edges[k],), #[trigger] edges@[k]),
            decreases 12 - i,
        {
            let t = rest.remove(0);
            edges.push(f(t));
            i = i + 1;
            assert(rest@ =~= old_edges.subrange(i as int, 12));
        }
        Neighbors { faces, edges }
    }

    /// What lies beyond the face `index`.
    pub fn face_at(&self, index: FaceIndex) -> (r: &T)
        ensures
            *r == self.face(index.spec_idx()),
    {
        proof {
            use_type_invariant(self);
        }
        &self.faces[index.index()]
    }

    /// What lies beyond the edge `index`.
    pub fn edge_at(&self, index: EdgeIndex) -> (r: &T)
        ensures
            *r == self.edge(index.spec_idx()),
    {
        proof {
            use_type_invariant(self);
        }
        &self.edges[index.index()]
    }
}

/// Entry `slot` of the seam around edge `e` of a cell `this` with neighbors `nb`: the cell
/// at that slot around the edge, with the step to it.
pub open spec fn edge_seam_entry<T>(nb: Neighbors<T>, e: int, this: T, slot: int) -> (Delta3, T) {
    let (fa, fb) = edge_faces(e);
    let (sa, sb) = (fa % 2 == 1, fb % 2 == 1);
    let (pa, pb) = ring_sides(slot);
    if pa == sa && pb == sb {
        (edge_step(e), nb.edge(e))
    } else if pa == sa {
        (face_step(fa), nb.face(fa))
    } else if pb == sb {
        (face_step(fb), nb.face(fb))
    } else {
        (Delta3 { x: 0, y: 0, z: 0 }, this)
    }
}

/// The four cells around edge `e` of a cell `this` with neighbors `nb`, in `ring_sides`
/// order, with the step to each.
pub open spec fn edge_seam<T>(nb: Neighbors<T>, e: int, this: T) -> [(Delta3, T); 4] {
    [
        edge_seam_entry(nb, e, this, 0),
        edge_seam_entry(nb, e, this, 1),
        edge_seam_entry(nb, e, this, 2),
        edge_seam_entry(nb, e, this, 3),
    ]
}

impl<T: Copy> Neighbors<T> {
    /// Calls `f` for each face of `this`, in index order, with its kind and the two cells
    /// that meet across it, negative first, each with the step to it.
    pub fn for_each_face_seam<F>(&self, this: T, mut f: F) where F: FnMut(FaceKind, [(Delta3, T); 2])
        requires
            forall|i: int|
                0 <= i < 6 ==> call_requires(
                    f,
                    (spec_face_kind(i / 2), face_seam(face_step(i), #[trigger] self.face(i), i % 2 == 1, this)),
                ),
    {
        let ghost f0 = f;
        let mut i: u8 = 0;
        while i < 6
            invariant
                f == f0,
                forall|i: int|
                    0 <= i < 6 ==> call_requires(
                        f,
                        (spec_face_kind(i / 2), face_seam(face_step(i), #[trigger] self.face(i), i % 2 == 1, this)),
                    ),
            decreases 6 - i,
        {
            let index = FaceIndex::from_raw(i);
            let n = *self.face_at(index);
            let step = index.as_delta();
            let seam = match index.side() {
                Side::Negative => [(step, n), (Delta3::zero(), this)],
                Side::Positive => [(Delta3::zero(), this), (step, n)],
            };
            assert(seam == face_seam(face_step(i as int), self.face(i as int), i % 2 == 1, this));
            f(index.kind(), seam);
            i = i + 1;
        }
    }

    /// Calls `f` for each edge of `this`, in index order, with its kind and the four cells
    /// around it, in `ring_sides` order, each with the step to it.
    pub fn for_each_edge_seam<F>(&self, this: T, mut f: F) where F: FnMut(EdgeKind, [(Delta3, T); 4])
        requires
            forall|e: int| 0 <= e < 12 ==> call_requires(f, (spec_edge_kind(e / 4), #[trigger] edge_seam(*self, e, this))),
    {
        let ghost f0 = f;
        let mut e: u8 = 0;
        while e < 12
            invariant
                f == f0,
                forall|e: int| 0 <= e < 12 ==> call_requires(f, (spec_edge_kind(e / 4), #[trigger] edge_seam(*self, e, this))),
            decreases 12 - e,
        {
            let index = EdgeIndex::from_raw(e);
            let faces = index.faces();
            let (face_a, face_b) = (faces[0], faces[1]);
            let (side_a, side_b) = (face_a.side(), face_b.side());
            let mut seam = [(Delta3::zero(), this); 4];
            seam[edge_seam_slot(side_a, side_b)] = (index.as_delta(), *self.edge_at(index));
            seam[edge_seam_slot(side_a, side_b.opposite())] = (face_a.as_delta(), *self.face_at(face_a));
            seam[edge_seam_slot(side_a.opposite(), side_b)] = (face_b.as_delta(), *self.face_at(face_b));
            seam[edge_seam_slot(side_a.opposite(), side_b.opposite())] = (Delta3::zero(), this);
            proof {
                let want = edge_seam(*self, e as int, this);
                assert forall|slot: int| 0 <= slot < 4 implies seam[slot] == want[slot] by {
                    assert(ring_sides(slot) == (slot == 1 || slot == 2, slot >= 2));
                }
                assert(seam =~= want);
            }
            f(index.kind(), seam);
            e = e + 1;
        }
    }
}

impl<T: Copy> Neighbors<T> {
    /// For each face of `this`, in index order, its kind and the two cells that meet
    /// across it, negative first, each with the step to it.
    pub fn face_seams(&self, this: T) -> (r: Vec<(FaceKind, [(Delta3, T); 2])>)
        ensures
            r@.len() == 6,
            forall|i: int|
                0 <= i < 6 ==> #[trigger] r@[i] == (
                    spec_face_kind(i / 2),
                    face_seam(face_step(i), self.face(i), i % 2 == 1, this),
                ),
    {
        let mut out: Vec<(FaceKind, [(Delta3, T); 2])> = Vec::new();
        let mut i: u8 = 0;
        while i < 6
            invariant
                i <= 6,
                out@.len() == i,
                forall|k: int|
                    0 <= k < i ==> #[trigger] out@[k] == (
                        spec_face_kind(k / 2),
                        face_seam(face_step(k), self.face(k), k % 2 == 1, this),
                    ),
            decreases 6 - i,
        {
            let index = FaceIndex::from_raw(i);
            let n = *self.face_at(index);
            let step = index.as_delta();
            let seam = match index.side() {
                Side::Negative => [(step, n), (Delta3::zero(), this)],
                Side::Positive => [(Delta3::zero(), this), (step, n)],
            };
            assert(seam == face_seam(face_step(i as int), self.face(i as int), i % 2 == 1, this));
            out.push((index.kind(), seam));
            i = i + 1;
        }
        out
    }

    /// For each edge of `this`, in index order, its kind and the four cells around it, in
    /// `ring_sides` order, each with the step to it.
    pub fn edge_seams(&self, this: T) -> (r: Vec<(EdgeKind, [(Delta3, T); 4])>)
        ensures
            r@.len() == 12,
            forall|e: int| 0 <= e < 12 ==> #[trigger] r@[e] == (spec_edge_kind(e / 4), edge_seam(*self, e, this)),
    {
        let mut out: Vec<(EdgeKind, [(Delta3, T); 4])> = Vec::new();
        let mut e: u8 = 0;
        while e < 12
            invariant
                e <= 12,
                out@.len() == e,
                forall|k: int| 0 <= k < e ==> #[trigger] out@[k] == (spec_edge_kind(k / 4), edge_seam(*self, k, this)),
            decreases 12 - e,
        {
            let index = EdgeIndex::from_raw(e);
            let faces = index.faces();
            let (face_a, face_b) = (faces[0], faces[1]);
            let (side_a, side_b) = (face_a.side(), face_b.side());
            let mut seam = [(Delta3::zero(), this); 4];
            seam[edge_seam_slot(side_a, side_b)] = (index.as_delta(), *self.edge_at(index));
            seam[edge_seam_slot(side_a, side_b.opposite())] = (face_a.as_delta(), *self.face_at(face_a));
            seam[edge_seam_slot(side_a.opposite(), side_b)] = (face_b.as_delta(), *self.face_at(face_b));
            seam[edge_seam_slot(side_a.opposite(), side_b.opposite())] = (Delta3::zero(), this);
            proof {
                let want = edge_seam(*self, e as int, this);
                assert forall|slot: int| 0 <= slot < 4 implies seam[slot] == want[slot] by {
                    assert(ring_sides(slot) == (slot == 1 || slot == 2, slot >= 2));
                }
                assert(seam =~= want);
            }
            out.push((index.kind(), seam));
            e = e + 1;
        }
        out
    }
}

/// The bit of a corner's number that gives its offset along `axis`.
pub open spec fn axis_bit(axis: int) -> int {
    if axis == 0 {
        1
    } else if axis == 1 {
        2
    } else {
        4
    }
}

/// The child at slot `slot` of the ring of four children around `axis`, on the low
/// (`high == false`) or high end of `axis`.
pub open spec fn ring_corner(axis: int, high: bool, slot: int) -> int {
    let (a, b) = ring_axes(axis);
    let (sa, sb) = ring_sides(slot);
    (if high { axis_bit(axis) } else { 0 }) + (if sa { axis_bit(a) } else { 0 }) + (if sb { axis_bit(b) } else { 0 })
}

/// The interior faces of kind `kind` pair each child on the low side of the face's axis
/// with its neighbor on the high side, going round the axis in `ring_sides` order.
pub proof fn law_cell_faces_ring(kind: FaceKind, i: int)
    requires
        0 <= i < 4,
    ensures
        cell_faces(kind)[i].0 == ring_corner(face_axis(kind), false, i),
        cell_faces(kind)[i].1 == ring_corner(face_axis(kind), true, i),
{
}

/// The interior edges of kind `kind` are the rings of four children around the edge's
/// axis, one on each end of it.
pub proof fn law_cell_edges_ring(kind: EdgeKind, j: int, s: int)
    requires
        0 <= j < 2,
        0 <= s < 4,
    ensures
        cell_edges(kind)[j].len() == 4,
        cell_edges(kind)[j][s] == ring_corner(edge_axis(kind), j == 1, s),
{
}

/// A face between two cells splits into faces between the children that touch it: the
/// high child of the first cell and the low child of the second, for each interior face
/// of a cell.
pub proof fn law_sub_faces_swap(kind: FaceKind, i: int)
    requires
        0 <= i < 4,
    ensures
        sub_faces(kind)[i] == (cell_faces(kind)[i].1, cell_faces(kind)[i].0),
{
}

/// An edge between four cells splits into edges between the children of each that touch
/// it: the cell at slot `s` around the edge gives its child at the opposite slot of the
/// ring, on each end.
pub proof fn law_sub_edges_opposite(kind: EdgeKind, j: int, s: int)
    requires
        0 <= j < 2,
        0 <= s < 4,
    ensures
        sub_edges(kind)[j].len() == 4,
        sub_edges(kind)[j][s] == cell_edges(kind)[j][(s + 2) % 4],
{
}

/// The two children of the cell at slot `s` around an edge that touch the edge are those
/// of its sub-edges, low end first.
pub proof fn law_edge_corner_pairs(kind: EdgeKind, s: int)
    requires
        0 <= s < 4,
    ensures
        edge_corner_pairs(kind)[s] == (sub_edges(kind)[0][s], sub_edges(kind)[1][s]),
{
}

/// The edges in a face between two cells are the rings around the edge's axis of the
/// children that touch the face: on the low side of the face's axis the children of the
/// first cell on its high side, and the other way round.
pub proof fn law_face_edges_ring(face: FaceKind, edge: EdgeKind, j: int, s: int)
    requires
        face_axis(face) != edge_axis(edge),
        0 <= j < 2,
        0 <= s < 4,
    ensures
        face_edges(face, edge).len() == 2,
        face_edges(face, edge)[j].len() == 4,
        ({
            let (a, b) = ring_axes(edge_axis(edge));
            let (pa, pb) = ring_sides(s);
            let f = face_axis(face);
            let positive = if a == f { pa } else { pb };
            let corner = (if j == 1 { axis_bit(edge_axis(edge)) } else { 0 }) + (if pa != (a == f) {
                axis_bit(a)
            } else {
                0
            }) + (if pb != (b == f) {
                axis_bit(b)
            } else {
                0
            });
            face_edges(face, edge)[j][s] == ((if positive { 1u8 } else { 0u8 }), corner as u8)
        }),
{
}

/// A face has no edges of its own axis.
pub proof fn law_face_edges_normal(face: FaceKind, edge: EdgeKind)
    requires
        face_axis(face) == edge_axis(edge),
    ensures
        face_edges(face, edge).len() == 0,
{
}

} // verus!
