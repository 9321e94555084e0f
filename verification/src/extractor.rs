//! The shapes of the seams between chunks: which chunks share a face or an edge, and
//! where each one sits around it.
use crate::lattice::{has_axis, Offset};
use crate::topology::{axis_bit, edge_axis, face_axis, ring_corner, EdgeKind, FaceKind};
use vstd::prelude::*;

verus! {

broadcast use vstd::function::group_function_axioms;

/// Extracts meshes, chunk by chunk, from a scalar field, refining cells down to
/// `max_level`.
pub struct Extractor<S> {
    pub scalar_field: S,
    pub max_level: u8,
}

impl<S> Extractor<S> {
    pub fn new(scalar_field: S, max_level: u8) -> (r: Extractor<S>)
        ensures
            r.scalar_field == scalar_field,
            r.max_level == max_level,
    {
        Extractor { scalar_field, max_level }
    }
}

/// Dual contouring of a scalar field, refining cells down to `max_level`.
pub struct DualContouring<S> {
    pub scalar_field: S,
    pub max_level: u8,
}

impl<S> DualContouring<S> {
    pub fn new(scalar_field: S, max_level: u8) -> (r: DualContouring<S>)
        ensures
            r.scalar_field == scalar_field,
            r.max_level == max_level,
    {
        DualContouring { scalar_field, max_level }
    }
}

/// The kind of a face shared by two chunks.
#[derive(Copy, Clone, PartialEq, Eq, Structural, Hash, Debug)]
pub struct SharedFaceKind(pub FaceKind);

/// The offset from the chunk at slot 0 of a face of kind `kind` to the chunk at slot
/// `slot`: none, then one step across the face.
pub open spec fn face_slot_offset(kind: FaceKind, slot: int) -> u8 {
    if slot == 0 {
        0
    } else {
        axis_bit(face_axis(kind)) as u8
    }
}

impl SharedFaceKind {
    /// The three kinds, in axis order.
    pub fn all() -> (r: [SharedFaceKind; 3])
        ensures
            r[0].0 == FaceKind::X,
            r[1].0 == FaceKind::Y,
            r[2].0 == FaceKind::Z,
    {
        [SharedFaceKind(FaceKind::X), SharedFaceKind(FaceKind::Y), SharedFaceKind(FaceKind::Z)]
    }

    /// The offset of the chunk at each slot of the face from the chunk at slot 0.
    pub fn slot_offsets(self) -> (r: [Offset; 2])
        ensures
            forall|s: int| 0 <= s < 2 ==> (#[trigger] r[s]).bits() == face_slot_offset(self.0, s),
    {
        let step = match self.0 {
            FaceKind::X => Offset::from_components(true, false, false),
            FaceKind::Y => Offset::from_components(false, true, false),
            FaceKind::Z => Offset::from_components(false, false, true),
        };
        [Offset::from_components(false, false, false), step]
    }
}

/// The kind of an edge shared by four chunks.
#[derive(Copy, Clone, PartialEq, Eq, Structural, Hash, Debug)]
pub struct SharedEdgeKind(pub EdgeKind);

/// The offset from the chunk at slot 0 around an edge of kind `kind` to the chunk at
/// slot `slot`: the chunks go round the edge as the corners of a cell go round its
/// interior edges.
pub open spec fn edge_slot_offset(kind: EdgeKind, slot: int) -> u8 {
    ring_corner(edge_axis(kind), false, slot) as u8
}

impl SharedEdgeKind {
    /// The three kinds, in axis order.
    pub fn all() -> (r: [SharedEdgeKind; 3])
        ensures
            r[0].0 == EdgeKind::X,
            r[1].0 == EdgeKind::Y,
            r[2].0 == EdgeKind::Z,
    {
        [SharedEdgeKind(EdgeKind::X), SharedEdgeKind(EdgeKind::Y), SharedEdgeKind(EdgeKind::Z)]
    }

    /// The offset of the chunk at each slot around the edge from the chunk at slot 0.
    pub fn slot_offsets(self) -> (r: [Offset; 4])
        ensures
            forall|s: int| 0 <= s < 4 ==> (#[trigger] r[s]).bits() == edge_slot_offset(self.0, s),
    {
        match self.0 {
            EdgeKind::X => [
                Offset::from_components(false, false, false),
                Offset::from_components(false, true, false),
                Offset::from_components(false, true, true),
                Offset::from_components(false, false, true),
            ],
            EdgeKind::Y => [
                Offset::from_components(false, false, false),
                Offset::from_components(true, false, false),
                Offset::from_components(true, false, true),
                Offset::from_components(false, false, true),
            ],
            EdgeKind::Z => [
                Offset::from_components(false, false, false),
                Offset::from_components(true, false, false),
                Offset::from_components(true, true, false),
                Offset::from_components(false, true, false),
            ],
        }
    }
}

/// The second chunk of a shared face is one step from the first along the face's axis
/// and along no other; no chunk around a shared edge is offset along the edge's own axis.
pub proof fn law_slot_offsets_axes(face: FaceKind, edge: EdgeKind, s: int)
    requires
        0 <= s < 4,
    ensures
        s < 2 ==> (has_axis(face_slot_offset(face, s), face_axis(face)) == (s == 1)),
        s < 2 ==> forall|a: int| 0 <= a < 3 && a != face_axis(face) ==> !has_axis(face_slot_offset(face, s), a),
        !has_axis(edge_slot_offset(edge, s), edge_axis(edge)),
{
}

/// The chunks that share a face of kind `kind`, one per slot.
pub struct ChunkFace<T> {
    pub kind: FaceKind,
    pub face: [T; 2],
}

/// The chunks that share an edge of kind `kind`, one per slot.
pub struct ChunkEdge<T> {
    pub kind: EdgeKind,
    pub edge: [T; 4],
}

impl<T> ChunkFace<T> {
    /// The face of kind `kind` whose first chunk is `min_chunk`, with the chunk at each
    /// other slot as `f` finds it from `min_chunk` and the slot's offset; none where `f`
    /// finds none.
    pub fn from_fn<F>(kind: SharedFaceKind, min_chunk: T, mut f: F) -> (r: Option<ChunkFace<T>>) where
        F: FnMut(&T, Offset) -> Option<T>,

        requires
            forall|t: &T, o: Offset| call_requires(f, (t, o)),
        ensures
            r matches Some(c) ==> c.kind == kind.0 && c.face[0] == min_chunk,
            r is None ==> call_ensures(f, (&min_chunk, Offset::from_bits(face_slot_offset(kind.0, 1))), None),
            r matches Some(c) ==> call_ensures(
                f,
                (&min_chunk, Offset::from_bits(face_slot_offset(kind.0, 1))),
                Some(c.face[1]),
            ),
    {
        let offsets = kind.slot_offsets();
        proof {
            Offset::lemma_from_bits(offsets[1]);
        }
        match f(&min_chunk, offsets[1]) {
            Some(next) => Some(ChunkFace { kind: kind.0, face: [min_chunk, next] }),
            None => None,
        }
    }
}

impl<T> ChunkEdge<T> {
    /// The edge of kind `kind` whose first chunk is `min_chunk`, with the chunk at each
    /// other slot as `f` finds it from `min_chunk` and the slot's offset, in slot order;
    /// none where `f` finds none.
    pub fn from_fn<F>(kind: SharedEdgeKind, min_chunk: T, mut f: F) -> (r: Option<ChunkEdge<T>>) where
        F: FnMut(&T, Offset) -> Option<T>,

        requires
            forall|t: &T, o: Offset| call_requires(f, (t, o)),
        ensures
            r matches Some(c) ==> c.kind == kind.0 && c.edge[0] == min_chunk && forall|s: int|
                1 <= s < 4 ==> call_ensures(
                    f,
                    (&min_chunk, Offset::from_bits(#[trigger] edge_slot_offset(kind.0, s))),
                    Some(c.edge[s]),
                ),
            r is None ==> exists|s: int|
                1 <= s < 4 && call_ensures(
                    f,
                    (&min_chunk, Offset::from_bits(#[trigger] edge_slot_offset(kind.0, s))),
                    None,
                ),
    {
        let offsets = kind.slot_offsets();
        proof {
            Offset::lemma_from_bits(offsets[1]);
            Offset::lemma_from_bits(offsets[2]);
            Offset::lemma_from_bits(offsets[3]);
        }
        let a = match f(&min_chunk, offsets[1]) {
            Some(a) => a,
            None => return None,
        };
        let b = match f(&min_chunk, offsets[2]) {
            Some(b) => b,
            None => return None,
        };
        let c = match f(&min_chunk, offsets[3]) {
            Some(c) => c,
            None => return None,
        };
        Some(ChunkEdge { kind: kind.0, edge: [min_chunk, a, b, c] })
    }
}

/// Extraction of a chunk or a seam failed.
#[derive(Debug)]
pub struct ExtractError;

} // verus!
