use isoplot::extractor::{ChunkEdge, ChunkFace, SharedEdgeKind, SharedFaceKind};
use isoplot::lattice::{AxisKind, Coords, Offset};
use isoplot::utils::array_transpose;

#[test]
fn offsets_step_along_axes() {
    assert_eq!(Offset::new(AxisKind::X).as_u8(), 1);
    assert_eq!(Offset::new(AxisKind::Y).as_u8(), 2);
    assert_eq!(Offset::new(AxisKind::Z).as_u8(), 4);
    assert_eq!(AxisKind::all(), [AxisKind::X, AxisKind::Y, AxisKind::Z]);
}

#[test]
fn offsets_from_and_to_components() {
    let offset = Offset::from_components(true, false, true);
    assert_eq!(offset.as_u8(), 5);
    assert_eq!(offset.as_coords(), Coords { x: 1, y: 0, z: 1 });
    for bits in Offset::enumerate() {
        let c = bits.as_coords();
        let back = Offset::from_components(c.x == 1, c.y == 1, c.z == 1);
        assert_eq!(back, bits);
    }
    assert_eq!(Offset::enumerate().len(), 8);
}

#[test]
fn offsets_combine() {
    let xy = Offset::new(AxisKind::X) | Offset::new(AxisKind::Y);
    assert_eq!(xy.as_u8(), 3);
    assert_eq!(xy.union(Offset::new(AxisKind::X)), xy);
}

#[test]
fn transpose_needs_every_entry() {
    assert_eq!(array_transpose([Some(1), Some(2), Some(3)]), Some([1, 2, 3]));
    assert_eq!(array_transpose([Some(1), None, Some(3)]), None);
}

#[test]
fn shared_kinds_list_slot_offsets() {
    let faces: Vec<Vec<u8>> = SharedFaceKind::all()
        .iter()
        .map(|k| k.slot_offsets().iter().map(|o| o.as_u8()).collect())
        .collect();
    assert_eq!(faces, [vec![0, 1], vec![0, 2], vec![0, 4]]);

    let edges: Vec<Vec<u8>> = SharedEdgeKind::all()
        .iter()
        .map(|k| k.slot_offsets().iter().map(|o| o.as_u8()).collect())
        .collect();
    assert_eq!(edges, [vec![0, 2, 6, 4], vec![0, 1, 5, 4], vec![0, 1, 3, 2]]);
}

#[test]
fn chunk_seams_from_lookups() {
    let face = ChunkFace::from_fn(SharedFaceKind::all()[2], 100u32, |&min, offset: Offset| {
        Some(min + offset.as_u8() as u32)
    })
    .unwrap();
    assert_eq!(face.face, [100, 104]);

    let edge = ChunkEdge::from_fn(SharedEdgeKind::all()[0], 100u32, |&min, offset: Offset| {
        Some(min + offset.as_u8() as u32)
    })
    .unwrap();
    assert_eq!(edge.edge, [100, 102, 106, 104]);

    let missing = ChunkEdge::from_fn(SharedEdgeKind::all()[0], 100u32, |_: &u32, offset: Offset| {
        if offset.as_u8() == 6 {
            None
        } else {
            Some(0)
        }
    });
    assert!(missing.is_none());
}
