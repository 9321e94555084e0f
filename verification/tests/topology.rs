use isoplot::topology::{
    cell_face_corners, edge_corners, edge_seam_slot, for_each_cell_edge, for_each_cell_face,
    for_each_face_edge, for_each_sub_edge, for_each_sub_face, Corner, Delta3, EdgeKind, FaceIndex,
    FaceKind, Neighbors, Side,
};

fn corner_numbers(pairs: &[(Corner, Corner)]) -> Vec<(u8, u8)> {
    pairs.iter().map(|(a, b)| (a.as_u8(), b.as_u8())).collect()
}

#[test]
fn corners_keep_their_number() {
    for n in 0..8u8 {
        assert_eq!(Corner::new(n).as_u8(), n);
    }
}

#[test]
fn tangent_edges_lie_in_the_face() {
    assert_eq!(FaceKind::X.tangent_edges(), [EdgeKind::Y, EdgeKind::Z]);
    assert_eq!(FaceKind::Y.tangent_edges(), [EdgeKind::X, EdgeKind::Z]);
    assert_eq!(FaceKind::Z.tangent_edges(), [EdgeKind::X, EdgeKind::Y]);
}

#[test]
fn cell_faces_pair_neighbors_along_the_axis() {
    assert_eq!(
        corner_numbers(&cell_face_corners(FaceKind::X)),
        [(0, 1), (2, 3), (6, 7), (4, 5)]
    );
    assert_eq!(
        corner_numbers(&cell_face_corners(FaceKind::Y)),
        [(0, 2), (1, 3), (5, 7), (4, 6)]
    );
    for kind in [FaceKind::X, FaceKind::Y, FaceKind::Z] {
        let bit = match kind {
            FaceKind::X => 1,
            FaceKind::Y => 2,
            FaceKind::Z => 4,
        };
        for (a, b) in corner_numbers(&cell_face_corners(kind)) {
            assert_eq!(a & bit, 0);
            assert_eq!(b, a | bit);
        }
    }
}

#[test]
fn for_each_cell_face_refines_each_interior_face() {
    let mut faces = Vec::new();
    for_each_cell_face(
        100u32,
        FaceKind::Z,
        |cell: &u32, corner: Corner| cell + corner.as_u8() as u32,
        |face: [u32; 2]| faces.push(face),
    );
    assert_eq!(faces, [[100, 104], [101, 105], [103, 107], [102, 106]]);
}

#[test]
fn for_each_cell_edge_goes_round_each_interior_edge() {
    let mut edges = Vec::new();
    for_each_cell_edge(
        0u8,
        EdgeKind::X,
        |_: &u8, corner: Corner| corner.as_u8(),
        |edge: [u8; 4]| edges.push(edge),
    );
    assert_eq!(edges, [[0, 2, 6, 4], [1, 3, 7, 5]]);
}

#[test]
fn for_each_sub_face_pairs_the_children_that_touch() {
    let mut faces = Vec::new();
    for_each_sub_face(
        [10u32, 20u32],
        FaceKind::X,
        |cell: &u32, corner: Corner| cell + corner.as_u8() as u32,
        |face: [u32; 2]| faces.push(face),
    );
    assert_eq!(faces, [[11, 20], [13, 22], [17, 26], [15, 24]]);
}

#[test]
fn for_each_face_edge_lists_the_edges_in_a_face() {
    let mut edges = Vec::new();
    for_each_face_edge(
        [10u32, 20u32],
        (FaceKind::Y, EdgeKind::Z),
        |cell: &u32, corner: Corner| cell + corner.as_u8() as u32,
        |edge: [u32; 4]| edges.push(edge),
    );
    assert_eq!(edges, [[12, 13, 21, 20], [16, 17, 25, 24]]);

    let mut none = Vec::new();
    for_each_face_edge(
        [10u32, 20u32],
        (FaceKind::Y, EdgeKind::Y),
        |cell: &u32, corner: Corner| cell + corner.as_u8() as u32,
        |edge: [u32; 4]| none.push(edge),
    );
    assert!(none.is_empty());
}

#[test]
fn for_each_sub_edge_takes_the_children_at_the_edge() {
    let mut edges = Vec::new();
    for_each_sub_edge(
        [0u32, 10, 20, 30],
        EdgeKind::Z,
        |cell: &u32, corner: Corner| cell + corner.as_u8() as u32,
        |edge: [u32; 4]| edges.push(edge),
    );
    assert_eq!(edges, [[3, 12, 20, 31], [7, 16, 24, 35]]);
}

#[test]
fn edge_corners_gives_each_cell_with_its_corners_at_the_edge() {
    let corners = edge_corners([0u32, 10, 20, 30], EdgeKind::Y, |cell: &u32, corner: Corner| {
        cell + corner.as_u8() as u32
    });
    assert_eq!(
        corners,
        [(0, [5, 7]), (10, [14, 16]), (20, [20, 22]), (30, [31, 33])]
    );
}

#[test]
fn sides_and_seam_slots() {
    assert_eq!(Side::Negative.opposite(), Side::Positive);
    assert_eq!(Side::Positive.opposite(), Side::Negative);
    assert_eq!(Side::Negative.opposite().opposite(), Side::Negative);
    let slots = [
        edge_seam_slot(Side::Negative, Side::Negative),
        edge_seam_slot(Side::Positive, Side::Negative),
        edge_seam_slot(Side::Positive, Side::Positive),
        edge_seam_slot(Side::Negative, Side::Positive),
    ];
    assert_eq!(slots, [0, 1, 2, 3]);
}

#[test]
fn face_indices() {
    let index = FaceIndex::new(FaceKind::Y, 1);
    assert_eq!(index.index(), 3);
    assert_eq!(index.kind(), FaceKind::Y);
    assert_eq!(index.side(), Side::Positive);
    assert_eq!(index.as_delta(), Delta3::new(0, 1, 0));
    assert_eq!(FaceIndex::new(FaceKind::X, 0).as_delta(), Delta3::new(-1, 0, 0));
}

#[test]
fn neighbors_from_steps() {
    let mut calls = Vec::new();
    let neighbors = Neighbors::from_fn(|d: Delta3| {
        calls.push(d);
        (d.x, d.y, d.z)
    });
    assert_eq!(calls.len(), 18);
    assert_eq!(calls[0], Delta3::new(0, -1, -1));
    assert_eq!(calls[12], Delta3::new(-1, 0, 0));
    assert_eq!(*neighbors.face_at(FaceIndex::new(FaceKind::Z, 1)), (0, 0, 1));

    let shifted = neighbors.as_ref().map(|&(x, y, z)| x + 10 * y + 100 * z);
    assert_eq!(*shifted.face_at(FaceIndex::new(FaceKind::Y, 0)), -10);
}

#[test]
fn face_seams_put_the_negative_cell_first() {
    let neighbors = Neighbors::from_fn(|d: Delta3| d.x + 10 * d.y + 100 * d.z);
    let mut seams = Vec::new();
    neighbors.for_each_face_seam(7, |kind, seam| seams.push((kind, seam)));
    assert_eq!(seams.len(), 6);
    assert_eq!(
        seams[0],
        (FaceKind::X, [(Delta3::new(-1, 0, 0), -1), (Delta3::zero(), 7)])
    );
    assert_eq!(
        seams[5],
        (FaceKind::Z, [(Delta3::zero(), 7), (Delta3::new(0, 0, 1), 100)])
    );
}

#[test]
fn edge_seams_go_round_the_edge() {
    let neighbors = Neighbors::from_fn(|d: Delta3| d.x + 10 * d.y + 100 * d.z);
    let mut seams = Vec::new();
    neighbors.for_each_edge_seam(7, |kind, seam| seams.push((kind, seam)));
    assert_eq!(seams.len(), 12);
    // Edge 0 runs along x on the negative sides of y and z.
    assert_eq!(
        seams[0],
        (
            EdgeKind::X,
            [
                (Delta3::new(0, -1, -1), -110),
                (Delta3::new(0, 0, -1), -100),
                (Delta3::zero(), 7),
                (Delta3::new(0, -1, 0), -10),
            ]
        )
    );
    for (_, seam) in &seams {
        assert_eq!(seam.iter().filter(|(_, v)| *v == 7).count(), 1);
    }
}
