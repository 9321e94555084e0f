use isoplot::grid::{contains_sign_change, AdaptiveGrid, EdgeSeam, FaceSeam, Feature};
use isoplot::octree::{BuildOctree, ChildIndex};
use isoplot::quant::Quant;
use isoplot::topology::{Delta3, EdgeKind, FaceKind};

/// Cells of the unit cube down to `level`, with the field `x - 0.5`; each leaf's vertex is
/// its cell's coordinates.
struct Plane {
    level: u8,
}

impl BuildOctree<Feature<(u16, u16, u16)>> for Plane {
    type Tag = Quant;

    fn root(&mut self) -> Quant {
        Quant::root()
    }

    fn is_leaf(&mut self, tag: Quant) -> bool {
        tag.level() >= self.level
    }

    fn refine(&mut self, tag: Quant, which: ChildIndex) -> Option<Quant> {
        Some(tag.child(which).unwrap())
    }

    fn place_leaf(&mut self, tag: Quant) -> Feature<(u16, u16, u16)> {
        let ((x, y, z), level) = tag.parts_level();
        // The plane x = 0.5, in units of the cell's side (levels from one on).
        let half = 1u16 << (level - 1);
        let mut p_mask = 0u8;
        for corner in 0..8u8 {
            if x + (corner & 1) as u16 >= half {
                p_mask |= 1 << corner;
            }
        }
        Feature { vertex: (x, y, z), quant: tag, p_mask }
    }
}

fn quads(level: u8) -> Vec<[(u16, u16, u16); 4]> {
    let grid = AdaptiveGrid::build(&mut Plane { level });
    let mut out = Vec::new();
    grid.for_each_interior_quad(|q| out.push(q));
    out
}

#[test]
fn one_quad_crosses_the_plane_at_level_one() {
    // Of the six minimal edges inside the cube, only the lower half of the x axis
    // crosses x = 0.5, between the four cells with x = 0.
    assert_eq!(quads(1), [[(0, 0, 0), (0, 1, 0), (0, 1, 1), (0, 0, 1)]]);
}

#[test]
fn quads_cover_the_plane_at_level_two() {
    // At level two the plane is crossed by the x edges between x = 1 and x = 2, one for
    // each of the 3 x 3 interior grid lines.
    let found = quads(2);
    assert_eq!(found.len(), 9);
    for quad in &found {
        assert!(quad.iter().all(|&(x, _, _)| x == 1));
    }
}

#[test]
fn feature_edges_agree_with_interior_quads() {
    for level in 1..3 {
        let grid = AdaptiveGrid::build(&mut Plane { level });
        let mut a = Vec::new();
        grid.for_each_feature_edge(|q| a.push(q));
        assert_eq!(a, quads(level));
    }
}

#[test]
fn sign_change_is_read_from_the_deepest_cell() {
    let root = Quant::root();
    let deep = root.child(ChildIndex::new(0)).unwrap();
    let shallow = Feature { vertex: 0u8, quant: root, p_mask: 0b0000_0000 };
    // Corners 6 and 7 differ: the first pair of an x edge.
    let changing = Feature { vertex: 1u8, quant: deep, p_mask: 0b1000_0000 };
    assert!(contains_sign_change(EdgeKind::X, [changing, shallow, shallow, shallow]));
    assert!(!contains_sign_change(EdgeKind::X, [shallow, changing, shallow, shallow]));
    // On a tie the last cell of the deepest level decides.
    assert!(!contains_sign_change(EdgeKind::X, [changing, changing, changing, changing]));
    let last = Feature { vertex: 1u8, quant: deep, p_mask: 0b0000_1000 };
    assert!(contains_sign_change(EdgeKind::X, [changing, changing, changing, last]));
    assert!(changing.is_feature_edge(6, 7));
    assert!(!changing.is_feature_edge(0, 1));
}

/// Cells of the unit cube at level one, with the field `y - 0.5`.
struct Slab;

impl BuildOctree<Feature<(u16, u16, u16)>> for Slab {
    type Tag = Quant;

    fn root(&mut self) -> Quant {
        Quant::root()
    }

    fn is_leaf(&mut self, tag: Quant) -> bool {
        tag.level() >= 1
    }

    fn refine(&mut self, tag: Quant, which: ChildIndex) -> Option<Quant> {
        Some(tag.child(which).unwrap())
    }

    fn place_leaf(&mut self, tag: Quant) -> Feature<(u16, u16, u16)> {
        let ((x, y, z), _) = tag.parts_level();
        let mut p_mask = 0u8;
        for corner in 0..8u8 {
            if y + ((corner >> 1) & 1) as u16 >= 1 {
                p_mask |= 1 << corner;
            }
        }
        Feature { vertex: (x, y, z), quant: tag, p_mask }
    }
}

#[test]
fn seams_join_neighboring_grids() {
    let a = AdaptiveGrid::build(&mut Slab);
    let b = AdaptiveGrid::build(&mut Slab);
    let step = Delta3::new(1, 0, 0);
    let mut found = Vec::new();
    a.for_each_seam_quad(|d| if d == step { Some(&b) } else { None }, |q| found.push(q));
    assert_eq!(found.len(), 1);
    let mut cells: Vec<((u16, u16, u16), Delta3)> =
        found[0].iter().map(|(feature, offset)| (feature.vertex, *offset)).collect();
    cells.sort_by_key(|(parts, offset)| (offset.x, parts.2));
    assert_eq!(
        cells,
        [
            ((1, 0, 0), Delta3::new(0, 0, 0)),
            ((1, 0, 1), Delta3::new(0, 0, 0)),
            ((0, 0, 0), step),
            ((0, 0, 1), step),
        ]
    );

    // Without the neighbor there is no seam to join.
    let mut none = Vec::new();
    a.for_each_seam_quad(|_| None, |q| none.push(q));
    assert!(none.is_empty());

    // Inside each grid the lower half of the y axis crosses y = 0.5.
    let mut inner = Vec::new();
    a.for_each_interior_quad(|q| inner.push(q));
    assert_eq!(inner, [[(0, 0, 0), (1, 0, 0), (1, 0, 1), (0, 0, 1)]]);
}

fn seam_cells(quad: &[(Feature<(u16, u16, u16)>, Delta3); 4]) -> Vec<((u16, u16, u16), Delta3)> {
    let mut cells: Vec<_> = quad.iter().map(|(feature, offset)| (feature.vertex, *offset)).collect();
    cells.sort_by_key(|(parts, offset)| (offset.x, offset.y, offset.z, *parts));
    cells
}

#[test]
fn face_and_edge_seams_of_chunks() {
    // Two chunks across an x face, with the field y - 0.5 in each.
    let (a, b) = (AdaptiveGrid::build(&mut Slab), AdaptiveGrid::build(&mut Slab));
    let mut found = Vec::new();
    FaceSeam::new(FaceKind::X, [&a, &b]).for_each_quad(|q| found.push(q));
    assert_eq!(found.len(), 1);
    let step = Delta3::new(1, 0, 0);
    assert_eq!(
        seam_cells(&found[0]),
        [
            ((1, 0, 0), Delta3::new(0, 0, 0)),
            ((1, 0, 1), Delta3::new(0, 0, 0)),
            ((0, 0, 0), step),
            ((0, 0, 1), step),
        ]
    );

    // Four chunks around an x edge, with the field x - 0.5 in each: the lower half of
    // the edge crosses it.
    let grids: Vec<_> = (0..4).map(|_| AdaptiveGrid::build(&mut Plane { level: 1 })).collect();
    let mut found = Vec::new();
    EdgeSeam::new(EdgeKind::X, [&grids[0], &grids[1], &grids[2], &grids[3]]).for_each_quad(|q| found.push(q));
    assert_eq!(found.len(), 1);
    assert_eq!(
        seam_cells(&found[0]),
        [
            ((0, 1, 1), Delta3::new(0, 0, 0)),
            ((0, 1, 0), Delta3::new(0, 0, 1)),
            ((0, 0, 1), Delta3::new(0, 1, 0)),
            ((0, 0, 0), Delta3::new(0, 1, 1)),
        ]
    );
}
