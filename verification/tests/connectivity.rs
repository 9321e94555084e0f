use isoplot::connectivity::{Edges, Faces, MinimalEdges};
use isoplot::topology::{EdgeKind, FaceKind};

#[test]
fn faces_are_grouped_by_kind() {
    let mut faces: Faces<u32> = Faces::default();
    faces.insert(FaceKind::Y, [1, 2]);
    faces.insert(FaceKind::X, [3, 4]);
    faces.insert(FaceKind::Y, [5, 6]);
    faces.for_each_axis_mut(|kind, list| {
        if kind == FaceKind::Z {
            list.push([7, 8]);
        }
    });
    let axes = faces.into_axes();
    assert_eq!(
        axes,
        [
            (FaceKind::X, vec![[3, 4]]),
            (FaceKind::Y, vec![[1, 2], [5, 6]]),
            (FaceKind::Z, vec![[7, 8]]),
        ]
    );
}

#[test]
fn edges_are_grouped_by_kind() {
    let mut edges: Edges<u8> = Edges::new();
    edges.insert(EdgeKind::Z, [1, 2, 3, 4]);
    edges.for_each_axis_mut(|kind, list| {
        if kind == EdgeKind::X {
            list.push([0, 0, 0, 0]);
        }
    });
    let axes = edges.into_axes();
    assert_eq!(axes[0], (EdgeKind::X, vec![[0, 0, 0, 0]]));
    assert_eq!(axes[1], (EdgeKind::Y, vec![]));
    assert_eq!(axes[2], (EdgeKind::Z, vec![[1, 2, 3, 4]]));
    let _ = MinimalEdges::new(Faces::<u8>::new(), Edges::new());
}

#[test]
fn edges_keep_insertion_order() {
    let mut edges: Edges<u8> = Edges::new();
    edges.insert(EdgeKind::X, [1, 1, 1, 1]);
    edges.insert(EdgeKind::Z, [2, 2, 2, 2]);
    edges.insert(EdgeKind::X, [3, 3, 3, 3]);
    edges.insert(EdgeKind::Y, [4, 4, 4, 4]);
    edges.insert(EdgeKind::X, [5, 5, 5, 5]);
    let axes = edges.into_axes();
    assert_eq!(axes.len(), 3);
    assert_eq!(axes[0], (EdgeKind::X, vec![[1, 1, 1, 1], [3, 3, 3, 3], [5, 5, 5, 5]]));
    assert_eq!(axes[1], (EdgeKind::Y, vec![[4, 4, 4, 4]]));
    assert_eq!(axes[2], (EdgeKind::Z, vec![[2, 2, 2, 2]]));
}
