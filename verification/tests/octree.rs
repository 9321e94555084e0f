use isoplot::octree::{BuildOctree, ChildIndex, InlineOctree, Key, Node, Octree};
use isoplot::quant::{f32_exp2_small_bits, fract_u32_bits, Quant};
use std::collections::HashSet;

#[test]
fn test_octree_degenerate() {
    #[derive(Copy, Clone, Debug, PartialEq)]
    struct Dummy;

    struct Degenerate;

    impl BuildOctree<Dummy> for Degenerate {
        type Tag = u32;

        fn root(&mut self) -> Self::Tag {
            11
        }

        fn is_leaf(&mut self, _: Self::Tag) -> bool {
            true
        }

        fn refine(&mut self, _: Self::Tag, _: ChildIndex) -> Option<Self::Tag> {
            None
        }

        fn place_leaf(&mut self, tag: Self::Tag) -> Dummy {
            assert_eq!(tag, 11);
            Dummy
        }
    }

    let octree = InlineOctree::build(&mut Degenerate);
    assert_eq!(octree.nodes(), &[Node::Leaf(Dummy)]);
}

struct Uniform(u8);

impl BuildOctree<Quant> for Uniform {
    type Tag = Quant;

    fn root(&mut self) -> Self::Tag {
        Quant::root()
    }

    fn is_leaf(&mut self, tag: Self::Tag) -> bool {
        tag.level() == self.0
    }

    fn refine(&mut self, tag: Self::Tag, which: ChildIndex) -> Option<Self::Tag> {
        Some(tag.child(which).unwrap())
    }

    fn place_leaf(&mut self, tag: Self::Tag) -> Quant {
        tag
    }
}

#[test]
fn test_octree_uniform() {
    let octree = InlineOctree::build(&mut Uniform(4));
    let mut leaves = HashSet::new();

    for node in octree.nodes() {
        if node.is_leaf() {
            leaves.insert(*node.as_leaf().unwrap());
        }
    }

    assert_eq!(leaves.len(), 4096);

    for leaf in &leaves {
        assert_eq!(leaf.level(), 4);
    }
}

#[test]
fn test_octree_child() {
    let octree = InlineOctree::build(&mut Uniform(1));
    let root = octree.nodes()[0].as_branch().unwrap();

    for which in ChildIndex::enumerate() {
        let child = octree.get(root.child(which).unwrap()).unwrap();

        assert_eq!(*child.as_leaf().unwrap(), Quant::root().child(which).unwrap());
    }
}

#[test]
fn octree_levels_follow_each_other() {
    // Children of each branch sit at its offset, in index order, after the branch.
    let octree = InlineOctree::build(&mut Uniform(2));
    let nodes = octree.nodes();
    assert_eq!(nodes.len(), 1 + 8 + 64);
    let mut expected_offset = 1;
    for (i, node) in nodes.iter().enumerate() {
        if let Some(branch) = node.as_branch() {
            assert_eq!(branch.mask(), 0xff);
            assert_eq!(branch.offset(), expected_offset);
            assert!(branch.offset() as usize > i);
            for which in ChildIndex::enumerate() {
                assert_eq!(branch.child(which), Some(Key(expected_offset + which.value() as u32)));
            }
            expected_offset += 8;
        }
    }
    assert_eq!(expected_offset as usize, nodes.len());
}

/// Keeps only the children whose index is even, down to level 2.
struct Sparse;

impl BuildOctree<u8> for Sparse {
    type Tag = (u8, u8);

    fn root(&mut self) -> Self::Tag {
        (0, 0)
    }

    fn is_leaf(&mut self, tag: Self::Tag) -> bool {
        tag.0 == 2
    }

    fn refine(&mut self, tag: Self::Tag, which: ChildIndex) -> Option<Self::Tag> {
        (which.value() % 2 == 0).then_some((tag.0 + 1, which.value()))
    }

    fn place_leaf(&mut self, tag: Self::Tag) -> u8 {
        tag.1
    }
}

#[test]
fn sparse_branches_skip_missing_children() {
    let octree = InlineOctree::build(&mut Sparse);
    let root = octree.nodes()[0].as_branch().unwrap();
    assert_eq!(root.mask(), 0b0101_0101);
    assert_eq!(root.child(ChildIndex::new(1)), None);
    assert_eq!(root.child(ChildIndex::new(2)), Some(Key(2)));
    assert_eq!(root.child(ChildIndex::new(6)), Some(Key(4)));
    assert_eq!(octree.nodes().len(), 1 + 4 + 16);

    let collected = Octree::build(&mut Sparse);
    let key = root.child(ChildIndex::new(4)).unwrap();
    let branch = match collected.get(key).unwrap() {
        Node::Branch(b) => b,
        Node::Leaf(_) => panic!("expected a branch"),
    };
    let leaf = branch.child(ChildIndex::new(6)).unwrap();
    assert!(collected.is_leaf(leaf));
    assert_eq!(collected.get(leaf), Some(Node::Leaf(&6)));
    assert!(!collected.is_leaf(Key::root()));
    assert_eq!(collected.get(Key(21)), None);
}

#[test]
fn test_f32_exp2_small() {
    let exp2 = |e: i8| f32::from_bits(f32_exp2_small_bits(e));
    // Zero
    assert_eq!(exp2(0), 1.0);

    // Positive
    assert_eq!(exp2(1), 2.0);
    assert_eq!(exp2(3), 8.0);
    assert_eq!(exp2(4), 16.0);

    // Negative
    assert_eq!(exp2(-1), 0.5);
    assert_eq!(exp2(-3), 0.125);
    assert_eq!(exp2(-4), 0.0625);
}

fn fract_u32_to_f32(num: u32, len: u32) -> f32 {
    f32::from_bits(fract_u32_bits(num, len)) - 1f32
}

#[test]
fn test_fract_u32_to_f32() {
    // Zero
    assert_eq!(fract_u32_to_f32(0, 0), 0.0);
    assert_eq!(fract_u32_to_f32(0, 1), 0.0);
    assert_eq!(fract_u32_to_f32(0, 23), 0.0);

    // 0 bits of precision
    assert_eq!(fract_u32_to_f32(1, 0), 1.0);

    // 1 bit of precisions
    assert_eq!(fract_u32_to_f32(0, 1), 0.0);
    assert_eq!(fract_u32_to_f32(1, 1), 0.5);

    // 2 bits of precision
    assert_eq!(fract_u32_to_f32(0, 2), 0.0);
    assert_eq!(fract_u32_to_f32(1, 2), 0.25);
    assert_eq!(fract_u32_to_f32(2, 2), 0.5);
    assert_eq!(fract_u32_to_f32(3, 2), 0.75);
}

/// The corner of the cell nearest the origin, and its side, as the library's bits give
/// them.
fn min_point_size(q: Quant) -> ([f32; 3], f32) {
    let ((x, y, z), level) = q.parts_level();
    let c = |v: u16| fract_u32_to_f32(v as u32, level as u32);
    ([c(x), c(y), c(z)], f32::from_bits(f32_exp2_small_bits(-(level as i8))))
}

#[test]
fn test_quant_root() {
    assert_eq!(min_point_size(Quant::root()), ([0.0; 3], 1f32));
}

#[test]
fn test_quant_child() {
    let child = |q: Quant, i: u8| q.child(ChildIndex::new(i)).unwrap();
    assert_eq!(min_point_size(child(Quant::root(), 0)), ([0.0; 3], 0.5));
    assert_eq!(min_point_size(child(child(Quant::root(), 0), 0)), ([0.0; 3], 0.25));
    assert_eq!(min_point_size(child(Quant::root(), 5)), ([0.5, 0.0, 0.5], 0.5));
    assert_eq!(min_point_size(child(Quant::root(), 3)), ([0.5, 0.5, 0.0], 0.5));
    assert_eq!(
        min_point_size(child(child(Quant::root(), 3), 6)),
        ([0.5, 0.75, 0.25], 0.25)
    );
}

#[test]
fn quant_stops_at_the_deepest_level() {
    let mut q = Quant::root();
    for level in 0..Quant::MAX_SUBDIV {
        assert_eq!(q.level(), level);
        q = q.child(ChildIndex::new(7)).unwrap();
    }
    assert_eq!(q.level(), 10);
    assert_eq!(q.parts_level(), ((1023, 1023, 1023), 10));
    assert_eq!(q.child(ChildIndex::new(0)), None);
}
