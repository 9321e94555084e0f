//! Octrees stored level by level: the nodes of each level follow those of the level
//! above, and the children of a branch are stored next to each other, in the order of
//! their index, so that a branch holds only a bitmask of its children and the position
//! of the first.
use vstd::prelude::*;

verus! {

/// Maximum number of levels in an octree, the root's included: there is always at
/// least one.
pub const MAX_LEVELS: u8 = 10;

/// Bit `j` of `x` is set.
pub open spec fn bit(x: u8, j: u8) -> bool {
    (x >> j) & 1u8 == 1u8
}

/// The number of bits of `x` set below bit `n`.
pub open spec fn ones_below(x: u8, n: nat) -> nat
    decreases n,
{
    if n == 0 {
        0
    } else {
        ones_below(x, (n - 1) as nat) + if bit(x, (n - 1) as u8) {
            1nat
        } else {
            0nat
        }
    }
}

/// The number of bits of `x` that are set.
pub open spec fn ones(x: u8) -> nat {
    ones_below(x, 8)
}

proof fn lemma_ones_below_bound(x: u8, n: nat)
    ensures
        ones_below(x, n) <= n,
    decreases n,
{
    if n > 0 {
        lemma_ones_below_bound(x, (n - 1) as nat);
    }
}

proof fn lemma_ones_below_mono(x: u8, m: nat, n: nat)
    requires
        m <= n,
    ensures
        ones_below(x, m) <= ones_below(x, n),
    decreases n - m,
{
    if m < n {
        lemma_ones_below_mono(x, m, (n - 1) as nat);
    }
}

proof fn lemma_bit_of_or(mask: u8, i: u8, j: u8)
    requires
        i < 8,
        j < 8,
    ensures
        bit(mask | (1u8 << i), j) == (bit(mask, j) || i == j),
{
    assert(((mask | (1u8 << i)) >> j) & 1u8 == 1u8 <==> (((mask >> j) & 1u8 == 1u8) || i == j)) by (bit_vector)
        requires
            i < 8,
            j < 8,
    ;
}

proof fn lemma_bit_of_and_below(mask: u8, w: u8, j: u8)
    requires
        w < 8,
        j < 8,
    ensures
        bit(mask & (((1u8 << w) - 1) as u8), j) == (bit(mask, j) && j < w),
{
    assert(((mask & (((1u8 << w) - 1) as u8)) >> j) & 1u8 == 1u8 <==> (((mask >> j) & 1u8 == 1u8) && j < w)) by (bit_vector)
        requires
            w < 8,
            j < 8,
    ;
}

proof fn lemma_bit_high(mask: u8, i: u8, j: u8)
    requires
        i <= j < 8,
        mask < (1u8 << i),
    ensures
        !bit(mask, j),
{
    assert(!(((mask >> j) & 1u8) == 1u8)) by (bit_vector)
        requires
            i <= j < 8,
            mask < (1u8 << i),
    ;
}

/// Setting a bit that is not set adds one to the count of the bits above it.
proof fn lemma_ones_set(mask: u8, i: u8, n: nat)
    requires
        i < 8,
        n <= 8,
        !bit(mask, i),
    ensures
        ones_below(mask | (1u8 << i), n) == ones_below(mask, n) + if i < n {
            1nat
        } else {
            0nat
        },
    decreases n,
{
    if n > 0 {
        lemma_ones_set(mask, i, (n - 1) as nat);
        lemma_bit_of_or(mask, i, (n - 1) as u8);
    }
}

/// The bits of a mask below `w` are those of the mask with the higher bits cleared.
proof fn lemma_ones_masked(mask: u8, w: u8, n: nat)
    requires
        w < 8,
        n <= 8,
    ensures
        ones_below(mask & (((1u8 << w) - 1) as u8), n) == ones_below(mask, if n < w { n } else { w as nat }),
    decreases n,
{
    if n > 0 {
        lemma_ones_masked(mask, w, (n - 1) as nat);
        lemma_bit_of_and_below(mask, w, (n - 1) as u8);
    }
}

/// A mask with no bit at or above `i` has all its bits below `i`.
proof fn lemma_ones_low(mask: u8, i: u8, n: nat)
    requires
        i <= 8,
        i <= n <= 8,
        i < 8 ==> mask < (1u8 << i),
    ensures
        ones_below(mask, n) == ones_below(mask, i as nat),
    decreases n,
{
    if n > i {
        lemma_ones_low(mask, i, (n - 1) as nat);
        lemma_bit_high(mask, i, (n - 1) as u8);
    }
}

/// The number of bits of `x` that are set, counted bit by bit.
pub fn count_ones(x: u8) -> (r: u32)
    ensures
        r == ones(x),
{
    let mut count: u32 = 0;
    let mut j: u8 = 0;
    while j < 8
        invariant
            j <= 8,
            count == ones_below(x, j as nat),
        decreases 8 - j,
    {
        proof {
            lemma_ones_below_bound(x, j as nat);
        }
        if (x >> j) & 1u8 == 1u8 {
            count = count + 1;
        }
        j = j + 1;
    }
    count
}

/// The index of a child of a branch, `0..8`: bit 0 for x, bit 1 for y, bit 2 for z.
#[derive(Copy, Clone, PartialEq, Eq, Structural, Hash, Debug)]
pub struct ChildIndex(u8);

impl ChildIndex {
    #[verifier::type_invariant]
    spec fn inv(self) -> bool {
        self.0 < 8
    }

    pub closed spec fn spec_value(self) -> u8 {
        self.0
    }

    pub fn new(index: u8) -> (r: ChildIndex)
        requires
            index < 8,
        ensures
            r.spec_value() == index,
    {
        ChildIndex(index)
    }

    pub fn value(self) -> (r: u8)
        ensures
            r == self.spec_value(),
            r < 8,
    {
        proof {
            use_type_invariant(&self);
        }
        self.0
    }

    /// The eight indices, in order.
    pub fn enumerate() -> (r: Vec<ChildIndex>)
        ensures
            r@.len() == 8,
            forall|i: int| 0 <= i < 8 ==> (#[trigger] r@[i]).spec_value() == i,
    {
        let mut out: Vec<ChildIndex> = Vec::new();
        let mut i: u8 = 0;
        while i < 8
            invariant
                i <= 8,
                out@.len() == i,
                forall|k: int| 0 <= k < i ==> (#[trigger] out@[k]).spec_value() == k,
            decreases 8 - i,
        {
            out.push(ChildIndex(i));
            i = i + 1;
        }
        out
    }
}

/// The position of a node in an octree.
#[derive(Copy, Clone, PartialEq, Eq, Structural, Hash, Debug)]
pub struct Key(pub u32);

impl Key {
    /// The key of the root node.
    pub fn root() -> (r: Key)
        ensures
            r.0 == 0,
    {
        Key(0)
    }

    pub fn index(self) -> (r: usize)
        ensures
            r == self.0,
    {
        self.0 as usize
    }
}

/// A node with children: which of its eight children there are, and the position of the
/// first; the others follow it in the order of their index.
#[derive(Copy, Clone, PartialEq, Eq, Structural, Hash, Debug)]
pub struct Branch {
    mask: u8,
    offset: u32,
}

impl Branch {
    #[verifier::type_invariant]
    spec fn inv(self) -> bool {
        self.offset + ones(self.mask) <= u32::MAX
    }

    pub closed spec fn spec_mask(self) -> u8 {
        self.mask
    }

    pub closed spec fn spec_offset(self) -> u32 {
        self.offset
    }

    /// The key of child `which`, where the branch has it.
    pub open spec fn spec_child(self, which: u8) -> Option<Key> {
        if bit(self.spec_mask(), which) {
            Some(Key((self.spec_offset() + ones_below(self.spec_mask(), which as nat)) as u32))
        } else {
            None
        }
    }

    pub fn new(mask: u8, offset: u32) -> (r: Branch)
        requires
            offset + ones(mask) <= u32::MAX,
        ensures
            r.spec_mask() == mask,
            r.spec_offset() == offset,
    {
        Branch { mask, offset }
    }

    pub fn mask(self) -> (r: u8)
        ensures
            r == self.spec_mask(),
    {
        self.mask
    }

    pub fn offset(self) -> (r: u32)
        ensures
            r == self.spec_offset(),
            r + ones(self.spec_mask()) <= u32::MAX,
    {
        proof {
            use_type_invariant(&self);
        }
        self.offset
    }

    /// The key of child `which`, or `None` if the branch has no such child.
    pub fn child(&self, which: ChildIndex) -> (r: Option<Key>)
        ensures
            r == self.spec_child(which.spec_value()),
    {
        if self.has_child(which) {
            Some(Key(self.child_offset(which)))
        } else {
            None
        }
    }

    fn has_child(self, which: ChildIndex) -> (r: bool)
        ensures
            r == bit(self.spec_mask(), which.spec_value()),
    {
        let w = which.value();
        let mask = self.mask;
        proof {
            assert((mask & (1u8 << w) != 0) == ((mask >> w) & 1u8 == 1u8)) by (bit_vector)
                requires
                    w < 8,
            ;
        }
        mask & (1u8 << w) != 0
    }

    fn child_offset(self, which: ChildIndex) -> (r: u32)
        ensures
            r == self.spec_offset() + ones_below(self.spec_mask(), which.spec_value() as nat),
    {
        let w = which.value();
        proof {
            use_type_invariant(&self);
            lemma_ones_masked(self.mask, w, 8);
            lemma_ones_below_mono(self.mask, w as nat, 8);
        }
        proof {
            assert(1u8 << w >= 1) by (bit_vector)
                requires
                    w < 8,
            ;
        }
        let pref: u8 = (1u8 << w) - 1;
        self.offset + count_ones(self.mask & pref)
    }
}

/// What an octree is built from: a root, and for each node whether it is a leaf, its
/// children if not, and its payload if so.
pub trait BuildOctree<T> {
    /// A unique identifier for an octree node.
    type Tag: Copy;

    /// The tag of the root node. A source states it; the default says nothing of it.
    closed spec fn spec_root(&self) -> Self::Tag {
        arbitrary()
    }

    /// Whether the node `tag` is a leaf. A source states it; the default says nothing of
    /// it.
    closed spec fn spec_is_leaf(&self, tag: Self::Tag) -> bool {
        arbitrary()
    }

    /// The child `which` of the node `tag`, or `None` where that child is empty. A source
    /// states it; the default says nothing of it.
    closed spec fn spec_child(&self, tag: Self::Tag, which: ChildIndex) -> Option<Self::Tag> {
        arbitrary()
    }

    /// Whether `leaf` is a payload that the leaf `tag` was given; once it holds, it keeps
    /// holding. A source states it; the default says nothing of it.
    closed spec fn spec_places(&self, tag: Self::Tag, leaf: T) -> bool {
        arbitrary()
    }

    /// Returns the tag of the root node.
    fn root(&mut self) -> (r: Self::Tag)
        ensures
            r == old(self).spec_root(),
            final(self).spec_root() == old(self).spec_root(),
            forall|t: Self::Tag| #[trigger] final(self).spec_is_leaf(t) == old(self).spec_is_leaf(t),
            forall|t: Self::Tag, c: ChildIndex| #[trigger] final(self).spec_child(t, c) == old(self).spec_child(t, c),
            forall|t: Self::Tag, l: T| #[trigger] old(self).spec_places(t, l) ==> final(self).spec_places(t, l),
    ;

    /// Returns `true` if the specified node is a leaf.
    fn is_leaf(&mut self, tag: Self::Tag) -> (r: bool)
        ensures
            r == old(self).spec_is_leaf(tag),
            final(self).spec_root() == old(self).spec_root(),
            forall|t: Self::Tag| #[trigger] final(self).spec_is_leaf(t) == old(self).spec_is_leaf(t),
            forall|t: Self::Tag, c: ChildIndex| #[trigger] final(self).spec_child(t, c) == old(self).spec_child(t, c),
            forall|t: Self::Tag, l: T| #[trigger] old(self).spec_places(t, l) ==> final(self).spec_places(t, l),
    ;

    /// Returns the tag of the specified child, or `None` if that child is empty.
    fn refine(&mut self, tag: Self::Tag, which: ChildIndex) -> (r: Option<Self::Tag>)
        ensures
            r == old(self).spec_child(tag, which),
            final(self).spec_root() == old(self).spec_root(),
            forall|t: Self::Tag| #[trigger] final(self).spec_is_leaf(t) == old(self).spec_is_leaf(t),
            forall|t: Self::Tag, c: ChildIndex| #[trigger] final(self).spec_child(t, c) == old(self).spec_child(t, c),
            forall|t: Self::Tag, l: T| #[trigger] old(self).spec_places(t, l) ==> final(self).spec_places(t, l),
    ;

    /// Returns the leaf payload associated with the specified tag.
    fn place_leaf(&mut self, tag: Self::Tag) -> (r: T)
        ensures
            final(self).spec_places(tag, r),
            final(self).spec_root() == old(self).spec_root(),
            forall|t: Self::Tag| #[trigger] final(self).spec_is_leaf(t) == old(self).spec_is_leaf(t),
            forall|t: Self::Tag, c: ChildIndex| #[trigger] final(self).spec_child(t, c) == old(self).spec_child(t, c),
            forall|t: Self::Tag, l: T| #[trigger] old(self).spec_places(t, l) ==> final(self).spec_places(t, l),
    ;
}

/// `a` is what `source` answers for the node `tag`: a leaf where it is one, else a branch
/// with the child that `source` gives for each index, in the order of the indices.
pub open spec fn answer_of<T, P, B: BuildOctree<T>>(source: B, tag: B::Tag, a: Answer<P, B::Tag>) -> bool {
    match a {
        Answer::Leaf(_) => source.spec_is_leaf(tag),
        Answer::Branch(ch) => {
            &&& !source.spec_is_leaf(tag)
            &&& ch@.len() == 8
            &&& forall|c: ChildIndex| c.spec_value() < 8 ==> ch@[c.spec_value() as int] == #[trigger] source.spec_child(tag, c)
        },
    }
}

/// The tags start with the root of `source`, and each answer is what `source` answers for
/// the tag at its position.
pub open spec fn answered_by<T, P, B: BuildOctree<T>>(source: B, tags: Seq<B::Tag>, answers: Seq<Answer<P, B::Tag>>) -> bool {
    &&& tags.len() >= 1
    &&& tags[0] == source.spec_root()
    &&& answers.len() <= tags.len()
    &&& forall|k: int| 0 <= k < answers.len() ==> answer_of(source, tags[k], #[trigger] answers[k])
}

/// A node of an octree: a branch, or a leaf with its payload.
#[derive(Copy, Clone, PartialEq, Eq, Debug)]
pub enum Node<T> {
    Branch(Branch),
    Leaf(T),
}

impl<T> Node<T> {
    pub fn is_leaf(&self) -> (r: bool)
        ensures
            r == (self is Leaf),
    {
        match self {
            Node::Leaf(_) => true,
            Node::Branch(_) => false,
        }
    }

    pub fn as_leaf(&self) -> (r: Option<&T>)
        ensures
            r == match self {
                Node::Leaf(leaf) => Some(leaf),
                Node::Branch(_) => None::<&T>,
            },
    {
        match self {
            Node::Leaf(leaf) => Some(leaf),
            Node::Branch(_) => None,
        }
    }

    pub fn as_branch(&self) -> (r: Option<Branch>)
        ensures
            r == match self {
                Node::Branch(branch) => Some(*branch),
                Node::Leaf(_) => None::<Branch>,
            },
    {
        match self {
            Node::Branch(branch) => Some(*branch),
            Node::Leaf(_) => None,
        }
    }
}

/// The number of children that a node has.
pub open spec fn num_children<T>(node: Node<T>) -> nat {
    match node {
        Node::Branch(b) => ones(b.spec_mask()),
        Node::Leaf(_) => 0,
    }
}

/// Where the children of node `i` are stored, or would be if it were a branch: after the
/// root, and after the children of every node before it.
pub open spec fn child_start<T>(nodes: Seq<Node<T>>, i: int) -> int
    decreases i,
{
    if i <= 0 {
        1
    } else {
        child_start(nodes, i - 1) + num_children(nodes[i - 1])
    }
}

/// The nodes are stored level by level: the root first, and the children of each branch,
/// after the branch itself, next to the children of the branch before it.
pub open spec fn layout<T>(nodes: Seq<Node<T>>) -> bool {
    &&& nodes.len() >= 1
    &&& child_start(nodes, nodes.len() as int) <= u32::MAX
    &&& forall|i: int|
        0 <= i < nodes.len() ==> match #[trigger] nodes[i] {
            Node::Branch(b) => b.spec_offset() == child_start(nodes, i) && i < child_start(nodes, i),
            Node::Leaf(_) => true,
        }
}

/// Every child that a branch names is stored.
pub open spec fn complete<T>(nodes: Seq<Node<T>>) -> bool {
    child_start(nodes, nodes.len() as int) == nodes.len()
}

proof fn lemma_child_start_push<T>(nodes: Seq<Node<T>>, x: Node<T>, i: int)
    requires
        0 <= i <= nodes.len(),
    ensures
        child_start(nodes.push(x), i) == child_start(nodes, i),
    decreases i,
{
    if i > 0 {
        lemma_child_start_push(nodes, x, i - 1);
        assert(nodes.push(x)[i - 1] == nodes[i - 1]);
    }
}

proof fn lemma_child_start_mono<T>(nodes: Seq<Node<T>>, i: int, j: int)
    requires
        0 <= i <= j,
    ensures
        child_start(nodes, i) <= child_start(nodes, j),
    decreases j - i,
{
    if i < j {
        lemma_child_start_mono(nodes, i, j - 1);
    }
}

/// `8` to the power `l`.
pub open spec fn pow8(l: nat) -> nat
    decreases l,
{
    if l == 0 {
        1
    } else {
        8 * pow8((l - 1) as nat)
    }
}

proof fn lemma_pow8_mono(a: nat, b: nat)
    requires
        a <= b,
    ensures
        pow8(a) <= pow8(b),
    decreases b - a,
{
    if a < b {
        lemma_pow8_mono(a, (b - 1) as nat);
    }
}

proof fn lemma_pow8_bound(l: nat)
    requires
        l <= 9,
    ensures
        pow8(l) <= 134217728,
{
    lemma_pow8_mono(l, 9);
    reveal_with_fuel(pow8, 10);
}

/// What a source answers for one node: a leaf with its payload, or a branch with what
/// `refine` gave for each of its eight children, in the order of their index.
pub enum Answer<T, Tag> {
    Leaf(T),
    Branch(Vec<Option<Tag>>),
}

/// The tags among the first `n` entries of `ch`, in order.
pub open spec fn answer_kids<Tag>(ch: Seq<Option<Tag>>, n: int) -> Seq<Tag>
    decreases n,
{
    if n <= 0 {
        seq![]
    } else if ch[n - 1] is Some {
        answer_kids(ch, n - 1).push(ch[n - 1]->0)
    } else {
        answer_kids(ch, n - 1)
    }
}

/// The mask with bit `c` set for each `c < n` at which `ch` holds a tag.
pub open spec fn answer_mask<Tag>(ch: Seq<Option<Tag>>, n: int) -> u8
    decreases n,
{
    if n <= 0 {
        0
    } else if ch[n - 1] is Some {
        answer_mask(ch, n - 1) | (1u8 << ((n - 1) as u8))
    } else {
        answer_mask(ch, n - 1)
    }
}

/// The tags of the children that an answer names, in the order of their index.
pub open spec fn children_of<T, Tag>(a: Answer<T, Tag>) -> Seq<Tag> {
    match a {
        Answer::Leaf(_) => seq![],
        Answer::Branch(ch) => answer_kids(ch@, 8),
    }
}

/// `node` is what the answer `a` makes for a node whose children are stored from
/// `offset` on: the leaf with its payload, or the branch whose mask has a bit for each
/// child that `refine` gave.
pub open spec fn node_fits<T, Tag>(node: Node<T>, a: Answer<T, Tag>, offset: int) -> bool {
    match a {
        Answer::Leaf(x) => node == Node::Leaf(x),
        Answer::Branch(ch) => node matches Node::Branch(b) && b.spec_mask() == answer_mask(ch@, 8) && b.spec_offset()
            == offset,
    }
}

/// The nodes, stored level by level, were made from `answers`, one per node, and `tags`
/// holds, level by level, the root's tag and then the tags of the children that the
/// answers named, each branch's in the order of their index, at the positions where the
/// branch stores them: the tags to be asked about, node `k` answering for `tags[k]`.
pub open spec fn built_from<T, Tag>(nodes: Seq<Node<T>>, tags: Seq<Tag>, answers: Seq<Answer<T, Tag>>) -> bool {
    &&& answers.len() == nodes.len()
    &&& tags.len() == child_start(nodes, nodes.len() as int)
    &&& forall|k: int| 0 <= k < nodes.len() ==> #[trigger] node_fits(nodes[k], answers[k], child_start(nodes, k))
    &&& forall|k: int| 0 <= k < nodes.len() ==> num_children(#[trigger] nodes[k]) == children_of(answers[k]).len()
    &&& forall|k: int, j: int|
        0 <= k < nodes.len() && 0 <= j < children_of(answers[k]).len() ==> tags[child_start(nodes, k) + j]
            == #[trigger] children_of(answers[k])[j]
}

/// Asks `source` about the node `tag`: its payload if it is a leaf, else what `refine`
/// gives for each of its children in the order of their index.
fn ask<T, B: BuildOctree<T>>(source: &mut B, tag: B::Tag) -> (r: Answer<T, B::Tag>)
    ensures
        r matches Answer::Branch(ch) ==> ch@.len() == 8,
        answer_of(*old(source), tag, r),
        r matches Answer::Leaf(x) ==> final(source).spec_places(tag, x),
        forall|t: B::Tag, l: T| #[trigger] old(source).spec_places(t, l) ==> final(source).spec_places(t, l),
        final(source).spec_root() == old(source).spec_root(),
        forall|t: B::Tag| #[trigger] final(source).spec_is_leaf(t) == old(source).spec_is_leaf(t),
        forall|t: B::Tag, c: ChildIndex| #[trigger] final(source).spec_child(t, c) == old(source).spec_child(t, c),
{
    let ghost s0 = *source;
    if source.is_leaf(tag) {
        Answer::Leaf(source.place_leaf(tag))
    } else {
        let indices = ChildIndex::enumerate();
        let mut ch: Vec<Option<B::Tag>> = Vec::new();
        let mut c: usize = 0;
        while c < 8
            invariant
                c <= 8,
                ch@.len() == c,
                indices@.len() == 8,
                forall|i: int| 0 <= i < 8 ==> (#[trigger] indices@[i]).spec_value() == i,
                !s0.spec_is_leaf(tag),
                source.spec_root() == s0.spec_root(),
                forall|t: B::Tag| #[trigger] source.spec_is_leaf(t) == s0.spec_is_leaf(t),
                forall|t: B::Tag, c: ChildIndex| #[trigger] source.spec_child(t, c) == s0.spec_child(t, c),
                forall|t: B::Tag, l: T| #[trigger] s0.spec_places(t, l) ==> source.spec_places(t, l),
                forall|i: int| 0 <= i < c ==> ch@[i] == s0.spec_child(tag, #[trigger] indices@[i]),
            decreases 8 - c,
        {
            ch.push(source.refine(tag, indices[c]));
            c = c + 1;
        }
        proof {
            assert forall|ci: ChildIndex| ci.spec_value() < 8 implies ch@[ci.spec_value() as int] == #[trigger] s0.spec_child(tag, ci) by {
                let i = ci.spec_value() as int;
                assert(indices@[i].spec_value() == ci.spec_value());
                lemma_child_index_eq(indices@[i], ci);
            }
        }
        Answer::Branch(ch)
    }
}

/// Each leaf among `answers` holds a payload that `source` gave the tag at its position.
pub open spec fn leaves_placed<T, B: BuildOctree<T>>(source: B, tags: Seq<B::Tag>, answers: Seq<Answer<T, B::Tag>>) -> bool {
    forall|k: int|
        #![trigger answers[k]]
        0 <= k < answers.len() ==> (answers[k] matches Answer::Leaf(x) ==> source.spec_places(tags[k], x))
}

/// What one source answers, another that agrees with it on the node answers too.
proof fn lemma_answer_same<T1, T2, P, B1: BuildOctree<T1>, B2: BuildOctree<T2, Tag = B1::Tag>>(
    b1: B1,
    b2: B2,
    tag: B1::Tag,
    a: Answer<P, B1::Tag>,
)
    requires
        answer_of(b1, tag, a),
        b1.spec_is_leaf(tag) == b2.spec_is_leaf(tag),
        forall|c: ChildIndex| #[trigger] b1.spec_child(tag, c) == b2.spec_child(tag, c),
    ensures
        answer_of(b2, tag, a),
{
    if let Answer::Branch(ch) = a {
        assert forall|c: ChildIndex| c.spec_value() < 8 implies ch@[c.spec_value() as int] == #[trigger] b2.spec_child(tag, c) by {
            assert(b1.spec_child(tag, c) == b2.spec_child(tag, c));
        }
    }
}

/// Two child indices with one value are one index.
proof fn lemma_child_index_eq(a: ChildIndex, b: ChildIndex)
    requires
        a.spec_value() == b.spec_value(),
    ensures
        a == b,
{
}

/// Appends the node that `answer` makes, with its children stored from `offset` on, and
/// the tags of those children; returns how many there are.
fn place_node<T, Tag: Copy>(nodes: &mut Vec<Node<T>>, tags: &mut Vec<Tag>, answer: Answer<T, Tag>, offset: u32) -> (r: u32)
    requires
        answer matches Answer::Branch(ch) ==> ch@.len() == 8,
        offset + 8 <= u32::MAX,
    ensures
        final(nodes)@.len() == old(nodes)@.len() + 1,
        final(nodes)@.drop_last() == old(nodes)@,
        node_fits(final(nodes)@.last(), answer, offset as int),
        final(tags)@ == old(tags)@ + children_of(answer),
        r == children_of(answer).len(),
        r == num_children(final(nodes)@.last()),
        r <= 8,
{
    let ghost a = answer;
    match answer {
        Answer::Leaf(payload) => {
            nodes.push(Node::Leaf(payload));
            proof {
                assert(old(tags)@ + children_of(a) =~= old(tags)@);
                assert(nodes@.drop_last() =~= old(nodes)@);
            }
            0
        },
        Answer::Branch(ch) => {
            let ghost tags0 = tags@;
            let mut mask: u8 = 0;
            let mut c: usize = 0;
            proof {
                assert(0u8 < (1u8 << 0u8)) by (bit_vector);
                assert(tags@ =~= tags0 + answer_kids(ch@, 0));
            }
            while c < 8
                invariant
                    c <= 8,
                    ch@.len() == 8,
                    c < 8 ==> mask < (1u8 << c as u8),
                    mask == answer_mask(ch@, c as int),
                    tags@ == tags0 + answer_kids(ch@, c as int),
                    answer_kids(ch@, c as int).len() == ones_below(mask, c as nat),
                decreases 8 - c,
            {
                match ch[c] {
                    Some(child) => {
                        let ghost old_mask = mask;
                        proof {
                            lemma_bit_high(mask, c as u8, c as u8);
                            lemma_ones_set(mask, c as u8, c as nat);
                            lemma_ones_set(mask, c as u8, (c + 1) as nat);
                            assert(!bit(old_mask, c as u8));
                            assert(c < 7 ==> (mask | (1u8 << c as u8)) < (1u8 << (c + 1) as u8)) by (bit_vector)
                                requires
                                    mask < (1u8 << c as u8),
                                    c < 8,
                            ;
                        }
                        mask = mask | (1u8 << c as u8);
                        tags.push(child);
                        proof {
                            assert(tags@ =~= tags0 + answer_kids(ch@, c + 1));
                        }
                    },
                    None => {
                        proof {
                            lemma_bit_high(mask, c as u8, c as u8);
                            assert(c < 7 ==> mask < (1u8 << (c + 1) as u8)) by (bit_vector)
                                requires
                                    mask < (1u8 << c as u8),
                                    c < 8,
                            ;
                            assert(ones_below(mask, (c + 1) as nat) == ones_below(mask, c as nat));
                        }
                    },
                }
                c = c + 1;
            }
            proof {
                lemma_ones_below_bound(mask, 8);
            }
            let branch = Branch::new(mask, offset);
            nodes.push(Node::Branch(branch));
            proof {
                assert(nodes@.drop_last() =~= old(nodes)@);
            }
            count_ones(mask)
        },
    }
}

/// An octree stored level by level.
pub struct InlineOctree<T> {
    nodes: Vec<Node<T>>,
}

impl<T> InlineOctree<T> {
    pub closed spec fn spec_nodes(&self) -> Seq<Node<T>> {
        self.nodes@
    }

    /// The nodes, level by level.
    pub fn nodes(&self) -> (r: &[Node<T>])
        ensures
            r@ == self.spec_nodes(),
    {
        self.nodes.as_slice()
    }

    pub fn get(&self, key: Key) -> (r: Option<&Node<T>>)
        ensures
            r == if (key.0 as int) < self.spec_nodes().len() {
                Some(&self.spec_nodes()[key.0 as int])
            } else {
                None::<&Node<T>>
            },
    {
        let i = key.index();
        if i < self.nodes.len() {
            Some(&self.nodes[i])
        } else {
            None
        }
    }

    /// Builds the octree of `source` level by level, down to `MAX_LEVELS` levels.
    pub fn build<B>(source: &mut B) -> (r: InlineOctree<T>) where B: BuildOctree<T>
        ensures
            layout(r.spec_nodes()),
            child_start(r.spec_nodes(), r.spec_nodes().len() as int) >= r.spec_nodes().len(),
            exists|tags: Seq<B::Tag>, answers: Seq<Answer<T, B::Tag>>|
                #[trigger] built_from(r.spec_nodes(), tags, answers) && answered_by(*old(source), tags, answers)
                    && leaves_placed(*final(source), tags, answers),
    {
        let ghost s0 = *source;
        let mut nodes: Vec<Node<T>> = Vec::new();
        let mut this_tags: Vec<B::Tag> = Vec::new();
        let mut next_tags: Vec<B::Tag> = Vec::new();
        next_tags.push(source.root());
        let mut next_offset: u32 = 1;
        let mut level: u8 = 0;
        let ghost mut all_tags: Seq<B::Tag> = next_tags@;
        let ghost mut answers: Seq<Answer<T, B::Tag>> = seq![];
        while level < MAX_LEVELS && next_tags.len() > 0
            invariant
                level <= MAX_LEVELS,
                this_tags@.len() == 0,
                leaves_placed(*source, all_tags, answers),
                answered_by(s0, all_tags, answers),
                source.spec_root() == s0.spec_root(),
                forall|t: B::Tag| #[trigger] source.spec_is_leaf(t) == s0.spec_is_leaf(t),
                forall|t: B::Tag, c: ChildIndex| #[trigger] source.spec_child(t, c) == s0.spec_child(t, c),
                answers.len() == nodes@.len(),
                all_tags.len() == next_offset,
                next_tags@ == all_tags.subrange(nodes@.len() as int, all_tags.len() as int),
                forall|k: int| 0 <= k < nodes@.len() ==> #[trigger] node_fits(nodes@[k], answers[k], child_start(nodes@, k)),
                forall|k: int| 0 <= k < nodes@.len() ==> num_children(#[trigger] nodes@[k]) == children_of(answers[k]).len(),
                forall|k: int, j: int|
                    0 <= k < nodes@.len() && 0 <= j < children_of(answers[k]).len() ==> all_tags[child_start(nodes@, k) + j]
                        == #[trigger] children_of(answers[k])[j],
                next_offset == child_start(nodes@, nodes@.len() as int),
                next_offset == nodes@.len() + next_tags@.len(),
                nodes@.len() <= pow8(level as nat),
                next_tags@.len() <= pow8(level as nat),
                level == 0 ==> nodes@.len() == 0,
                level > 0 ==> nodes@.len() >= 1,
                forall|i: int|
                    0 <= i < nodes@.len() ==> match #[trigger] nodes@[i] {
                        Node::Branch(b) => b.spec_offset() == child_start(nodes@, i) && i < child_start(nodes@, i),
                        Node::Leaf(_) => true,
                    },
            decreases MAX_LEVELS - level,
        {
            proof {
                lemma_pow8_bound(level as nat);
            }
            let ghost start = nodes@.len();
            let count = next_tags.len();
            proof {
                assert(this_tags@ =~= all_tags.subrange(start + count, all_tags.len() as int));
            }
            let mut p: usize = 0;
            while p < count
                invariant
                    level < MAX_LEVELS,
                    count == next_tags@.len(),
                    leaves_placed(*source, all_tags, answers),
                    next_tags@ == all_tags.subrange(start as int, start + count),
                    answered_by(s0, all_tags, answers),
                    source.spec_root() == s0.spec_root(),
                    forall|t: B::Tag| #[trigger] source.spec_is_leaf(t) == s0.spec_is_leaf(t),
                    forall|t: B::Tag, c: ChildIndex| #[trigger] source.spec_child(t, c) == s0.spec_child(t, c),
                    count <= 134217728,
                    start <= 134217728,
                    p <= count,
                    nodes@.len() == start + p,
                    this_tags@.len() <= 8 * p,
                    next_offset == child_start(nodes@, nodes@.len() as int),
                    next_offset == nodes@.len() + (count - p) + this_tags@.len(),
                    count > 0,
                    answers.len() == nodes@.len(),
                    all_tags.len() == next_offset,
                    start + count <= all_tags.len(),
                    this_tags@ == all_tags.subrange(start + count, all_tags.len() as int),
                    forall|k: int| 0 <= k < nodes@.len() ==> #[trigger] node_fits(nodes@[k], answers[k], child_start(nodes@, k)),
                    forall|k: int| 0 <= k < nodes@.len() ==> num_children(#[trigger] nodes@[k]) == children_of(answers[k]).len(),
                    forall|k: int, j: int|
                        0 <= k < nodes@.len() && 0 <= j < children_of(answers[k]).len() ==> all_tags[child_start(nodes@, k) + j]
                            == #[trigger] children_of(answers[k])[j],
                    forall|i: int|
                        0 <= i < nodes@.len() ==> match #[trigger] nodes@[i] {
                            Node::Branch(b) => b.spec_offset() == child_start(nodes@, i) && i < child_start(nodes@, i),
                            Node::Leaf(_) => true,
                        },
                decreases count - p,
            {
                let tag = next_tags[p];
                let ghost src_before = *source;
                let ghost before = nodes@;
                let ghost tags_before = all_tags;
                let answer = ask(source, tag);
                let ghost a = answer;
                let ghost this_before = this_tags@;
                let r = place_node(&mut nodes, &mut this_tags, answer, next_offset);
                proof {
                    let node = nodes@.last();
                    assert(nodes@ == before.push(node));
                    assert(tag == tags_before[before.len() as int]);
                    all_tags = all_tags + children_of(a);
                    answers = answers.push(a);
                    lemma_answer_same(src_before, s0, tag, a);
                    assert forall|k: int| 0 <= k < answers.len() implies (#[trigger] answers[k] matches Answer::Leaf(x)
                        ==> source.spec_places(all_tags[k], x)) by {
                        assert(all_tags[k] == tags_before[k]);
                        if k < answers.len() - 1 {
                            if let Answer::Leaf(x) = answers[k] {
                                assert(src_before.spec_places(tags_before[k], x));
                            }
                        }
                    }
                    assert forall|k: int| 0 <= k < answers.len() implies answer_of(s0, all_tags[k], #[trigger] answers[k]) by {
                        assert(all_tags[k] == tags_before[k]);
                    }
                    lemma_child_start_push(before, node, before.len() as int);
                    assert forall|i: int| 0 <= i < nodes@.len() implies match #[trigger] nodes@[i] {
                        Node::Branch(b) => b.spec_offset() == child_start(nodes@, i) && i < child_start(nodes@, i),
                        Node::Leaf(_) => true,
                    } by {
                        if i < before.len() {
                            lemma_child_start_push(before, node, i);
                            assert(nodes@[i] == before[i]);
                        }
                    }
                    assert forall|k: int| 0 <= k < nodes@.len() implies #[trigger] node_fits(
                        nodes@[k],
                        answers[k],
                        child_start(nodes@, k),
                    ) by {
                        if k < before.len() {
                            lemma_child_start_push(before, node, k);
                            assert(nodes@[k] == before[k]);
                        }
                    }
                    assert forall|k: int, j: int|
                        0 <= k < nodes@.len() && 0 <= j < children_of(answers[k]).len() implies all_tags[child_start(
                            nodes@,
                            k,
                        ) + j] == #[trigger] children_of(answers[k])[j] by {
                        if k < before.len() {
                            lemma_child_start_push(before, node, k);
                            lemma_child_start_mono(before, k + 1, before.len() as int);
                            assert(num_children(before[k]) == children_of(answers[k]).len());
                            assert(child_start(before, k + 1) == child_start(before, k) + num_children(before[k]));
                            assert(all_tags[child_start(nodes@, k) + j] == tags_before[child_start(before, k) + j]);
                        } else {
                            assert(all_tags[child_start(nodes@, k) + j] == children_of(a)[j]);
                        }
                    }
                    assert(this_tags@ =~= all_tags.subrange(start + count, all_tags.len() as int));
                    assert forall|k: int| 0 <= k < nodes@.len() implies num_children(#[trigger] nodes@[k]) == children_of(
                        answers[k],
                    ).len() by {
                        if k < before.len() {
                            assert(nodes@[k] == before[k]);
                        }
                    }
                }
                next_offset = next_offset + r;
                p = p + 1;
            }
            std::mem::swap(&mut this_tags, &mut next_tags);
            this_tags.clear();
            level = level + 1;
        }
        proof {
            assert(built_from(nodes@, all_tags, answers));
            assert(answered_by(s0, all_tags, answers));
            assert(leaves_placed(*source, all_tags, answers));
        }
        InlineOctree { nodes }
    }
}

impl<T> InlineOctree<T> {
    /// Calls `f` with each branch, in the order of the nodes.
    pub fn for_each_branch<F>(&self, mut f: F) where F: FnMut(Branch)
        requires
            forall|b: Branch| call_requires(f, (b,)),
    {
        let mut i: usize = 0;
        while i < self.nodes.len()
            invariant
                forall|b: Branch| call_requires(f, (b,)),
            decreases self.nodes@.len() - i,
        {
            if let Node::Branch(branch) = self.nodes[i] {
                f(branch);
            }
            i = i + 1;
        }
    }
}

/// A source that stores the payloads of the leaves of another in a list, and gives their
/// positions in it as the leaves' payloads.
pub struct Collector<'a, T, I: BuildOctree<T>> {
    source: &'a mut I,
    leaves: Vec<T>,
}

impl<'a, T, I: BuildOctree<T>> Collector<'a, T, I> {
    /// The payloads placed so far, in order.
    pub closed spec fn spec_leaves(&self) -> Seq<T> {
        self.leaves@
    }
}

impl<'a, T, I: BuildOctree<T>> BuildOctree<u32> for Collector<'a, T, I> {
    type Tag = I::Tag;

    closed spec fn spec_root(&self) -> I::Tag {
        self.source.spec_root()
    }

    closed spec fn spec_is_leaf(&self, tag: I::Tag) -> bool {
        self.source.spec_is_leaf(tag)
    }

    closed spec fn spec_child(&self, tag: I::Tag, which: ChildIndex) -> Option<I::Tag> {
        self.source.spec_child(tag, which)
    }

    closed spec fn spec_places(&self, tag: I::Tag, leaf: u32) -> bool {
        exists|i: int| 0 <= i < self.leaves@.len() && i as u32 == leaf && #[trigger] self.source.spec_places(tag, self.leaves@[i])
    }

    fn root(&mut self) -> (r: Self::Tag)
        ensures
            final(self).spec_leaves() == old(self).spec_leaves(),
    {
        let ghost prev = *self;
        let r = self.source.root();
        proof {
            assert forall|t: I::Tag, l: u32| #[trigger] prev.spec_places(t, l) implies self.spec_places(t, l) by {
                let k = choose|k: int|
                    0 <= k < prev.leaves@.len() && k as u32 == l && #[trigger] prev.source.spec_places(t, prev.leaves@[k]);
                assert(self.leaves@[k] == prev.leaves@[k]);
                assert(self.source.spec_places(t, self.leaves@[k]));
            }
        }
        r
    }

    fn is_leaf(&mut self, tag: Self::Tag) -> (r: bool)
        ensures
            final(self).spec_leaves() == old(self).spec_leaves(),
    {
        let ghost prev = *self;
        let r = self.source.is_leaf(tag);
        proof {
            assert forall|t: I::Tag, l: u32| #[trigger] prev.spec_places(t, l) implies self.spec_places(t, l) by {
                let k = choose|k: int|
                    0 <= k < prev.leaves@.len() && k as u32 == l && #[trigger] prev.source.spec_places(t, prev.leaves@[k]);
                assert(self.leaves@[k] == prev.leaves@[k]);
                assert(self.source.spec_places(t, self.leaves@[k]));
            }
        }
        r
    }

    fn refine(&mut self, tag: Self::Tag, which: ChildIndex) -> (r: Option<Self::Tag>)
        ensures
            final(self).spec_leaves() == old(self).spec_leaves(),
    {
        let ghost prev = *self;
        let r = self.source.refine(tag, which);
        proof {
            assert forall|t: I::Tag, l: u32| #[trigger] prev.spec_places(t, l) implies self.spec_places(t, l) by {
                let k = choose|k: int|
                    0 <= k < prev.leaves@.len() && k as u32 == l && #[trigger] prev.source.spec_places(t, prev.leaves@[k]);
                assert(self.leaves@[k] == prev.leaves@[k]);
                assert(self.source.spec_places(t, self.leaves@[k]));
            }
        }
        r
    }

    fn place_leaf(&mut self, tag: Self::Tag) -> (r: u32)
        ensures
            final(self).spec_leaves().len() == old(self).spec_leaves().len() + 1,
            final(self).spec_leaves().drop_last() == old(self).spec_leaves(),
            r == old(self).spec_leaves().len() as u32,
    {
        let ghost prev = *self;
        let payload = self.source.place_leaf(tag);
        self.leaves.push(payload);
        let r = (self.leaves.len() - 1) as u32;
        proof {
            let i = self.leaves@.len() - 1;
            assert(self.leaves@[i] == payload);
            assert(i as u32 == r);
            assert(self.source.spec_places(tag, self.leaves@[i]));
        }
        proof {
            assert forall|t: I::Tag, l: u32| #[trigger] prev.spec_places(t, l) implies self.spec_places(t, l) by {
                let k = choose|k: int|
                    0 <= k < prev.leaves@.len() && k as u32 == l && #[trigger] prev.source.spec_places(t, prev.leaves@[k]);
                assert(self.leaves@[k] == prev.leaves@[k]);
                assert(self.source.spec_places(t, self.leaves@[k]));
            }
        }
        r
    }
}

/// An octree whose leaves hold positions in a list of payloads.
pub struct Octree<T> {
    octree: InlineOctree<u32>,
    leaves: Vec<T>,
}

impl<T> Octree<T> {
    pub closed spec fn spec_nodes(&self) -> Seq<Node<u32>> {
        self.octree.spec_nodes()
    }

    pub closed spec fn spec_leaves(&self) -> Seq<T> {
        self.leaves@
    }

    /// `key` names a node, and a leaf's payload is in the list.
    pub open spec fn contains(&self, key: Key) -> bool {
        &&& (key.0 as int) < self.spec_nodes().len()
        &&& match self.spec_nodes()[key.0 as int] {
            Node::Leaf(i) => (i as int) < self.spec_leaves().len(),
            Node::Branch(_) => true,
        }
    }

    /// Builds the octree of `source`; see `InlineOctree::build`.
    pub fn build<S>(source: &mut S) -> (r: Octree<T>) where S: BuildOctree<T>
        ensures
            layout(r.spec_nodes()),
            child_start(r.spec_nodes(), r.spec_nodes().len() as int) >= r.spec_nodes().len(),
            exists|tags: Seq<S::Tag>, answers: Seq<Answer<u32, S::Tag>>|
                #[trigger] built_from(r.spec_nodes(), tags, answers) && answered_by(*old(source), tags, answers),
    {
        let ghost s0 = *source;
        let mut collector = Collector { source, leaves: Vec::new() };
        let ghost c0 = collector;
        let octree = InlineOctree::build(&mut collector);
        let ghost (tags, answers): (Seq<S::Tag>, Seq<Answer<u32, S::Tag>>) = choose|
            tags: Seq<S::Tag>,
            answers: Seq<Answer<u32, S::Tag>>,
        | #[trigger] built_from(octree.spec_nodes(), tags, answers) && answered_by(c0, tags, answers);
        proof {
            assert(*c0.source == s0);
            assert forall|k: int| 0 <= k < answers.len() implies answer_of(s0, tags[k], #[trigger] answers[k]) by {
                lemma_answer_same(c0, s0, tags[k], answers[k]);
            }
            assert(answered_by(s0, tags, answers));
        }
        Octree { octree, leaves: collector.leaves }
    }

    pub fn for_each_branch<F>(&self, f: F) where F: FnMut(Branch)
        requires
            forall|b: Branch| call_requires(f, (b,)),
    {
        self.octree.for_each_branch(f);
    }

    /// The branches, in the order of the nodes.
    pub fn branches(&self) -> (r: Vec<Branch>)
        ensures
            r@ == self.spec_nodes().filter(|n: Node<u32>| n is Branch).map_values(|n: Node<u32>| n->Branch_0),
    {
        let mut out: Vec<Branch> = Vec::new();
        let mut i: usize = 0;
        while i < self.octree.nodes.len()
            invariant
                i <= self.spec_nodes().len(),
                self.spec_nodes() == self.octree.nodes@,
                out@ == self.spec_nodes().take(i as int).filter(|n: Node<u32>| n is Branch).map_values(
                    |n: Node<u32>| n->Branch_0,
                ),
            decreases self.spec_nodes().len() - i,
        {
            let node = self.octree.nodes[i];
            proof {
                let s = self.spec_nodes();
                assert(s.take(i + 1).drop_last() =~= s.take(i as int));
                reveal(Seq::filter);
            }
            if let Node::Branch(branch) = node {
                out.push(branch);
            }
            i = i + 1;
        }
        proof {
            assert(self.spec_nodes().take(self.spec_nodes().len() as int) =~= self.spec_nodes());
        }
        out
    }

    /// The node at `key`, a leaf with its payload, where the octree holds it.
    pub fn get(&self, key: Key) -> (r: Option<Node<&T>>)
        ensures
            r is Some <==> self.contains(key),
            r matches Some(Node::Branch(b)) ==> self.spec_nodes()[key.0 as int] == Node::<u32>::Branch(b),
            r matches Some(Node::Leaf(x)) ==> exists|i: u32|
                self.spec_nodes()[key.0 as int] == Node::Leaf(i) && *x == self.spec_leaves()[i as int],
    {
        match self.octree.get(key) {
            None => None,
            Some(node) => match node {
                Node::Branch(branch) => Some(Node::Branch(*branch)),
                Node::Leaf(i) => {
                    let i = *i;
                    if (i as usize) < self.leaves.len() {
                        Some(Node::Leaf(&self.leaves[i as usize]))
                    } else {
                        None
                    }
                },
            },
        }
    }

    pub fn is_leaf(&self, key: Key) -> (r: bool)
        requires
            self.contains(key),
        ensures
            r == (self.spec_nodes()[key.0 as int] is Leaf),
    {
        match self.get(key) {
            Some(node) => node.is_leaf(),
            None => false,
        }
    }
}

/// The children of a branch are stored in the order of their index, next to each other,
/// from the branch's offset on.
pub proof fn law_children_in_order(b: Branch, first: u8, second: u8)
    requires
        b.spec_offset() + ones(b.spec_mask()) <= u32::MAX,
        first < second < 8,
        bit(b.spec_mask(), first),
        bit(b.spec_mask(), second),
    ensures
        b.spec_child(first) matches Some(k1) && b.spec_child(second) matches Some(k2) && b.spec_offset() <= k1.0
            < k2.0 < b.spec_offset() + ones(b.spec_mask()),
{
    lemma_ones_below_mono(b.spec_mask(), (first + 1) as nat, second as nat);
    lemma_ones_below_mono(b.spec_mask(), (second + 1) as nat, 8);
}

/// In an octree stored level by level, every child that a branch names comes after the
/// branch, and within the children that the nodes name.
pub proof fn law_child_follows<T>(nodes: Seq<Node<T>>, i: int, which: u8)
    requires
        layout(nodes),
        0 <= i < nodes.len(),
        which < 8,
        nodes[i] matches Node::Branch(b) && bit(b.spec_mask(), which),
    ensures
        nodes[i] matches Node::Branch(b) && b.spec_child(which) matches Some(k) && i < k.0 < child_start(
            nodes,
            nodes.len() as int,
        ),
{
    let b = nodes[i]->Branch_0;
    assert(nodes[i] == Node::<T>::Branch(b));
    lemma_ones_below_mono(b.spec_mask(), (which + 1) as nat, 8);
    lemma_child_start_mono(nodes, i + 1, nodes.len() as int);
}

/// In a complete octree stored level by level, every child that a branch names is a
/// node stored after the branch.
pub proof fn law_children_stored<T>(nodes: Seq<Node<T>>, i: int, which: u8)
    requires
        layout(nodes),
        complete(nodes),
        0 <= i < nodes.len(),
        which < 8,
        nodes[i] matches Node::Branch(b) && bit(b.spec_mask(), which),
    ensures
        nodes[i] matches Node::Branch(b) && b.spec_child(which) matches Some(k) && i < k.0 < nodes.len(),
{
    let b = nodes[i]->Branch_0;
    assert(nodes[i] == Node::<T>::Branch(b));
    lemma_ones_below_mono(b.spec_mask(), (which + 1) as nat, 8);
    lemma_child_start_mono(nodes, i + 1, nodes.len() as int);
}

} // verus!
