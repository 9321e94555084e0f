//! Axes and corner offsets of the chunk lattice.
use vstd::prelude::*;

verus! {

/// One of the three axes.
#[derive(Copy, Clone, PartialEq, Eq, Structural, Hash, Debug)]
pub enum AxisKind {
    X,
    Y,
    Z,
}

/// The number of an axis: 0 for x, 1 for y, 2 for z.
pub open spec fn axis_index(axis: AxisKind) -> int {
    match axis {
        AxisKind::X => 0,
        AxisKind::Y => 1,
        AxisKind::Z => 2,
    }
}

impl AxisKind {
    /// The three axes, in order.
    pub fn all() -> (r: [AxisKind; 3])
        ensures
            r[0] == AxisKind::X,
            r[1] == AxisKind::Y,
            r[2] == AxisKind::Z,
    {
        [AxisKind::X, AxisKind::Y, AxisKind::Z]
    }
}

/// Whether the offset `bits` steps along `axis` (0, 1 or 2): bit `axis` of `bits`.
pub open spec fn has_axis(bits: u8, axis: int) -> bool {
    if axis == 0 {
        bits % 2 == 1
    } else if axis == 1 {
        (bits / 2) % 2 == 1
    } else {
        (bits / 4) % 2 == 1
    }
}

/// The offset that steps along the axes where `x`, `y` and `z` hold.
pub open spec fn offset_bits(x: bool, y: bool, z: bool) -> u8 {
    ((if x { 1u8 } else { 0u8 }) + (if y { 2u8 } else { 0u8 }) + (if z { 4u8 } else { 0u8 })) as u8
}

/// Lattice coordinates.
#[derive(Copy, Clone, PartialEq, Eq, Structural, Hash, Debug)]
pub struct Coords {
    pub x: u32,
    pub y: u32,
    pub z: u32,
}

/// An offset of zero or one step along each axis, from a cell to one of the cells that
/// share a face, an edge or a corner with it on its positive sides.
#[derive(Copy, Clone, PartialEq, Eq, Structural, Hash, Debug)]
pub struct Offset(u8);

impl Offset {
    #[verifier::type_invariant]
    spec fn inv(self) -> bool {
        self.0 < 8
    }

    /// Bit `a` of the offset is set when it steps along axis `a`.
    pub closed spec fn bits(self) -> u8 {
        self.0
    }

    /// The offset whose bits are `b`.
    pub closed spec fn from_bits(b: u8) -> Offset {
        Offset(b)
    }

    pub proof fn lemma_from_bits(o: Offset)
        ensures
            Offset::from_bits(o.bits()) == o,
    {
    }

    /// The single step along `axis`.
    pub fn new(axis: AxisKind) -> (r: Offset)
        ensures
            r.bits() == offset_bits(axis == AxisKind::X, axis == AxisKind::Y, axis == AxisKind::Z),
    {
        match axis {
            AxisKind::X => Offset(1),
            AxisKind::Y => Offset(2),
            AxisKind::Z => Offset(4),
        }
    }

    /// The eight offsets, in the order of their bits.
    pub fn enumerate() -> (r: Vec<Offset>)
        ensures
            r@.len() == 8,
            forall|i: int| 0 <= i < 8 ==> (#[trigger] r@[i]).bits() == i,
    {
        let mut out: Vec<Offset> = Vec::new();
        let mut i: u8 = 0;
        while i < 8
            invariant
                i <= 8,
                out@.len() == i,
                forall|k: int| 0 <= k < i ==> (#[trigger] out@[k]).bits() == k,
            decreases 8 - i,
        {
            out.push(Offset(i));
            i = i + 1;
        }
        out
    }

    /// The offset that steps along the axes where `x`, `y` and `z` hold.
    pub fn from_components(x: bool, y: bool, z: bool) -> (r: Offset)
        ensures
            r.bits() == offset_bits(x, y, z),
    {
        let bx: u8 = if x { 1 } else { 0 };
        let by: u8 = if y { 1 } else { 0 };
        let bz: u8 = if z { 1 } else { 0 };
        let by2: u8 = by * 2;
        let bz4: u8 = bz * 4;
        let bits: u8 = bx | by2 | bz4;
        assert(bits == bx + by2 + bz4) by (bit_vector)
            requires
                bx <= 1 && (by2 == 0 || by2 == 2) && (bz4 == 0 || bz4 == 4),
                bits == bx | by2 | bz4,
        ;
        Offset(bits)
    }

    /// The offset as lattice coordinates: 1 along each axis it steps along, else 0.
    pub fn as_coords(self) -> (r: Coords)
        ensures
            r.x == (if has_axis(self.bits(), 0) { 1u32 } else { 0u32 }),
            r.y == (if has_axis(self.bits(), 1) { 1u32 } else { 0u32 }),
            r.z == (if has_axis(self.bits(), 2) { 1u32 } else { 0u32 }),
    {
        let b = self.0;
        assert((b & 1 != 0) == (b % 2 == 1)) by (bit_vector);
        assert((b & 2 != 0) == ((b / 2) % 2 == 1)) by (bit_vector);
        assert((b & 4 != 0) == ((b / 4) % 2 == 1)) by (bit_vector);
        let x: u32 = if b & 1 != 0 { 1 } else { 0 };
        let y: u32 = if b & 2 != 0 { 1 } else { 0 };
        let z: u32 = if b & 4 != 0 { 1 } else { 0 };
        Coords { x, y, z }
    }

    pub fn as_u8(self) -> (r: u8)
        ensures
            r == self.bits(),
            r < 8,
    {
        proof {
            use_type_invariant(&self);
        }
        self.0
    }

    /// The offset that steps along the axes that either of `self` and `rhs` steps along.
    pub closed spec fn joined(self, rhs: Offset) -> Offset {
        Offset(self.0 | rhs.0)
    }

    /// The offset that steps along the axes that either of `self` and `rhs` steps along.
    pub fn union(self, rhs: Offset) -> (r: Offset)
        ensures
            r == self.joined(rhs),
            forall|a: int| 0 <= a < 3 ==> has_axis(r.bits(), a) == (has_axis(self.bits(), a) || has_axis(rhs.bits(), a)),
    {
        proof {
            use_type_invariant(&self);
            use_type_invariant(&rhs);
        }
        let (a, b) = (self.0, rhs.0);
        let c: u8 = a | b;
        assert(c < 8 && (c % 2 == 1) == (a % 2 == 1 || b % 2 == 1) && ((c / 2) % 2 == 1) == ((a / 2) % 2 == 1 || (b
            / 2) % 2 == 1) && ((c / 4) % 2 == 1) == ((a / 4) % 2 == 1 || (b / 4) % 2 == 1)) by (bit_vector)
            requires
                a < 8 && b < 8,
                c == a | b,
        ;
        Offset(c)
    }
}

impl core::ops::BitOr for Offset {
    type Output = Offset;

    fn bitor(self, rhs: Offset) -> (r: Offset)
        ensures
            forall|a: int| 0 <= a < 3 ==> has_axis(r.bits(), a) == (has_axis(self.bits(), a) || has_axis(rhs.bits(), a)),
    {
        self.union(rhs)
    }
}

impl vstd::std_specs::ops::BitOrSpecImpl for Offset {
    open spec fn obeys_bitor_spec() -> bool {
        true
    }

    open spec fn bitor_req(self, rhs: Offset) -> bool {
        true
    }

    open spec fn bitor_spec(self, rhs: Offset) -> Offset {
        self.joined(rhs)
    }
}

/// An offset's coordinates give back the components it was made from.
pub proof fn law_offset_components(x: bool, y: bool, z: bool)
    ensures
        has_axis(offset_bits(x, y, z), 0) == x,
        has_axis(offset_bits(x, y, z), 1) == y,
        has_axis(offset_bits(x, y, z), 2) == z,
        offset_bits(x, y, z) < 8,
{
}

/// An offset is made from its components.
pub proof fn law_offset_from_coords(bits: u8)
    requires
        bits < 8,
    ensures
        offset_bits(has_axis(bits, 0), has_axis(bits, 1), has_axis(bits, 2)) == bits,
{
}

} // verus!
