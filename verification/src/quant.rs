//! Quantized cells of the unit cube: a cell at level `l` is one of the `8^l` cubes of side
//! `2^-l`, named by its integer coordinates, and a marker bit above the x coordinate
//! gives the level.
use crate::octree::ChildIndex;
use vstd::prelude::*;

verus! {

/// `2` to the power `l`.
pub open spec fn exp2(l: nat) -> nat
    decreases l,
{
    if l == 0 {
        1
    } else {
        2 * exp2((l - 1) as nat)
    }
}

/// The position of the highest set bit of `n`.
pub open spec fn log2(n: nat) -> nat
    decreases n,
{
    if n <= 1 {
        0
    } else {
        1 + log2(n / 2)
    }
}

proof fn lemma_log2_range(n: nat)
    requires
        n >= 1,
    ensures
        exp2(log2(n)) <= n < exp2(log2(n) + 1),
    decreases n,
{
    if n > 1 {
        lemma_log2_range(n / 2);
    }
}

proof fn lemma_exp2_mono(a: nat, b: nat)
    requires
        a <= b,
    ensures
        exp2(a) <= exp2(b),
    decreases b - a,
{
    if a < b {
        lemma_exp2_mono(a, (b - 1) as nat);
    }
}

proof fn lemma_shl_one(l: u16)
    requires
        l <= 10,
    ensures
        (1u16 << l) as nat == exp2(l as nat),
        (1u16 << l) as nat * 2 <= u16::MAX,
    decreases l,
{
    if l == 0 {
        assert(1u16 << 0u16 == 1u16) by (bit_vector);
    } else {
        let k = (l - 1) as u16;
        lemma_shl_one(k);
        assert(1u16 << l == (1u16 << k) * 2) by (bit_vector)
            requires
                k < 10,
                l == k + 1,
        ;
    }
    lemma_exp2_mono(l as nat, 10);
    reveal_with_fuel(exp2, 11);
}

/// A quantized cell of the unit cube.
#[derive(Copy, Clone, PartialEq, Eq, Structural, Hash, Debug)]
pub struct Quant {
    raw_x: u16,
    y: u16,
    z: u16,
}

impl Quant {
    /// Maximum number of consecutive subdivisions.
    pub const MAX_SUBDIV: u8 = 10;

    #[verifier::type_invariant]
    spec fn inv(self) -> bool {
        &&& 1 <= self.raw_x < 2048
        &&& (self.y as nat) < exp2(log2(self.raw_x as nat))
        &&& (self.z as nat) < exp2(log2(self.raw_x as nat))
    }

    /// How many times the unit cube was divided to give the cell.
    pub closed spec fn spec_level(self) -> nat {
        log2(self.raw_x as nat)
    }

    /// The cell's integer coordinates at its level.
    pub closed spec fn spec_x(self) -> nat {
        (self.raw_x - exp2(self.spec_level())) as nat
    }

    pub closed spec fn spec_y(self) -> nat {
        self.y as nat
    }

    pub closed spec fn spec_z(self) -> nat {
        self.z as nat
    }

    proof fn lemma_valid(self)
        requires
            self.inv(),
        ensures
            self.spec_level() <= 10,
            self.spec_x() < exp2(self.spec_level()),
            self.spec_y() < exp2(self.spec_level()),
            self.spec_z() < exp2(self.spec_level()),
            self.raw_x == exp2(self.spec_level()) + self.spec_x(),
    {
        lemma_log2_range(self.raw_x as nat);
        if log2(self.raw_x as nat) > 10 {
            lemma_exp2_mono(11, log2(self.raw_x as nat));
            reveal_with_fuel(exp2, 12);
        }
    }

    /// The whole unit cube.
    pub fn root() -> (r: Quant)
        ensures
            r.spec_level() == 0,
            r.spec_x() == 0 && r.spec_y() == 0 && r.spec_z() == 0,
    {
        proof {
            reveal_with_fuel(exp2, 1);
        }
        Quant { raw_x: 1, y: 0, z: 0 }
    }

    /// The child `index` of the cell: bit 0 of the index picks the upper half in x, bit 1
    /// in y and bit 2 in z. `None` at the deepest level.
    pub fn child(self, index: ChildIndex) -> (r: Option<Quant>)
        ensures
            r is None <==> self.spec_level() == Quant::MAX_SUBDIV,
            r matches Some(c) ==> {
                &&& c.spec_level() == self.spec_level() + 1
                &&& c.spec_x() == 2 * self.spec_x() + index.spec_value() % 2
                &&& c.spec_y() == 2 * self.spec_y() + index.spec_value() / 2 % 2
                &&& c.spec_z() == 2 * self.spec_z() + index.spec_value() / 4 % 2
            },
    {
        proof {
            use_type_invariant(self);
            self.lemma_valid();
        }
        if self.level() == Quant::MAX_SUBDIV {
            return None;
        }
        let which = index.value();
        let bx: u16 = if which & 0x1 != 0 { 1 } else { 0 };
        let by: u16 = if which & 0x2 != 0 { 1 } else { 0 };
        let bz: u16 = if which & 0x4 != 0 { 1 } else { 0 };
        let raw_x = self.raw_x;
        let y = self.y;
        let z = self.z;
        proof {
            assert(bx == which % 2 && by == which / 2 % 2 && bz == which / 4 % 2) by (bit_vector)
                requires
                    which < 8,
                    bx == (if which & 0x1 != 0 { 1u16 } else { 0u16 }),
                    by == (if which & 0x2 != 0 { 1u16 } else { 0u16 }),
                    bz == (if which & 0x4 != 0 { 1u16 } else { 0u16 }),
            ;
            assert((raw_x << 1u16) | bx == raw_x * 2 + bx) by (bit_vector)
                requires
                    raw_x < 2048,
                    bx <= 1,
            ;
            assert((y << 1u16) | by == y * 2 + by) by (bit_vector)
                requires
                    y < 2048,
                    by <= 1,
            ;
            assert((z << 1u16) | bz == z * 2 + bz) by (bit_vector)
                requires
                    z < 2048,
                    bz <= 1,
            ;
            lemma_exp2_mono(self.spec_level() + 1, 10);
            reveal_with_fuel(exp2, 11);
        }
        let child = Quant { raw_x: (raw_x << 1u16) | bx, y: (y << 1u16) | by, z: (z << 1u16) | bz };
        proof {
            assert(log2(child.raw_x as nat) == 1 + log2(raw_x as nat)) by {
                assert(child.raw_x as nat / 2 == raw_x as nat);
            }
        }
        Some(child)
    }

    /// How many times the unit cube was divided to give the cell.
    pub fn level(self) -> (r: u8)
        ensures
            r == self.spec_level(),
    {
        proof {
            use_type_invariant(self);
            self.lemma_valid();
        }
        quant_level(self.raw_x)
    }

    /// The cell's integer coordinates at its level, and the level.
    pub fn parts_level(self) -> (r: ((u16, u16, u16), u8))
        ensures
            r.0.0 == self.spec_x(),
            r.0.1 == self.spec_y(),
            r.0.2 == self.spec_z(),
            r.1 == self.spec_level(),
    {
        proof {
            use_type_invariant(self);
            self.lemma_valid();
        }
        let level = self.level();
        let raw_x = self.raw_x;
        let l = level as u16;
        proof {
            lemma_shl_one(l);
            let top = 1u16 << l;
            assert(raw_x ^ top == raw_x - top) by (bit_vector)
                requires
                    l <= 10,
                    top == 1u16 << l,
                    top <= raw_x,
                    raw_x < top * 2,
            ;
        }
        ((raw_x ^ (1u16 << l), self.y, self.z), level)
    }
}

/// The position of the highest set bit of `raw_x`, halving it down to one.
fn quant_level(raw_x: u16) -> (r: u8)
    requires
        1 <= raw_x,
        log2(raw_x as nat) <= 10,
    ensures
        r == log2(raw_x as nat),
{
    let mut v = raw_x;
    let mut level: u8 = 0;
    while v > 1
        invariant
            1 <= v,
            level + log2(v as nat) == log2(raw_x as nat),
            log2(raw_x as nat) <= 10,
        decreases v,
    {
        v = v / 2;
        level = level + 1;
    }
    level
}

proof fn lemma_exp2_adds(a: nat, b: nat)
    ensures
        exp2(a) * exp2(b) == exp2(a + b),
    decreases a,
{
    if a > 0 {
        let a1 = (a - 1) as nat;
        lemma_exp2_adds(a1, b);
        let p = exp2(a1) * exp2(b);
        assert(exp2(a) == 2 * exp2(a1));
        assert(exp2(a) * exp2(b) == 2 * p) by (nonlinear_arith)
            requires
                exp2(a) == 2 * exp2(a1),
                p == exp2(a1) * exp2(b),
        ;
        assert(a1 + b == a + b - 1);
        assert(exp2(a + b) == 2 * exp2(a1 + b));
    } else {
        assert(exp2(a) == 1);
        assert(exp2(a) * exp2(b) == exp2(b)) by (nonlinear_arith)
            requires
                exp2(a) == 1,
        ;
        assert(a + b == b);
    }
}

proof fn lemma_exp2_23()
    ensures
        exp2(23) == 0x80_0000,
{
    reveal_with_fuel(exp2, 24);
}

/// Shifting left by `s` multiplies by `2^s`, where the product fits.
proof fn lemma_shl_is_mul(x: u32, s: u32)
    requires
        s <= 23,
        x * exp2(s as nat) <= 0x80_0000,
    ensures
        (x << s) as nat == x * exp2(s as nat),
    decreases s,
{
    if s == 0 {
        assert(x << 0u32 == x) by (bit_vector);
        assert(exp2(s as nat) == 1);
        assert(x * exp2(s as nat) == x) by (nonlinear_arith)
            requires
                exp2(s as nat) == 1,
        ;
    } else {
        let t = (s - 1) as u32;
        assert(x * exp2(t as nat) <= 0x80_0000) by (nonlinear_arith)
            requires
                x * exp2(s as nat) <= 0x80_0000,
                exp2(s as nat) == 2 * exp2(t as nat),
        ;
        lemma_shl_is_mul(x, t);
        let y = x << t;
        assert(x << s == (y << 1u32)) by (bit_vector)
            requires
                y == x << t,
                s == t + 1,
                s <= 23,
        ;
        assert((y << 1u32) == y * 2) by (bit_vector)
            requires
                y <= 0x80_0000,
        ;
        assert(x * exp2(s as nat) == 2 * (x * exp2(t as nat))) by (nonlinear_arith)
            requires
                exp2(s as nat) == 2 * exp2(t as nat),
        ;
        assert(y as nat == x * exp2(t as nat));
    }
}

/// The bits of the `f32` that is `2` to the power `exp`.
pub fn f32_exp2_small_bits(exp: i8) -> (r: u32)
    requires
        exp >= -126,
    ensures
        r == (exp + 127) * 0x80_0000,
{
    let biased = (exp as i32 + 127) as u32;
    proof {
        assert(biased << 23u32 == biased * 0x80_0000) by (bit_vector)
            requires
                biased <= 254,
        ;
    }
    biased << 23u32
}

/// The bits of the `f32` that is one plus the fraction `num / 2^len`; subtracting one
/// gives the fraction.
pub fn fract_u32_bits(num: u32, len: u32) -> (r: u32)
    requires
        (num == 1 && len == 0) || (len <= 23 && (num as nat) < exp2(len as nat)),
    ensures
        r == 127 * 0x80_0000 + num * exp2((23 - len) as nat),
{
    let shift = 23u32 - len;
    proof {
        if len > 0 {
            lemma_exp2_mono(len as nat, 23);
        }
        lemma_exp2_adds(len as nat, shift as nat);
        lemma_exp2_23();
        assert(num * exp2(shift as nat) <= 0x80_0000) by (nonlinear_arith)
            requires
                (num == 1 && len == 0) || (num as nat) < exp2(len as nat),
                exp2(len as nat) * exp2(shift as nat) == 0x80_0000,
                len == 0 ==> exp2(len as nat) == 1,
        ;
        lemma_shl_is_mul(num, shift);
        assert(127u32 << 23u32 == 0x3f80_0000u32) by (bit_vector);
    }
    let fract = num << shift;
    (127u32 << 23u32) + fract
}

} // verus!
