//! The values that programs take and give, as 32-bit words.
use crate::tape::Type;
use vstd::prelude::*;

verus! {

/// The type of a program value.
#[derive(Copy, Clone, PartialEq, Eq, Structural, Debug)]
pub enum ValueType {
    I32,
    F32,
}

/// A value as the 32 bits that hold it: an `i32` in two's complement, an `f32` by its
/// IEEE 754 bits.
#[derive(Copy, Clone, PartialEq, Eq, Structural, Debug)]
pub struct RawValue(pub u32);

/// The bits of `value` in two's complement.
pub open spec fn i32_bits(value: i32) -> u32 {
    if value >= 0 {
        value as u32
    } else {
        (value + 0x1_0000_0000int) as u32
    }
}

impl RawValue {
    pub fn zero() -> (r: RawValue)
        ensures
            r.0 == 0,
    {
        RawValue(0)
    }

    pub fn from_i32(value: i32) -> (r: RawValue)
        ensures
            r.0 == i32_bits(value),
    {
        let bits = value as u32;
        assert(bits == i32_bits(value)) by (bit_vector)
            requires
                bits == value as u32,
        ;
        RawValue(bits)
    }

    pub fn as_i32(self) -> (r: i32)
        ensures
            i32_bits(r) == self.0,
    {
        let value = self.0 as i32;
        let bits = self.0;
        assert(i32_bits(value) == bits) by (bit_vector)
            requires
                value == bits as i32,
        ;
        value
    }

    /// The value whose bits are `bits` (for an `f32`, those of `f32::to_bits`).
    pub fn from_bits(bits: u32) -> (r: RawValue)
        ensures
            r.0 == bits,
    {
        RawValue(bits)
    }

    pub fn bits(self) -> (r: u32)
        ensures
            r == self.0,
    {
        self.0
    }
}

/// A raw value read as an `i32` gives back the `i32` it was made from.
pub proof fn law_i32_round_trip(value: i32, back: i32)
    requires
        i32_bits(back) == i32_bits(value),
    ensures
        back == value,
{
    assert(back == value) by (bit_vector)
        requires
            (if back >= 0 { back as u32 } else { (back + 0x1_0000_0000int) as u32 }) == (if value >= 0 {
                value as u32
            } else {
                (value + 0x1_0000_0000int) as u32
            }),
    ;
}

/// A value with its type.
#[derive(Copy, Clone, PartialEq, Eq, Structural, Debug)]
pub struct TypedValue {
    pub value: RawValue,
    pub ty: ValueType,
}

impl TypedValue {
    pub fn ty(&self) -> (r: ValueType)
        ensures
            r == self.ty,
    {
        self.ty
    }

    pub fn value(&self) -> (r: RawValue)
        ensures
            r == self.value,
    {
        self.value
    }

    /// The `f32` whose bits are `bits`.
    pub fn from_f32_bits(bits: u32) -> (r: TypedValue)
        ensures
            r.value.0 == bits,
            r.ty == ValueType::F32,
    {
        TypedValue { value: RawValue::from_bits(bits), ty: ValueType::F32 }
    }
}

impl From<i32> for TypedValue {
    fn from(value: i32) -> (r: TypedValue) {
        TypedValue { value: RawValue::from_i32(value), ty: ValueType::I32 }
    }
}

impl vstd::std_specs::convert::FromSpecImpl<i32> for TypedValue {
    open spec fn obeys_from_spec() -> bool {
        true
    }

    open spec fn from_spec(value: i32) -> TypedValue {
        TypedValue { value: RawValue(i32_bits(value)), ty: ValueType::I32 }
    }
}

/// The tape type of values of a program type.
pub fn lower_type(ty: ValueType) -> (r: Type)
    ensures
        r == (match ty {
            ValueType::I32 => Type::I32,
            ValueType::F32 => Type::F32,
        }),
{
    match ty {
        ValueType::I32 => Type::I32,
        ValueType::F32 => Type::F32,
    }
}

} // verus!
