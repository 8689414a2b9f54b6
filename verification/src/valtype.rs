//! The closed domain of value types and their single-byte wire tags.

use vstd::prelude::*;

verus! {

/// The seven value types a function signature may mention: four numeric
/// scalar widths, one packed-vector width, and two reference kinds.
#[derive(Clone, Copy, PartialEq, Eq, Structural, Debug)]
pub enum ValType {
    I32,
    I64,
    F32,
    F64,
    V128,
    FuncRef,
    ExternRef,
}

/// The wire tag of each value type.
pub open spec fn spec_tag_of(t: ValType) -> u8 {
    match t {
        ValType::I32 => 0x7f,
        ValType::I64 => 0x7e,
        ValType::F32 => 0x7d,
        ValType::F64 => 0x7c,
        ValType::V128 => 0x7b,
        ValType::FuncRef => 0x70,
        ValType::ExternRef => 0x6f,
    }
}

/// The value type a wire tag stands for, `None` for a tag outside the
/// supported domain.
pub open spec fn spec_valtype_of_tag(b: u8) -> Option<ValType> {
    if b == 0x7f {
        Some(ValType::I32)
    } else if b == 0x7e {
        Some(ValType::I64)
    } else if b == 0x7d {
        Some(ValType::F32)
    } else if b == 0x7c {
        Some(ValType::F64)
    } else if b == 0x7b {
        Some(ValType::V128)
    } else if b == 0x70 {
        Some(ValType::FuncRef)
    } else if b == 0x6f {
        Some(ValType::ExternRef)
    } else {
        None
    }
}

/// The value type each draw from the uniform range `0..=6` selects:
/// the seven draw values map onto the seven types, one each.
pub open spec fn spec_valtype_of_draw(d: nat) -> ValType {
    if d == 0 {
        ValType::I32
    } else if d == 1 {
        ValType::I64
    } else if d == 2 {
        ValType::F32
    } else if d == 3 {
        ValType::F64
    } else if d == 4 {
        ValType::V128
    } else if d == 5 {
        ValType::ExternRef
    } else {
        ValType::FuncRef
    }
}

/// The draw table is injective: distinct draws in `0..=6` select
/// distinct value types, so every type is drawn with equal weight.
pub proof fn lemma_draw_injective(d1: nat, d2: nat)
    requires
        d1 <= 6,
        d2 <= 6,
        spec_valtype_of_draw(d1) == spec_valtype_of_draw(d2),
    ensures
        d1 == d2,
{
}

impl ValType {
    /// The value type a bounded draw selects.
    pub fn from_draw(d: usize) -> (r: ValType)
        ensures
            r == spec_valtype_of_draw(d as nat),
    {
        match d {
            0 => ValType::I32,
            1 => ValType::I64,
            2 => ValType::F32,
            3 => ValType::F64,
            4 => ValType::V128,
            5 => ValType::ExternRef,
            _ => ValType::FuncRef,
        }
    }

    /// The single-byte wire tag of this value type.
    pub fn tag(self) -> (r: u8)
        ensures
            r == spec_tag_of(self),
    {
        match self {
            ValType::I32 => 0x7f,
            ValType::I64 => 0x7e,
            ValType::F32 => 0x7d,
            ValType::F64 => 0x7c,
            ValType::V128 => 0x7b,
            ValType::FuncRef => 0x70,
            ValType::ExternRef => 0x6f,
        }
    }

    /// The value type encoded by a wire tag, `None` when the tag lies
    /// outside the supported domain.
    pub fn from_tag(b: u8) -> (r: Option<ValType>)
        ensures
            r == spec_valtype_of_tag(b),
    {
        if b == 0x7f {
            Some(ValType::I32)
        } else if b == 0x7e {
            Some(ValType::I64)
        } else if b == 0x7d {
            Some(ValType::F32)
        } else if b == 0x7c {
            Some(ValType::F64)
        } else if b == 0x7b {
            Some(ValType::V128)
        } else if b == 0x70 {
            Some(ValType::FuncRef)
        } else if b == 0x6f {
            Some(ValType::ExternRef)
        } else {
            None
        }
    }
}

} // verus!
