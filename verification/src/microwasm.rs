//! The parts of the intermediate language that the backend works on: types, constants and
//! branch targets.

use vstd::prelude::*;

verus! {

/// An IEEE binary32 value, held as its bit pattern.
#[derive(Copy, Clone, Debug, Hash, PartialEq, Eq, Structural)]
pub struct Ieee32(pub u32);

impl Ieee32 {
    pub fn bits(self) -> (bits: u32)
        ensures
            bits == self.0,
    {
        self.0
    }
}

/// An IEEE binary64 value, held as its bit pattern.
#[derive(Copy, Clone, Debug, Hash, PartialEq, Eq, Structural)]
pub struct Ieee64(pub u64);

impl Ieee64 {
    pub fn bits(self) -> (bits: u64)
        ensures
            bits == self.0,
    {
        self.0
    }
}

/// The type of a value, without the signedness of integers.
#[derive(Copy, Clone, Debug, Hash, PartialEq, Eq, Structural)]
pub enum SignlessType {
    I32,
    I64,
    F32,
    F64,
}

/// A constant.
#[derive(Copy, Clone, Debug, Hash, PartialEq, Eq, Structural)]
pub enum Value {
    I32(i32),
    I64(i64),
    F32(Ieee32),
    F64(Ieee64),
}

impl Value {
    /// The 64 bits by which a register or a stack slot holds this constant. Constants of 32 bits
    /// have zeros in the upper half.
    pub open spec fn spec_as_bytes(self) -> i64 {
        match self {
            Value::I32(val) => val as u32 as i64,
            Value::I64(val) => val,
            Value::F32(val) => val.0 as i64,
            Value::F64(val) => val.0 as i64,
        }
    }

    #[verifier::when_used_as_spec(spec_as_bytes)]
    pub fn as_bytes(self) -> (bytes: i64)
        ensures
            bytes == self.spec_as_bytes(),
    {
        match self {
            Value::I32(val) => val as u32 as i64,
            Value::I64(val) => val,
            Value::F32(val) => val.bits() as i64,
            Value::F64(val) => val.bits() as i64,
        }
    }

    pub open spec fn spec_as_int(self) -> Option<i64> {
        match self {
            Value::I32(val) => Some(val as i64),
            Value::I64(val) => Some(val),
            _ => None,
        }
    }

    /// The number that this constant stands for, if it is an integer.
    #[verifier::when_used_as_spec(spec_as_int)]
    pub fn as_int(self) -> (int_val: Option<i64>)
        ensures
            int_val == self.spec_as_int(),
    {
        match self {
            Value::I32(val) => Some(val as i64),
            Value::I64(val) => Some(val),
            _ => None,
        }
    }

    pub open spec fn spec_as_i32(self) -> Option<i32> {
        match self {
            Value::I32(val) => Some(val),
            _ => None,
        }
    }

    #[verifier::when_used_as_spec(spec_as_i32)]
    pub fn as_i32(self) -> (val: Option<i32>)
        ensures
            val == self.spec_as_i32(),
    {
        match self {
            Value::I32(val) => Some(val),
            _ => None,
        }
    }

    pub open spec fn spec_as_i64(self) -> Option<i64> {
        match self {
            Value::I64(val) => Some(val),
            _ => None,
        }
    }

    #[verifier::when_used_as_spec(spec_as_i64)]
    pub fn as_i64(self) -> (val: Option<i64>)
        ensures
            val == self.spec_as_i64(),
    {
        match self {
            Value::I64(val) => Some(val),
            _ => None,
        }
    }

    pub open spec fn spec_as_f32(self) -> Option<Ieee32> {
        match self {
            Value::F32(val) => Some(val),
            _ => None,
        }
    }

    #[verifier::when_used_as_spec(spec_as_f32)]
    pub fn as_f32(self) -> (val: Option<Ieee32>)
        ensures
            val == self.spec_as_f32(),
    {
        match self {
            Value::F32(val) => Some(val),
            _ => None,
        }
    }

    pub open spec fn spec_as_f64(self) -> Option<Ieee64> {
        match self {
            Value::F64(val) => Some(val),
            _ => None,
        }
    }

    #[verifier::when_used_as_spec(spec_as_f64)]
    pub fn as_f64(self) -> (val: Option<Ieee64>)
        ensures
            val == self.spec_as_f64(),
    {
        match self {
            Value::F64(val) => Some(val),
            _ => None,
        }
    }
}

/// Where a branch goes.
#[derive(Copy, Clone, Debug, Hash, PartialEq, Eq, Structural)]
pub enum BrTarget<L> {
    /// Out of the function.
    Return,
    /// To a label.
    Label(L),
}

} // verus!
