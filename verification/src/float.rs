//! Operators on floating-point numbers.
//!
//! Constants are bit patterns here. Where an operator rounds, the result for constants is not
//! computed here: the caller asks for the constants and hands in the result.

use vstd::prelude::*;

use crate::arith::BinOp;
use crate::branches::SharedLabel;
use crate::context::{stack_slot, Context};
use crate::insn::{Insn, Operand, Precision, SseOp, Width};
use crate::laws::float::{lemma_clears_sign, lemma_negates};
use crate::laws::rounding::{lemma_combines_f32, lemma_combines_f64, lemma_converts};
use crate::location::ValueLocation;
use crate::microwasm::{Ieee32, Ieee64, Value};
use crate::module_context::ModuleContext;
use crate::registers::{GPRType, RegId};
use crate::state::State;

verus! {

/// The sign of an `f32`.
pub const SIGN_F32: u32 = 0x8000_0000;

/// The sign of an `f64`.
pub const SIGN_F64: u64 = 0x8000_0000_0000_0000;

impl State {
    /// Applies an operator to two `f32` values. `folded` is the result if both are constants.
    pub open spec fn binop_f32(self, op: SseOp, folded: Option<Ieee32>) -> State {
        self.need(self.both_const(BinOp::F32(op)) ==> folded is Some).binop(
            BinOp::F32(op),
            Value::F32(folded->0),
        )
    }

    /// Applies an operator to two `f64` values. `folded` is the result if both are constants.
    pub open spec fn binop_f64(self, op: SseOp, folded: Option<Ieee64>) -> State {
        self.need(self.both_const(BinOp::F64(op)) ==> folded is Some).binop(
            BinOp::F64(op),
            Value::F64(folded->0),
        )
    }

    /// Changes the sign of an `f32`.
    pub open spec fn neg_f32(self) -> State {
        let (s, val) = self.pop();
        match val.imm_f32() {
            Some(i) => s.push(ValueLocation::Immediate(Value::F32(Ieee32(i.0 ^ SIGN_F32)))),
            None => {
                let (s, reg) = s.into_temp_reg(Some(GPRType::Rx), val);
                let (s, label) = s.shared_label(SharedLabel::NegF32);
                s.emit(
                    Insn::XorConst { prec: Precision::Single, dst: reg.id(), label },
                ).push(ValueLocation::Reg(reg))
            },
        }
    }

    /// Changes the sign of an `f64`.
    pub open spec fn neg_f64(self) -> State {
        let (s, val) = self.pop();
        match val.imm_f64() {
            Some(i) => s.push(ValueLocation::Immediate(Value::F64(Ieee64(i.0 ^ SIGN_F64)))),
            None => {
                let (s, reg) = s.into_temp_reg(Some(GPRType::Rx), val);
                let (s, label) = s.shared_label(SharedLabel::NegF64);
                s.emit(
                    Insn::XorConst { prec: Precision::Double, dst: reg.id(), label },
                ).push(ValueLocation::Reg(reg))
            },
        }
    }

    /// Clears the sign of an `f32`.
    pub open spec fn abs_f32(self) -> State {
        let (s, val) = self.pop();
        match val.imm_f32() {
            Some(i) => s.push(ValueLocation::Immediate(Value::F32(Ieee32(i.0 & !SIGN_F32)))),
            None => {
                let (s, reg) = s.into_temp_reg(Some(GPRType::Rx), val);
                let (s, label) = s.shared_label(SharedLabel::AbsF32);
                s.emit(Insn::AndConst { dst: reg.id(), label }).push(ValueLocation::Reg(reg))
            },
        }
    }

    /// Clears the sign of an `f64`.
    pub open spec fn abs_f64(self) -> State {
        let (s, val) = self.pop();
        match val.imm_f64() {
            Some(i) => s.push(ValueLocation::Immediate(Value::F64(Ieee64(i.0 & !SIGN_F64)))),
            None => {
                let (s, reg) = s.into_temp_reg(Some(GPRType::Rx), val);
                let (s, label) = s.shared_label(SharedLabel::AbsF64);
                s.emit(Insn::AndConst { dst: reg.id(), label }).push(ValueLocation::Reg(reg))
            },
        }
    }

    /// Rounds an `f32` to an `i32`. A constant keeps its bits.
    pub open spec fn truncate_f32(self) -> State {
        let (s, val) = self.pop();
        match val {
            ValueLocation::Immediate(imm) => s.need(imm.as_f32() is Some).push(
                ValueLocation::Immediate(Value::I32((imm.as_f32()->0).0 as i32)),
            ),
            ValueLocation::Stack(o) => {
                let s = s.need(s.has_slot(o));
                let (t, temp) = s.take(GPRType::Rq);
                t.emit(Insn::Cvttss2si { dst: temp.id(), src: s.slot(o) }).push(
                    ValueLocation::Reg(temp),
                )
            },
            ValueLocation::Reg(_) => {
                let (s, reg) = s.into_reg(Some(GPRType::Rx), val);
                let (s, temp) = s.take(GPRType::Rq);
                s.emit(Insn::Cvttss2si { dst: temp.id(), src: Operand::Gpr(reg) }).release(
                    reg,
                ).push(ValueLocation::Reg(temp))
            },
        }
    }

    /// Converts a signed `i32` to an `f32`. `folded` is the result for a constant.
    pub open spec fn convert_i32_s(self, folded: Option<Ieee32>) -> State {
        let (s, val) = self.pop();
        match val {
            ValueLocation::Immediate(imm) => s.need(imm.as_i32() is Some && folded is Some).push(
                ValueLocation::Immediate(Value::F32(folded->0)),
            ),
            ValueLocation::Stack(o) => {
                let s = s.need(s.has_slot(o));
                let (t, temp) = s.take(GPRType::Rx);
                t.emit(Insn::Cvtsi2ss { w: Width::D, dst: temp.id(), src: s.slot(o) }).push(
                    ValueLocation::Reg(temp),
                )
            },
            ValueLocation::Reg(_) => {
                let (s, reg) = s.into_reg(Some(GPRType::Rq), val);
                let (s, temp) = s.take(GPRType::Rx);
                s.emit(
                    Insn::Cvtsi2ss { w: Width::D, dst: temp.id(), src: Operand::Gpr(reg) },
                ).release(reg).push(ValueLocation::Reg(temp))
            },
        }
    }

    /// Converts an `i32` without sign to an `f32`. `folded` is the result for a constant.
    pub open spec fn convert_i32_u(self, folded: Option<Ieee32>) -> State {
        let (s, val) = self.pop();
        match val {
            ValueLocation::Immediate(imm) => s.need(imm.as_i32() is Some && folded is Some).push(
                ValueLocation::Immediate(Value::F32(folded->0)),
            ),
            _ => {
                let (s, reg) = s.into_reg(Some(GPRType::Rq), val);
                let (s, temp) = s.take(GPRType::Rx);
                s.emit(
                    Insn::Mov { w: Width::Q, dst: Operand::Gpr(reg), src: Operand::Gpr(reg) },
                ).emit(
                    Insn::Cvtsi2ss { w: Width::Q, dst: temp.id(), src: Operand::Gpr(reg) },
                ).release(reg).push(ValueLocation::Reg(temp))
            },
        }
    }
}

impl<'a, M: ModuleContext> Context<'a, M> {
    /// The two values on top of the stack, if both are constants of type `f32`. The left operand
    /// comes first.
    pub fn f32_constants(&self) -> (vals: Option<(Ieee32, Ieee32)>)
        ensures
            vals == ({
                let n = self@.stack.len();
                if n >= 2 && self@.stack[n - 2].imm_f32() is Some && self@.stack[n
                    - 1].imm_f32() is Some {
                    Some((self@.stack[n - 2].imm_f32()->0, self@.stack[n - 1].imm_f32()->0))
                } else {
                    None
                }
            }),
    {
        let n: usize = self.block_state.stack.len();
        if n < 2 {
            return None;
        }
        match (self.block_state.stack[n - 2].imm_f32(), self.block_state.stack[n - 1].imm_f32()) {
            (Some(left), Some(right)) => Some((left, right)),
            _ => None,
        }
    }

    /// The two values on top of the stack, if both are constants of type `f64`. The left operand
    /// comes first.
    pub fn f64_constants(&self) -> (vals: Option<(Ieee64, Ieee64)>)
        ensures
            vals == ({
                let n = self@.stack.len();
                if n >= 2 && self@.stack[n - 2].imm_f64() is Some && self@.stack[n
                    - 1].imm_f64() is Some {
                    Some((self@.stack[n - 2].imm_f64()->0, self@.stack[n - 1].imm_f64()->0))
                } else {
                    None
                }
            }),
    {
        let n: usize = self.block_state.stack.len();
        if n < 2 {
            return None;
        }
        match (self.block_state.stack[n - 2].imm_f64(), self.block_state.stack[n - 1].imm_f64()) {
            (Some(left), Some(right)) => Some((left, right)),
            _ => None,
        }
    }

    /// The top of the stack, if it is a constant of type `i32`.
    pub fn i32_constant(&self) -> (val: Option<i32>)
        ensures
            val == (if self@.stack.len() > 0 {
                self@.stack.last().imm_i32()
            } else {
                None
            }),
    {
        let n: usize = self.block_state.stack.len();
        if n < 1 {
            return None;
        }
        self.block_state.stack[n - 1].imm_i32()
    }

    fn binop_f32(&mut self, op: SseOp, folded: Option<Ieee32>)
        requires
            old(self)@.binop_f32(op, folded).ok,
        ensures
            final(self)@ == old(self)@.binop_f32(op, folded),
            final(self).same_function(*old(self)),
            *final(final(self).out) == *final(old(self).out),
    {
        match folded {
            Some(folded) => {
                self.binop(BinOp::F32(op), Value::F32(folded));
            },
            None => {
                self.binop(BinOp::F32(op), Value::F32(Ieee32(0)));
            },
        }
    }

    fn binop_f64(&mut self, op: SseOp, folded: Option<Ieee64>)
        requires
            old(self)@.binop_f64(op, folded).ok,
        ensures
            final(self)@ == old(self)@.binop_f64(op, folded),
            final(self).same_function(*old(self)),
            *final(final(self).out) == *final(old(self).out),
    {
        match folded {
            Some(folded) => {
                self.binop(BinOp::F64(op), Value::F64(folded));
            },
            None => {
                self.binop(BinOp::F64(op), Value::F64(Ieee64(0)));
            },
        }
    }

    /// Adds the two values on top of the stack. `folded` is the result if both
    /// are constants.
    pub fn f32_add(&mut self, folded: Option<Ieee32>)
        requires
            old(self)@.binop_f32(SseOp::Add, folded).ok,
        ensures
            final(self)@ == old(self)@.binop_f32(SseOp::Add, folded),
            old(self)@.combines_f32(final(self)@, SseOp::Add, folded),
            final(self).same_function(*old(self)),
            *final(final(self).out) == *final(old(self).out),
    {
        proof {
            lemma_combines_f32(self@, SseOp::Add, folded);
        }
        self.binop_f32(SseOp::Add, folded);
    }

    /// Multiplies the two values on top of the stack. `folded` is the result if both
    /// are constants.
    pub fn f32_mul(&mut self, folded: Option<Ieee32>)
        requires
            old(self)@.binop_f32(SseOp::Mul, folded).ok,
        ensures
            final(self)@ == old(self)@.binop_f32(SseOp::Mul, folded),
            old(self)@.combines_f32(final(self)@, SseOp::Mul, folded),
            final(self).same_function(*old(self)),
            *final(final(self).out) == *final(old(self).out),
    {
        proof {
            lemma_combines_f32(self@, SseOp::Mul, folded);
        }
        self.binop_f32(SseOp::Mul, folded);
    }

    /// Subtracts the top of the stack from the value below it. `folded` is the result if both
    /// are constants.
    pub fn f32_sub(&mut self, folded: Option<Ieee32>)
        requires
            old(self)@.binop_f32(SseOp::Sub, folded).ok,
        ensures
            final(self)@ == old(self)@.binop_f32(SseOp::Sub, folded),
            old(self)@.combines_f32(final(self)@, SseOp::Sub, folded),
            final(self).same_function(*old(self)),
            *final(final(self).out) == *final(old(self).out),
    {
        proof {
            lemma_combines_f32(self@, SseOp::Sub, folded);
        }
        self.binop_f32(SseOp::Sub, folded);
    }

    /// Divides the value below the top of the stack by the top. `folded` is the result if both
    /// are constants.
    pub fn f32_div(&mut self, folded: Option<Ieee32>)
        requires
            old(self)@.binop_f32(SseOp::Div, folded).ok,
        ensures
            final(self)@ == old(self)@.binop_f32(SseOp::Div, folded),
            old(self)@.combines_f32(final(self)@, SseOp::Div, folded),
            final(self).same_function(*old(self)),
            *final(final(self).out) == *final(old(self).out),
    {
        proof {
            lemma_combines_f32(self@, SseOp::Div, folded);
        }
        self.binop_f32(SseOp::Div, folded);
    }

    /// Adds the two values on top of the stack. `folded` is the result if both
    /// are constants.
    pub fn f64_add(&mut self, folded: Option<Ieee64>)
        requires
            old(self)@.binop_f64(SseOp::Add, folded).ok,
        ensures
            final(self)@ == old(self)@.binop_f64(SseOp::Add, folded),
            old(self)@.combines_f64(final(self)@, SseOp::Add, folded),
            final(self).same_function(*old(self)),
            *final(final(self).out) == *final(old(self).out),
    {
        proof {
            lemma_combines_f64(self@, SseOp::Add, folded);
        }
        self.binop_f64(SseOp::Add, folded);
    }

    /// Multiplies the two values on top of the stack. `folded` is the result if both
    /// are constants.
    pub fn f64_mul(&mut self, folded: Option<Ieee64>)
        requires
            old(self)@.binop_f64(SseOp::Mul, folded).ok,
        ensures
            final(self)@ == old(self)@.binop_f64(SseOp::Mul, folded),
            old(self)@.combines_f64(final(self)@, SseOp::Mul, folded),
            final(self).same_function(*old(self)),
            *final(final(self).out) == *final(old(self).out),
    {
        proof {
            lemma_combines_f64(self@, SseOp::Mul, folded);
        }
        self.binop_f64(SseOp::Mul, folded);
    }

    /// Subtracts the top of the stack from the value below it. `folded` is the result if both
    /// are constants.
    pub fn f64_sub(&mut self, folded: Option<Ieee64>)
        requires
            old(self)@.binop_f64(SseOp::Sub, folded).ok,
        ensures
            final(self)@ == old(self)@.binop_f64(SseOp::Sub, folded),
            old(self)@.combines_f64(final(self)@, SseOp::Sub, folded),
            final(self).same_function(*old(self)),
            *final(final(self).out) == *final(old(self).out),
    {
        proof {
            lemma_combines_f64(self@, SseOp::Sub, folded);
        }
        self.binop_f64(SseOp::Sub, folded);
    }

    /// Divides the value below the top of the stack by the top. `folded` is the result if both
    /// are constants.
    pub fn f64_div(&mut self, folded: Option<Ieee64>)
        requires
            old(self)@.binop_f64(SseOp::Div, folded).ok,
        ensures
            final(self)@ == old(self)@.binop_f64(SseOp::Div, folded),
            old(self)@.combines_f64(final(self)@, SseOp::Div, folded),
            final(self).same_function(*old(self)),
            *final(final(self).out) == *final(old(self).out),
    {
        proof {
            lemma_combines_f64(self@, SseOp::Div, folded);
        }
        self.binop_f64(SseOp::Div, folded);
    }

    /// Changes the sign of the top of the stack.
    pub fn f32_neg(&mut self)
        requires
            old(self)@.neg_f32().ok,
        ensures
            final(self)@ == old(self)@.neg_f32(),
            old(self)@.negates(final(self)@, Precision::Single),
            final(self).same_function(*old(self)),
            *final(final(self).out) == *final(old(self).out),
    {
        proof {
            lemma_negates(self@);
        }
        let val = self.pop();
        let out = if let Some(i) = val.imm_f32() {
            ValueLocation::Immediate(Value::F32(Ieee32(i.bits() ^ SIGN_F32)))
        } else {
            let reg = self.into_temp_reg(Some(GPRType::Rx), val);
            let dst: RegId = reg.rx().unwrap();
            let label = self.neg_const_f32_label();
            self.emit(Insn::XorConst { prec: Precision::Single, dst, label });
            ValueLocation::Reg(reg)
        };
        self.push(out);
    }

    /// Changes the sign of the top of the stack.
    pub fn f64_neg(&mut self)
        requires
            old(self)@.neg_f64().ok,
        ensures
            final(self)@ == old(self)@.neg_f64(),
            old(self)@.negates(final(self)@, Precision::Double),
            final(self).same_function(*old(self)),
            *final(final(self).out) == *final(old(self).out),
    {
        proof {
            lemma_negates(self@);
        }
        let val = self.pop();
        let out = if let Some(i) = val.imm_f64() {
            ValueLocation::Immediate(Value::F64(Ieee64(i.bits() ^ SIGN_F64)))
        } else {
            let reg = self.into_temp_reg(Some(GPRType::Rx), val);
            let dst: RegId = reg.rx().unwrap();
            let label = self.neg_const_f64_label();
            self.emit(Insn::XorConst { prec: Precision::Double, dst, label });
            ValueLocation::Reg(reg)
        };
        self.push(out);
    }

    /// Clears the sign of the top of the stack.
    pub fn f32_abs(&mut self)
        requires
            old(self)@.abs_f32().ok,
        ensures
            final(self)@ == old(self)@.abs_f32(),
            old(self)@.clears_sign(final(self)@, Precision::Single),
            final(self).same_function(*old(self)),
            *final(final(self).out) == *final(old(self).out),
    {
        proof {
            lemma_clears_sign(self@);
        }
        let val = self.pop();
        let out = if let Some(i) = val.imm_f32() {
            ValueLocation::Immediate(Value::F32(Ieee32(i.bits() & !SIGN_F32)))
        } else {
            let reg = self.into_temp_reg(Some(GPRType::Rx), val);
            let dst: RegId = reg.rx().unwrap();
            let label = self.abs_const_f32_label();
            self.emit(Insn::AndConst { dst, label });
            ValueLocation::Reg(reg)
        };
        self.push(out);
    }

    /// Clears the sign of the top of the stack.
    pub fn f64_abs(&mut self)
        requires
            old(self)@.abs_f64().ok,
        ensures
            final(self)@ == old(self)@.abs_f64(),
            old(self)@.clears_sign(final(self)@, Precision::Double),
            final(self).same_function(*old(self)),
            *final(final(self).out) == *final(old(self).out),
    {
        proof {
            lemma_clears_sign(self@);
        }
        let val = self.pop();
        let out = if let Some(i) = val.imm_f64() {
            ValueLocation::Immediate(Value::F64(Ieee64(i.bits() & !SIGN_F64)))
        } else {
            let reg = self.into_temp_reg(Some(GPRType::Rx), val);
            let dst: RegId = reg.rx().unwrap();
            let label = self.abs_const_f64_label();
            self.emit(Insn::AndConst { dst, label });
            ValueLocation::Reg(reg)
        };
        self.push(out);
    }

    /// Rounds the `f32` on top of the stack towards zero to an `i32`. A constant keeps its bits.
    pub fn i32_truncate_f32(&mut self)
        requires
            old(self)@.truncate_f32().ok,
        ensures
            final(self)@ == old(self)@.truncate_f32(),
            old(self)@.truncates(final(self)@),
            final(self).same_function(*old(self)),
            *final(final(self).out) == *final(old(self).out),
    {
        proof {
            lemma_converts(self@, None);
        }
        let mut val = self.pop();
        let out_val = match val {
            ValueLocation::Immediate(imm) => ValueLocation::Immediate(
                Value::I32(imm.as_f32().unwrap().bits() as i32),
            ),
            ValueLocation::Stack(offset) => {
                let offset: i32 = self.adjusted_offset(offset);
                let temp = self.take(GPRType::Rq);
                let dst: RegId = temp.rq().unwrap();
                self.emit(Insn::Cvttss2si { dst, src: stack_slot(offset) });
                ValueLocation::Reg(temp)
            },
            ValueLocation::Reg(_) => {
                let reg = self.into_reg(Some(GPRType::Rx), val);
                let temp = self.take(GPRType::Rq);
                let dst: RegId = temp.rq().unwrap();
                val = ValueLocation::Reg(reg);
                self.emit(Insn::Cvttss2si { dst, src: Operand::Gpr(reg) });
                ValueLocation::Reg(temp)
            },
        };
        self.free_value(val);
        self.push(out_val);
    }

    /// Converts the signed `i32` on top of the stack to an `f32`. `folded` is the result if it is
    /// a constant.
    pub fn f32_convert_from_i32_s(&mut self, folded: Option<Ieee32>)
        requires
            old(self)@.convert_i32_s(folded).ok,
        ensures
            final(self)@ == old(self)@.convert_i32_s(folded),
            old(self)@.converts_signed(final(self)@, folded),
            final(self).same_function(*old(self)),
            *final(final(self).out) == *final(old(self).out),
    {
        proof {
            lemma_converts(self@, folded);
        }
        let mut val = self.pop();
        let out_val = match val {
            ValueLocation::Immediate(_) => ValueLocation::Immediate(Value::F32(folded.unwrap())),
            ValueLocation::Stack(offset) => {
                let offset: i32 = self.adjusted_offset(offset);
                let temp = self.take(GPRType::Rx);
                let dst: RegId = temp.rx().unwrap();
                self.emit(Insn::Cvtsi2ss { w: Width::D, dst, src: stack_slot(offset) });
                ValueLocation::Reg(temp)
            },
            ValueLocation::Reg(_) => {
                let reg = self.into_reg(Some(GPRType::Rq), val);
                let temp = self.take(GPRType::Rx);
                let dst: RegId = temp.rx().unwrap();
                val = ValueLocation::Reg(reg);
                self.emit(Insn::Cvtsi2ss { w: Width::D, dst, src: Operand::Gpr(reg) });
                ValueLocation::Reg(temp)
            },
        };
        self.free_value(val);
        self.push(out_val);
    }

    /// Converts the `i32` on top of the stack, without sign, to an `f32`. `folded` is the result
    /// if it is a constant.
    pub fn f32_convert_from_i32_u(&mut self, folded: Option<Ieee32>)
        requires
            old(self)@.convert_i32_u(folded).ok,
        ensures
            final(self)@ == old(self)@.convert_i32_u(folded),
            old(self)@.converts_whole(final(self)@, folded),
            final(self).same_function(*old(self)),
            *final(final(self).out) == *final(old(self).out),
    {
        proof {
            lemma_converts(self@, folded);
        }
        let mut val = self.pop();
        let out_val = match val {
            ValueLocation::Immediate(_) => ValueLocation::Immediate(Value::F32(folded.unwrap())),
            _ => {
                let reg = self.into_reg(Some(GPRType::Rq), val);
                val = ValueLocation::Reg(reg);
                let temp = self.take(GPRType::Rx);
                let dst: RegId = temp.rx().unwrap();
                self.emit(
                    Insn::Mov { w: Width::Q, dst: Operand::Gpr(reg), src: Operand::Gpr(reg) },
                );
                self.emit(Insn::Cvtsi2ss { w: Width::Q, dst, src: Operand::Gpr(reg) });
                ValueLocation::Reg(temp)
            },
        };
        self.free_value(val);
        self.push(out_val);
    }
}

} // verus!
