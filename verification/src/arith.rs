//! Arithmetic on integers, and the operators that work alike on integers and floating-point
//! numbers.

use vstd::prelude::*;

use crate::bits::ones;
use crate::context::{stack_slot, Context};
use crate::insn::{AluOp, BitOp, Cond, Insn, Operand, Precision, SseOp, Width};
use crate::location::ValueLocation;
use crate::microwasm::Value;
use crate::module_context::ModuleContext;
use crate::registers::{GPRType, RegId, GPR};
use crate::state::State;

verus! {

/// `val` as a 32-bit number, if it is one.
pub fn i64_to_i32(val: i64) -> (res: Option<i32>)
    ensures
        res == (if i32::MIN <= val <= i32::MAX {
            Some(val as i32)
        } else {
            None
        }),
{
    if val >= i32::MIN as i64 && val <= i32::MAX as i64 {
        Some(val as i32)
    } else {
        None
    }
}

/// `val` as a signed number, if it is one.
pub fn u64_to_i64(val: u64) -> (res: Option<i64>)
    ensures
        res == (if val <= i64::MAX {
            Some(val as i64)
        } else {
            None
        }),
{
    if val <= i64::MAX as u64 {
        Some(val as i64)
    } else {
        None
    }
}

pub open spec fn fits_i32(val: i64) -> bool {
    i32::MIN <= val <= i32::MAX
}

/// An operator with two operands of the same type and a result of that type.
#[derive(Debug, Copy, Clone, PartialEq, Eq, Structural)]
pub enum BinOp {
    I32(AluOp),
    I64(AluOp),
    F32(SseOp),
    F64(SseOp),
}

/// What an operator on integers gives for constants.
pub open spec fn fold_i32(op: AluOp, a: i32, b: i32) -> i32 {
    match op {
        AluOp::Add => a.wrapping_add(b),
        AluOp::Sub => a.wrapping_sub(b),
        AluOp::And => a & b,
        AluOp::Or => a | b,
        AluOp::Xor => a ^ b,
    }
}

pub open spec fn fold_i64(op: AluOp, a: i64, b: i64) -> i64 {
    match op {
        AluOp::Add => a.wrapping_add(b),
        AluOp::Sub => a.wrapping_sub(b),
        AluOp::And => a & b,
        AluOp::Or => a | b,
        AluOp::Xor => a ^ b,
    }
}

fn compute_i32(op: AluOp, a: i32, b: i32) -> (res: i32)
    ensures
        res == fold_i32(op, a, b),
{
    match op {
        AluOp::Add => a.wrapping_add(b),
        AluOp::Sub => a.wrapping_sub(b),
        AluOp::And => a & b,
        AluOp::Or => a | b,
        AluOp::Xor => a ^ b,
    }
}

fn compute_i64(op: AluOp, a: i64, b: i64) -> (res: i64)
    ensures
        res == fold_i64(op, a, b),
{
    match op {
        AluOp::Add => a.wrapping_add(b),
        AluOp::Sub => a.wrapping_sub(b),
        AluOp::And => a & b,
        AluOp::Or => a | b,
        AluOp::Xor => a ^ b,
    }
}

impl BinOp {
    /// The register file of the operands.
    pub open spec fn spec_file(self) -> GPRType {
        match self {
            BinOp::I32(_) | BinOp::I64(_) => GPRType::Rq,
            BinOp::F32(_) | BinOp::F64(_) => GPRType::Rx,
        }
    }

    #[verifier::when_used_as_spec(spec_file)]
    pub fn file(self) -> (ty: GPRType)
        ensures
            ty == self.spec_file(),
    {
        match self {
            BinOp::I32(_) | BinOp::I64(_) => GPRType::Rq,
            BinOp::F32(_) | BinOp::F64(_) => GPRType::Rx,
        }
    }

    /// The instruction for this operator: `dst` is the left operand and the result.
    pub open spec fn spec_insn(self, dst: RegId, src: Operand) -> Insn {
        match self {
            BinOp::I32(op) => Insn::Alu { op, w: Width::D, dst, src },
            BinOp::I64(op) => Insn::Alu { op, w: Width::Q, dst, src },
            BinOp::F32(op) => Insn::Sse { op, prec: Precision::Single, dst, src },
            BinOp::F64(op) => Insn::Sse { op, prec: Precision::Double, dst, src },
        }
    }

    #[verifier::when_used_as_spec(spec_insn)]
    pub fn insn(self, dst: RegId, src: Operand) -> (insn: Insn)
        ensures
            insn == self.spec_insn(dst, src),
    {
        match self {
            BinOp::I32(op) => Insn::Alu { op, w: Width::D, dst, src },
            BinOp::I64(op) => Insn::Alu { op, w: Width::Q, dst, src },
            BinOp::F32(op) => Insn::Sse { op, prec: Precision::Single, dst, src },
            BinOp::F64(op) => Insn::Sse { op, prec: Precision::Double, dst, src },
        }
    }

    /// Whether the operands may be exchanged.
    pub open spec fn spec_commutes(self) -> bool {
        match self {
            BinOp::I32(op) | BinOp::I64(op) => op !is Sub,
            BinOp::F32(op) | BinOp::F64(op) => op is Add || op is Mul,
        }
    }

    #[verifier::when_used_as_spec(spec_commutes)]
    pub fn commutes(self) -> (b: bool)
        ensures
            b == self.spec_commutes(),
    {
        match self {
            BinOp::I32(op) | BinOp::I64(op) => match op {
                AluOp::Sub => false,
                _ => true,
            },
            BinOp::F32(op) | BinOp::F64(op) => match op {
                SseOp::Add | SseOp::Mul => true,
                _ => false,
            },
        }
    }

    /// Whether `loc` is a constant of the type of the operands.
    pub open spec fn is_const(self, loc: ValueLocation) -> bool {
        match self {
            BinOp::I32(_) => loc.imm_i32() is Some,
            BinOp::I64(_) => loc.imm_i64() is Some,
            BinOp::F32(_) => loc.imm_f32() is Some,
            BinOp::F64(_) => loc.imm_f64() is Some,
        }
    }

    pub fn has_const(self, loc: ValueLocation) -> (b: bool)
        ensures
            b == self.is_const(loc),
    {
        match self {
            BinOp::I32(_) => loc.imm_i32().is_some(),
            BinOp::I64(_) => loc.imm_i64().is_some(),
            BinOp::F32(_) => loc.imm_f32().is_some(),
            BinOp::F64(_) => loc.imm_f64().is_some(),
        }
    }

    /// Whether `loc` can be an immediate operand of the instruction.
    pub open spec fn encodable(self, imm: Value) -> bool {
        imm.as_int() is Some && fits_i32(imm.as_int()->0)
    }
}

/// Which of two operands is computed in place: preferably one that is in a register, but never
/// a constant if it can be avoided.
pub open spec fn order_operands(left: ValueLocation, right: ValueLocation) -> (
    ValueLocation,
    ValueLocation,
) {
    if left is Reg || right is Immediate {
        (left, right)
    } else {
        (right, left)
    }
}

/// What an operator that counts bits gives for a constant of 32 or 64 bits.
pub open spec fn fold_bits(op: BitOp, w: Width, val: i64) -> Value {
    match w {
        Width::Q => {
            let n = val as u64;
            Value::I64(
                (match op {
                    BitOp::LeadingZeros => vstd::std_specs::bits::u64_leading_zeros(n) as u32,
                    BitOp::TrailingZeros => vstd::std_specs::bits::u64_trailing_zeros(n),
                    BitOp::Ones => ones(n as nat) as u32,
                }) as i64,
            )
        },
        _ => {
            let n = val as u32;
            Value::I32(
                (match op {
                    BitOp::LeadingZeros => vstd::std_specs::bits::u32_leading_zeros(n),
                    BitOp::TrailingZeros => vstd::std_specs::bits::u32_trailing_zeros(n),
                    BitOp::Ones => ones(n as nat) as u32,
                }) as i32,
            )
        },
    }
}

fn compute_bits(op: BitOp, w: Width, val: i64) -> (res: Value)
    ensures
        res == fold_bits(op, w, val),
{
    match w {
        Width::Q => {
            let n: u64 = val as u64;
            let count: u32 = match op {
                BitOp::LeadingZeros => n.leading_zeros(),
                BitOp::TrailingZeros => n.trailing_zeros(),
                BitOp::Ones => n.count_ones(),
            };
            Value::I64(count as i64)
        },
        _ => {
            let n: u32 = val as u32;
            let count: u32 = match op {
                BitOp::LeadingZeros => n.leading_zeros(),
                BitOp::TrailingZeros => n.trailing_zeros(),
                BitOp::Ones => n.count_ones(),
            };
            Value::I32(count as i32)
        },
    }
}

impl State {
    /// Combines the value in the register `left` with `right`, which is then given back.
    pub open spec fn apply(self, op: BinOp, left: RegId, right: ValueLocation) -> State {
        match right {
            ValueLocation::Reg(_) => {
                // This handles the case where we (for example) have a float in an `Rq` reg
                let (s, reg) = self.into_reg(Some(op.file()), right);
                s.emit(op.insn(left, Operand::Gpr(reg))).release(reg)
            },
            ValueLocation::Stack(o) => self.need(self.has_slot(o)).emit(
                op.insn(left, self.slot(o)),
            ),
            ValueLocation::Immediate(imm) => if op.encodable(imm) {
                // There are no immediate operands of floating-point instructions.
                self.need(op.file() == GPRType::Rq).emit(
                    op.insn(left, Operand::Imm(imm.as_int()->0)),
                )
            } else {
                let (s, scratch) = self.take(op.file());
                s.immediate_to_reg(scratch, imm).emit(
                    op.insn(left, Operand::Gpr(scratch)),
                ).release(scratch)
            },
        }
    }

    /// Applies an operator to the two values on top of the stack. `folded` is the result for two
    /// constants.
    pub open spec fn binop(self, op: BinOp, folded: Value) -> State {
        let (s, right) = self.pop();
        let (s, left) = s.pop();
        if op.is_const(left) && op.is_const(right) {
            s.push(ValueLocation::Immediate(folded))
        } else {
            let (left, right) = if op.commutes() {
                order_operands(left, right)
            } else {
                (left, right)
            };
            let (s, reg) = s.into_temp_reg(Some(op.file()), left);
            s.apply(op, reg.id(), right).push(ValueLocation::Reg(reg))
        }
    }

    /// Whether both values on top of the stack are constants of the type that `op` works on.
    pub open spec fn both_const(self, op: BinOp) -> bool {
        let n = self.stack.len();
        n >= 2 && op.is_const(self.stack[n - 1]) && op.is_const(self.stack[n - 2])
    }

    pub open spec fn binop_i32(self, op: AluOp) -> State {
        let n = self.stack.len();
        self.binop(
            BinOp::I32(op),
            Value::I32(
                fold_i32(op, self.stack[n - 2].imm_i32()->0, self.stack[n - 1].imm_i32()->0),
            ),
        )
    }

    pub open spec fn binop_i64(self, op: AluOp) -> State {
        let n = self.stack.len();
        self.binop(
            BinOp::I64(op),
            Value::I64(
                fold_i64(op, self.stack[n - 2].imm_i64()->0, self.stack[n - 1].imm_i64()->0),
            ),
        )
    }

    /// Multiplies the two values on top of the stack, which have `w` bits each.
    pub open spec fn mul(self, w: Width) -> State {
        let (s, right) = self.pop();
        let (s, left) = s.pop();
        if right is Immediate && left is Immediate {
            match w {
                Width::Q => s.need(right.imm_i64() is Some && left.imm_i64() is Some).push(
                    ValueLocation::Immediate(
                        Value::I64((right.imm_i64()->0).wrapping_mul(left.imm_i64()->0)),
                    ),
                ),
                _ => s.need(right.imm_i32() is Some && left.imm_i32() is Some).push(
                    ValueLocation::Immediate(
                        Value::I32((right.imm_i32()->0).wrapping_mul(left.imm_i32()->0)),
                    ),
                ),
            }
        } else {
            let (left, right) = order_operands(left, right);
            match right {
                ValueLocation::Reg(reg) => {
                    let (s, left) = s.into_temp_reg(Some(GPRType::Rq), left);
                    s.need(reg is Rq).emit(
                        Insn::Imul { w, dst: left.id(), src: Operand::Gpr(reg) },
                    ).push(ValueLocation::Reg(left)).release(reg)
                },
                ValueLocation::Stack(o) => {
                    let s = s.need(s.has_slot(o));
                    let (t, left) = s.into_temp_reg(Some(GPRType::Rq), left);
                    t.emit(Insn::Imul { w, dst: left.id(), src: s.slot(o) }).push(
                        ValueLocation::Reg(left),
                    )
                },
                ValueLocation::Immediate(imm) => {
                    let (s, left) = s.into_reg(Some(GPRType::Rq), left);
                    let (s, new_reg) = s.release(left).take(GPRType::Rq);
                    let by = mul_immediate(w, imm);
                    s.need(by is Some).emit(
                        Insn::ImulImm { w, dst: new_reg.id(), src: left.id(), imm: by->0 },
                    ).push(ValueLocation::Reg(new_reg))
                },
            }
        }
    }

    /// Applies an operator that counts bits to the top of the stack.
    pub open spec fn unop(self, op: BitOp, w: Width) -> State {
        let (s, val) = self.pop();
        match val {
            ValueLocation::Immediate(imm) => s.need(imm.as_int() is Some).push(
                ValueLocation::Immediate(fold_bits(op, w, imm.as_int()->0)),
            ),
            ValueLocation::Stack(o) => {
                let s = s.need(s.has_slot(o));
                let (t, temp) = s.take(GPRType::Rq);
                t.emit(Insn::CountBits { op, w, dst: temp.id(), src: s.slot(o) }).push(
                    ValueLocation::Reg(temp),
                )
            },
            ValueLocation::Reg(reg) => {
                let (s, temp) = s.take(GPRType::Rq);
                s.need(reg is Rq).emit(
                    Insn::CountBits { op, w, dst: temp.id(), src: Operand::Gpr(reg) },
                ).release(reg).push(ValueLocation::Reg(temp))
            },
        }
    }

    /// Extends the `i32` on top of the stack to an `i64` with zeros.
    pub open spec fn extend_u(self) -> State {
        let (s, val) = self.pop();
        let s = s.free_value(val);
        let (t, new_reg) = s.take(GPRType::Rq);
        match val {
            ValueLocation::Immediate(imm) => t.release(new_reg).need(imm.as_i32() is Some).push(
                ValueLocation::Immediate(Value::I64(imm.as_i32()->0 as u32 as u64 as i64)),
            ),
            ValueLocation::Reg(GPR::Rx(_)) => t.emit(
                Insn::Movd { dst: Operand::Gpr(new_reg), src: Operand::Gpr(val->Reg_0) },
            ).push(ValueLocation::Reg(new_reg)),
            ValueLocation::Reg(GPR::Rq(_)) => t.emit(
                Insn::Mov {
                    w: Width::D,
                    dst: Operand::Gpr(new_reg),
                    src: Operand::Gpr(val->Reg_0),
                },
            ).push(ValueLocation::Reg(new_reg)),
            ValueLocation::Stack(o) => t.need(s.has_slot(o)).emit(
                Insn::Mov { w: Width::D, dst: Operand::Gpr(new_reg), src: s.slot(o) },
            ).push(ValueLocation::Reg(new_reg)),
        }
    }

    /// Extends the `i32` on top of the stack to an `i64` with its sign.
    pub open spec fn extend_s(self) -> State {
        let (s, val) = self.pop();
        let s = s.free_value(val);
        let (t, new_reg) = s.take(GPRType::Rq);
        match val {
            ValueLocation::Immediate(imm) => t.release(new_reg).need(imm.as_i32() is Some).push(
                ValueLocation::Immediate(Value::I64(imm.as_i32()->0 as i64)),
            ),
            ValueLocation::Reg(GPR::Rx(_)) => t.emit(
                Insn::Movd { dst: Operand::Gpr(new_reg), src: Operand::Gpr(val->Reg_0) },
            ).emit(
                Insn::Movsx {
                    w: Width::Q,
                    dst: new_reg.id(),
                    src_w: Width::D,
                    src: Operand::Gpr(new_reg),
                },
            ).push(ValueLocation::Reg(new_reg)),
            ValueLocation::Reg(GPR::Rq(_)) => t.emit(
                Insn::Movsx {
                    w: Width::Q,
                    dst: new_reg.id(),
                    src_w: Width::D,
                    src: Operand::Gpr(val->Reg_0),
                },
            ).push(ValueLocation::Reg(new_reg)),
            ValueLocation::Stack(o) => t.need(s.has_slot(o)).emit(
                Insn::Movsx { w: Width::Q, dst: new_reg.id(), src_w: Width::D, src: s.slot(o) },
            ).push(ValueLocation::Reg(new_reg)),
        }
    }

    /// Moves `val` to the register `out` if the condition holds.
    pub open spec fn cmov(self, cond: Cond, out: RegId, val: ValueLocation) -> State {
        match val {
            ValueLocation::Stack(o) => self.need(self.has_slot(o)).emit(
                Insn::Cmov { cond, dst: out, src: self.slot(o) },
            ),
            _ => {
                let (s, scratch) = self.into_reg(Some(GPRType::Rq), val);
                s.emit(Insn::Cmov { cond, dst: out, src: Operand::Gpr(scratch) }).release(scratch)
            },
        }
    }

    /// Chooses one of two values: pops the condition, the value for zero and the value for all
    /// else.
    pub open spec fn select(self) -> State {
        let (s, cond) = self.pop();
        let (s, else_) = s.pop();
        let (s, then_) = s.pop();
        match cond {
            ValueLocation::Immediate(imm) => {
                let s = s.need(imm.as_i32() is Some);
                if imm.as_i32()->0 == 0 {
                    s.push(else_)
                } else {
                    s.push(then_)
                }
            },
            _ => {
                let (s, reg) = s.into_reg(Some(GPRType::Rq), cond);
                let (s, out) = s.emit(
                    Insn::Test { w: Width::D, left: reg.id(), right: Operand::Gpr(reg) },
                ).release(reg).take(GPRType::Rq);
                s.cmov(Cond::E, out.id(), else_).cmov(Cond::Ne, out.id(), then_).push(
                    ValueLocation::Reg(out),
                )
            },
        }
    }
}

/// The immediate operand by which to multiply with a constant, if there is one.
pub open spec fn mul_immediate(w: Width, imm: Value) -> Option<i32> {
    match w {
        Width::Q => match imm.as_i64() {
            Some(i) => if fits_i32(i) {
                Some(i as i32)
            } else {
                None
            },
            None => None,
        },
        _ => imm.as_i32(),
    }
}

fn mul_immediate_of(w: Width, imm: Value) -> (by: Option<i32>)
    ensures
        by == mul_immediate(w, imm),
{
    match w {
        Width::Q => match imm.as_i64() {
            Some(i) => i64_to_i32(i),
            None => None,
        },
        _ => imm.as_i32(),
    }
}

fn ordered(left: ValueLocation, right: ValueLocation) -> (res: (ValueLocation, ValueLocation))
    ensures
        res == order_operands(left, right),
{
    match left {
        ValueLocation::Reg(_) => (left, right),
        _ => {
            if right.immediate().is_some() {
                (left, right)
            } else {
                (right, left)
            }
        },
    }
}

impl<'a, M: ModuleContext> Context<'a, M> {
    fn apply(&mut self, op: BinOp, left: RegId, right: ValueLocation)
        requires
            old(self)@.apply(op, left, right).ok,
        ensures
            final(self)@ == old(self)@.apply(op, left, right),
            final(self).same_function(*old(self)),
            *final(final(self).out) == *final(old(self).out),
    {
        match right {
            ValueLocation::Reg(_) => {
                // This handles the case where we (for example) have a float in an `Rq` reg
                let right_reg = self.into_reg(Some(op.file()), right);
                self.emit(op.insn(left, Operand::Gpr(right_reg)));
                self.release(right_reg);
            },
            ValueLocation::Stack(offset) => {
                let offset: i32 = self.adjusted_offset(offset);
                self.emit(op.insn(left, stack_slot(offset)));
            },
            ValueLocation::Immediate(i) => {
                let direct: Option<i32> = match i.as_int() {
                    Some(int_val) => i64_to_i32(int_val),
                    None => None,
                };
                if let Some(direct) = direct {
                    self.emit(op.insn(left, Operand::Imm(direct as i64)));
                } else {
                    let scratch = self.take(op.file());
                    self.immediate_to_reg(scratch, i);
                    self.emit(op.insn(left, Operand::Gpr(scratch)));
                    self.release(scratch);
                }
            },
        }
    }

    /// Applies an operator to two values that are not both constants.
    fn binop_values(&mut self, op: BinOp, left: ValueLocation, right: ValueLocation)
        requires
            ({
                let (l, r) = if op.commutes() {
                    order_operands(left, right)
                } else {
                    (left, right)
                };
                let (s, reg) = old(self)@.into_temp_reg(Some(op.file()), l);
                s.apply(op, reg.id(), r).ok
            }),
        ensures
            ({
                let (l, r) = if op.commutes() {
                    order_operands(left, right)
                } else {
                    (left, right)
                };
                let (s, reg) = old(self)@.into_temp_reg(Some(op.file()), l);
                final(self)@ == s.apply(op, reg.id(), r).push(ValueLocation::Reg(reg))
            }),
            final(self).same_function(*old(self)),
            *final(final(self).out) == *final(old(self).out),
    {
        let (left, right) = if op.commutes() {
            ordered(left, right)
        } else {
            (left, right)
        };
        let left = self.into_temp_reg(Some(op.file()), left);
        let left_id: RegId = match left {
            GPR::Rq(r) => r,
            GPR::Rx(r) => r,
        };
        self.apply(op, left_id, right);
        self.push(ValueLocation::Reg(left));
    }

    /// Applies an operator to the two values on top of the stack. `folded` is the result for two
    /// constants.
    pub(crate) fn binop(&mut self, op: BinOp, folded: Value)
        requires
            old(self)@.binop(op, folded).ok,
        ensures
            final(self)@ == old(self)@.binop(op, folded),
            final(self).same_function(*old(self)),
            *final(final(self).out) == *final(old(self).out),
    {
        let right = self.pop();
        let left = self.pop();
        if op.has_const(left) && op.has_const(right) {
            self.push(ValueLocation::Immediate(folded));
        } else {
            self.binop_values(op, left, right);
        }
    }

    fn binop_i32(&mut self, op: AluOp)
        requires
            old(self)@.binop_i32(op).ok,
        ensures
            final(self)@ == old(self)@.binop_i32(op),
            final(self).same_function(*old(self)),
            *final(final(self).out) == *final(old(self).out),
    {
        let right = self.pop();
        let left = self.pop();
        if let Some(i1) = left.imm_i32() {
            if let Some(i0) = right.imm_i32() {
                self.push(ValueLocation::Immediate(Value::I32(compute_i32(op, i1, i0))));
                return ;
            }
        }
        self.binop_values(BinOp::I32(op), left, right);
    }

    fn binop_i64(&mut self, op: AluOp)
        requires
            old(self)@.binop_i64(op).ok,
        ensures
            final(self)@ == old(self)@.binop_i64(op),
            final(self).same_function(*old(self)),
            *final(final(self).out) == *final(old(self).out),
    {
        let right = self.pop();
        let left = self.pop();
        if let Some(i1) = left.imm_i64() {
            if let Some(i0) = right.imm_i64() {
                self.push(ValueLocation::Immediate(Value::I64(compute_i64(op, i1, i0))));
                return ;
            }
        }
        self.binop_values(BinOp::I64(op), left, right);
    }

    /// Adds the two values on top of the stack.
    pub fn i32_add(&mut self)
        requires
            old(self)@.binop_i32(AluOp::Add).ok,
        ensures
            final(self)@ == old(self)@.binop_i32(AluOp::Add),
            final(self).same_function(*old(self)),
            *final(final(self).out) == *final(old(self).out),
    {
        self.binop_i32(AluOp::Add);
    }

    /// Bitwise and of the two values on top of the stack.
    pub fn i32_and(&mut self)
        requires
            old(self)@.binop_i32(AluOp::And).ok,
        ensures
            final(self)@ == old(self)@.binop_i32(AluOp::And),
            final(self).same_function(*old(self)),
            *final(final(self).out) == *final(old(self).out),
    {
        self.binop_i32(AluOp::And);
    }

    /// Bitwise or of the two values on top of the stack.
    pub fn i32_or(&mut self)
        requires
            old(self)@.binop_i32(AluOp::Or).ok,
        ensures
            final(self)@ == old(self)@.binop_i32(AluOp::Or),
            final(self).same_function(*old(self)),
            *final(final(self).out) == *final(old(self).out),
    {
        self.binop_i32(AluOp::Or);
    }

    /// Bitwise exclusive or of the two values on top of the stack.
    pub fn i32_xor(&mut self)
        requires
            old(self)@.binop_i32(AluOp::Xor).ok,
        ensures
            final(self)@ == old(self)@.binop_i32(AluOp::Xor),
            final(self).same_function(*old(self)),
            *final(final(self).out) == *final(old(self).out),
    {
        self.binop_i32(AluOp::Xor);
    }

    /// Subtracts the top of the stack from the value below it.
    pub fn i32_sub(&mut self)
        requires
            old(self)@.binop_i32(AluOp::Sub).ok,
        ensures
            final(self)@ == old(self)@.binop_i32(AluOp::Sub),
            final(self).same_function(*old(self)),
            *final(final(self).out) == *final(old(self).out),
    {
        self.binop_i32(AluOp::Sub);
    }

    /// Adds the two values on top of the stack.
    pub fn i64_add(&mut self)
        requires
            old(self)@.binop_i64(AluOp::Add).ok,
        ensures
            final(self)@ == old(self)@.binop_i64(AluOp::Add),
            final(self).same_function(*old(self)),
            *final(final(self).out) == *final(old(self).out),
    {
        self.binop_i64(AluOp::Add);
    }

    /// Bitwise and of the two values on top of the stack.
    pub fn i64_and(&mut self)
        requires
            old(self)@.binop_i64(AluOp::And).ok,
        ensures
            final(self)@ == old(self)@.binop_i64(AluOp::And),
            final(self).same_function(*old(self)),
            *final(final(self).out) == *final(old(self).out),
    {
        self.binop_i64(AluOp::And);
    }

    /// Bitwise or of the two values on top of the stack.
    pub fn i64_or(&mut self)
        requires
            old(self)@.binop_i64(AluOp::Or).ok,
        ensures
            final(self)@ == old(self)@.binop_i64(AluOp::Or),
            final(self).same_function(*old(self)),
            *final(final(self).out) == *final(old(self).out),
    {
        self.binop_i64(AluOp::Or);
    }

    /// Bitwise exclusive or of the two values on top of the stack.
    pub fn i64_xor(&mut self)
        requires
            old(self)@.binop_i64(AluOp::Xor).ok,
        ensures
            final(self)@ == old(self)@.binop_i64(AluOp::Xor),
            final(self).same_function(*old(self)),
            *final(final(self).out) == *final(old(self).out),
    {
        self.binop_i64(AluOp::Xor);
    }

    /// Subtracts the top of the stack from the value below it.
    pub fn i64_sub(&mut self)
        requires
            old(self)@.binop_i64(AluOp::Sub).ok,
        ensures
            final(self)@ == old(self)@.binop_i64(AluOp::Sub),
            final(self).same_function(*old(self)),
            *final(final(self).out) == *final(old(self).out),
    {
        self.binop_i64(AluOp::Sub);
    }

    fn mul(&mut self, w: Width)
        requires
            old(self)@.mul(w).ok,
        ensures
            final(self)@ == old(self)@.mul(w),
            final(self).same_function(*old(self)),
            *final(final(self).out) == *final(old(self).out),
    {
        let right = self.pop();
        let left = self.pop();
        if let Some(right) = right.immediate() {
            if let Some(left) = left.immediate() {
                let product = match w {
                    Width::Q => Value::I64(
                        right.as_i64().unwrap().wrapping_mul(left.as_i64().unwrap()),
                    ),
                    _ => Value::I32(right.as_i32().unwrap().wrapping_mul(left.as_i32().unwrap())),
                };
                self.push(ValueLocation::Immediate(product));
                return ;
            }
        }
        let (left, right) = ordered(left, right);
        match right {
            ValueLocation::Reg(reg) => {
                let left = self.into_temp_reg(Some(GPRType::Rq), left);
                let dst: RegId = left.rq().unwrap();
                self.emit(Insn::Imul { w, dst, src: Operand::Gpr(reg) });
                self.push(ValueLocation::Reg(left));
                self.release(reg);
            },
            ValueLocation::Stack(offset) => {
                let offset: i32 = self.adjusted_offset(offset);
                let left = self.into_temp_reg(Some(GPRType::Rq), left);
                let dst: RegId = left.rq().unwrap();
                self.emit(Insn::Imul { w, dst, src: stack_slot(offset) });
                self.push(ValueLocation::Reg(left));
            },
            ValueLocation::Immediate(i) => {
                let left = self.into_reg(Some(GPRType::Rq), left);
                self.release(left);
                let new_reg = self.take(GPRType::Rq);
                let src: RegId = left.rq().unwrap();
                let dst: RegId = new_reg.rq().unwrap();
                let imm: i32 = mul_immediate_of(w, i).unwrap();
                self.emit(Insn::ImulImm { w, dst, src, imm });
                self.push(ValueLocation::Reg(new_reg));
            },
        }
    }

    // `i32_mul` needs to be separate because the immediate form of the instruction
    // has a different syntax to the immediate form of the other instructions.
    pub fn i32_mul(&mut self)
        requires
            old(self)@.mul(Width::D).ok,
        ensures
            final(self)@ == old(self)@.mul(Width::D),
            final(self).same_function(*old(self)),
            *final(final(self).out) == *final(old(self).out),
    {
        self.mul(Width::D);
    }

    pub fn i64_mul(&mut self)
        requires
            old(self)@.mul(Width::Q).ok,
        ensures
            final(self)@ == old(self)@.mul(Width::Q),
            final(self).same_function(*old(self)),
            *final(final(self).out) == *final(old(self).out),
    {
        self.mul(Width::Q);
    }

    fn unop(&mut self, op: BitOp, w: Width)
        requires
            old(self)@.unop(op, w).ok,
        ensures
            final(self)@ == old(self)@.unop(op, w),
            final(self).same_function(*old(self)),
            *final(final(self).out) == *final(old(self).out),
    {
        let val = self.pop();
        let out_val = match val {
            ValueLocation::Immediate(imm) => ValueLocation::Immediate(
                compute_bits(op, w, imm.as_int().unwrap()),
            ),
            ValueLocation::Stack(offset) => {
                let offset: i32 = self.adjusted_offset(offset);
                let temp = self.take(GPRType::Rq);
                let dst: RegId = temp.rq().unwrap();
                self.emit(Insn::CountBits { op, w, dst, src: stack_slot(offset) });
                ValueLocation::Reg(temp)
            },
            ValueLocation::Reg(reg) => {
                let temp = self.take(GPRType::Rq);
                let dst: RegId = temp.rq().unwrap();
                self.emit(Insn::CountBits { op, w, dst, src: Operand::Gpr(reg) });
                ValueLocation::Reg(temp)
            },
        };
        self.free_value(val);
        self.push(out_val);
    }

    /// Counts the zeros above the highest one.
    pub fn i32_clz(&mut self)
        requires
            old(self)@.unop(BitOp::LeadingZeros, Width::D).ok,
        ensures
            final(self)@ == old(self)@.unop(BitOp::LeadingZeros, Width::D),
            final(self).same_function(*old(self)),
            *final(final(self).out) == *final(old(self).out),
    {
        self.unop(BitOp::LeadingZeros, Width::D);
    }

    /// Counts the zeros below the lowest one.
    pub fn i32_ctz(&mut self)
        requires
            old(self)@.unop(BitOp::TrailingZeros, Width::D).ok,
        ensures
            final(self)@ == old(self)@.unop(BitOp::TrailingZeros, Width::D),
            final(self).same_function(*old(self)),
            *final(final(self).out) == *final(old(self).out),
    {
        self.unop(BitOp::TrailingZeros, Width::D);
    }

    /// Counts the ones.
    pub fn i32_popcnt(&mut self)
        requires
            old(self)@.unop(BitOp::Ones, Width::D).ok,
        ensures
            final(self)@ == old(self)@.unop(BitOp::Ones, Width::D),
            final(self).same_function(*old(self)),
            *final(final(self).out) == *final(old(self).out),
    {
        self.unop(BitOp::Ones, Width::D);
    }

    /// Counts the zeros above the highest one.
    pub fn i64_clz(&mut self)
        requires
            old(self)@.unop(BitOp::LeadingZeros, Width::Q).ok,
        ensures
            final(self)@ == old(self)@.unop(BitOp::LeadingZeros, Width::Q),
            final(self).same_function(*old(self)),
            *final(final(self).out) == *final(old(self).out),
    {
        self.unop(BitOp::LeadingZeros, Width::Q);
    }

    /// Counts the zeros below the lowest one.
    pub fn i64_ctz(&mut self)
        requires
            old(self)@.unop(BitOp::TrailingZeros, Width::Q).ok,
        ensures
            final(self)@ == old(self)@.unop(BitOp::TrailingZeros, Width::Q),
            final(self).same_function(*old(self)),
            *final(final(self).out) == *final(old(self).out),
    {
        self.unop(BitOp::TrailingZeros, Width::Q);
    }

    /// Counts the ones.
    pub fn i64_popcnt(&mut self)
        requires
            old(self)@.unop(BitOp::Ones, Width::Q).ok,
        ensures
            final(self)@ == old(self)@.unop(BitOp::Ones, Width::Q),
            final(self).same_function(*old(self)),
            *final(final(self).out) == *final(old(self).out),
    {
        self.unop(BitOp::Ones, Width::Q);
    }

    pub fn i32_extend_u(&mut self)
        requires
            old(self)@.extend_u().ok,
        ensures
            final(self)@ == old(self)@.extend_u(),
            final(self).same_function(*old(self)),
            *final(final(self).out) == *final(old(self).out),
    {
        let val = self.pop();
        self.free_value(val);
        let new_reg = self.take(GPRType::Rq);
        let dst = Operand::Gpr(new_reg);
        let out = match val {
            ValueLocation::Immediate(imm) => {
                self.release(new_reg);
                ValueLocation::Immediate(
                    Value::I64(imm.as_i32().unwrap() as u32 as u64 as i64),
                )
            },
            ValueLocation::Reg(reg) => {
                match reg {
                    GPR::Rx(_) => {
                        self.emit(Insn::Movd { dst, src: Operand::Gpr(reg) });
                    },
                    GPR::Rq(_) => {
                        self.emit(Insn::Mov { w: Width::D, dst, src: Operand::Gpr(reg) });
                    },
                }
                ValueLocation::Reg(new_reg)
            },
            ValueLocation::Stack(offset) => {
                let offset: i32 = self.adjusted_offset(offset);
                self.emit(Insn::Mov { w: Width::D, dst, src: stack_slot(offset) });
                ValueLocation::Reg(new_reg)
            },
        };
        self.push(out);
    }

    pub fn i32_extend_s(&mut self)
        requires
            old(self)@.extend_s().ok,
        ensures
            final(self)@ == old(self)@.extend_s(),
            final(self).same_function(*old(self)),
            *final(final(self).out) == *final(old(self).out),
    {
        let val = self.pop();
        self.free_value(val);
        let new_reg = self.take(GPRType::Rq);
        let dst: RegId = new_reg.rq().unwrap();
        let out = match val {
            ValueLocation::Immediate(imm) => {
                self.release(new_reg);
                ValueLocation::Immediate(Value::I64(imm.as_i32().unwrap() as i64))
            },
            ValueLocation::Reg(reg) => {
                let src = match reg {
                    GPR::Rx(_) => {
                        self.emit(
                            Insn::Movd { dst: Operand::Gpr(new_reg), src: Operand::Gpr(reg) },
                        );
                        Operand::Gpr(new_reg)
                    },
                    GPR::Rq(_) => Operand::Gpr(reg),
                };
                self.emit(Insn::Movsx { w: Width::Q, dst, src_w: Width::D, src });
                ValueLocation::Reg(new_reg)
            },
            ValueLocation::Stack(offset) => {
                let offset: i32 = self.adjusted_offset(offset);
                self.emit(
                    Insn::Movsx { w: Width::Q, dst, src_w: Width::D, src: stack_slot(offset) },
                );
                ValueLocation::Reg(new_reg)
            },
        };
        self.push(out);
    }

    fn cmov(&mut self, cond: Cond, out: RegId, val: ValueLocation)
        requires
            old(self)@.cmov(cond, out, val).ok,
        ensures
            final(self)@ == old(self)@.cmov(cond, out, val),
            final(self).same_function(*old(self)),
            *final(final(self).out) == *final(old(self).out),
    {
        match val {
            ValueLocation::Stack(offset) => {
                let offset: i32 = self.adjusted_offset(offset);
                self.emit(Insn::Cmov { cond, dst: out, src: stack_slot(offset) });
            },
            other => {
                let scratch = self.into_reg(Some(GPRType::Rq), other);
                self.emit(Insn::Cmov { cond, dst: out, src: Operand::Gpr(scratch) });
                self.release(scratch);
            },
        }
    }

    /// Chooses one of two values: pops the condition, the value for zero and the value for all
    /// else.
    pub fn select(&mut self)
        requires
            old(self)@.select().ok,
        ensures
            final(self)@ == old(self)@.select(),
            final(self).same_function(*old(self)),
            *final(final(self).out) == *final(old(self).out),
    {
        let cond = self.pop();
        let else_ = self.pop();
        let then_ = self.pop();
        match cond {
            ValueLocation::Immediate(i) => {
                if i.as_i32().unwrap() == 0 {
                    self.push(else_);
                } else {
                    self.push(then_);
                }
                return ;
            },
            other => {
                let reg = self.into_reg(Some(GPRType::Rq), other);
                let left: RegId = reg.rq().unwrap();
                self.emit(Insn::Test { w: Width::D, left, right: Operand::Gpr(reg) });
                self.release(reg);
            },
        }
        let out_gpr = self.take(GPRType::Rq);
        let out: RegId = out_gpr.rq().unwrap();
        self.cmov(Cond::E, out, else_);
        self.cmov(Cond::Ne, out, then_);
        self.push(ValueLocation::Reg(out_gpr));
    }
}

} // verus!
