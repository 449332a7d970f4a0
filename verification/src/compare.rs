//! Comparisons.

use vstd::prelude::*;

use crate::arith::fits_i32;
use crate::context::{stack_slot, Context};
use crate::insn::{AluOp, Cond, Insn, Operand, Precision, Width};
use crate::laws::ordering::{lemma_tells_greater, lemma_tells_less};
use crate::location::ValueLocation;
use crate::microwasm::{Ieee32, Ieee64, Value};
use crate::module_context::ModuleContext;
use crate::registers::{GPRType, RegId, GPR};
use crate::state::State;

verus! {

/// How two integers are compared: `U` is without and `S` with sign.
#[derive(Debug, Copy, Clone, PartialEq, Eq, Structural)]
pub enum Relation {
    Eq,
    Ne,
    LtU,
    LeU,
    GtU,
    GeU,
    LtS,
    LeS,
    GtS,
    GeS,
}

impl Relation {
    /// The condition that holds after a comparison if its operands stand in this relation.
    pub open spec fn spec_cond(self) -> Cond {
        match self {
            Relation::Eq => Cond::E,
            Relation::Ne => Cond::Ne,
            Relation::LtU => Cond::B,
            Relation::LeU => Cond::Be,
            Relation::GtU => Cond::A,
            Relation::GeU => Cond::Ae,
            Relation::LtS => Cond::L,
            Relation::LeS => Cond::Le,
            Relation::GtS => Cond::G,
            Relation::GeS => Cond::Ge,
        }
    }

    #[verifier::when_used_as_spec(spec_cond)]
    pub fn cond(self) -> (cond: Cond)
        ensures
            cond == self.spec_cond(),
    {
        match self {
            Relation::Eq => Cond::E,
            Relation::Ne => Cond::Ne,
            Relation::LtU => Cond::B,
            Relation::LeU => Cond::Be,
            Relation::GtU => Cond::A,
            Relation::GeU => Cond::Ae,
            Relation::LtS => Cond::L,
            Relation::LeS => Cond::Le,
            Relation::GtS => Cond::G,
            Relation::GeS => Cond::Ge,
        }
    }

    /// The relation between the operands in reverse order.
    pub open spec fn spec_reverse(self) -> Relation {
        match self {
            Relation::Eq => Relation::Eq,
            Relation::Ne => Relation::Ne,
            Relation::LtU => Relation::GtU,
            Relation::LeU => Relation::GeU,
            Relation::GtU => Relation::LtU,
            Relation::GeU => Relation::LeU,
            Relation::LtS => Relation::GtS,
            Relation::LeS => Relation::GeS,
            Relation::GtS => Relation::LtS,
            Relation::GeS => Relation::LeS,
        }
    }

    #[verifier::when_used_as_spec(spec_reverse)]
    pub fn reverse(self) -> (rel: Relation)
        ensures
            rel == self.spec_reverse(),
    {
        match self {
            Relation::Eq => Relation::Eq,
            Relation::Ne => Relation::Ne,
            Relation::LtU => Relation::GtU,
            Relation::LeU => Relation::GeU,
            Relation::GtU => Relation::LtU,
            Relation::GeU => Relation::LeU,
            Relation::LtS => Relation::GtS,
            Relation::LeS => Relation::GeS,
            Relation::GtS => Relation::LtS,
            Relation::GeS => Relation::LeS,
        }
    }

    /// Whether two numbers of 32 bits stand in this relation.
    pub open spec fn spec_holds_i32(self, a: i32, b: i32) -> bool {
        match self {
            Relation::Eq => a == b,
            Relation::Ne => a != b,
            Relation::LtU => (a as u32) < (b as u32),
            Relation::LeU => (a as u32) <= (b as u32),
            Relation::GtU => (a as u32) > (b as u32),
            Relation::GeU => (a as u32) >= (b as u32),
            Relation::LtS => a < b,
            Relation::LeS => a <= b,
            Relation::GtS => a > b,
            Relation::GeS => a >= b,
        }
    }

    #[verifier::when_used_as_spec(spec_holds_i32)]
    pub fn holds_i32(self, a: i32, b: i32) -> (res: bool)
        ensures
            res == self.spec_holds_i32(a, b),
    {
        match self {
            Relation::Eq => a == b,
            Relation::Ne => a != b,
            Relation::LtU => (a as u32) < (b as u32),
            Relation::LeU => (a as u32) <= (b as u32),
            Relation::GtU => (a as u32) > (b as u32),
            Relation::GeU => (a as u32) >= (b as u32),
            Relation::LtS => a < b,
            Relation::LeS => a <= b,
            Relation::GtS => a > b,
            Relation::GeS => a >= b,
        }
    }

    /// Whether two numbers of 64 bits stand in this relation.
    pub open spec fn spec_holds_i64(self, a: i64, b: i64) -> bool {
        match self {
            Relation::Eq => a == b,
            Relation::Ne => a != b,
            Relation::LtU => (a as u64) < (b as u64),
            Relation::LeU => (a as u64) <= (b as u64),
            Relation::GtU => (a as u64) > (b as u64),
            Relation::GeU => (a as u64) >= (b as u64),
            Relation::LtS => a < b,
            Relation::LeS => a <= b,
            Relation::GtS => a > b,
            Relation::GeS => a >= b,
        }
    }

    #[verifier::when_used_as_spec(spec_holds_i64)]
    pub fn holds_i64(self, a: i64, b: i64) -> (res: bool)
        ensures
            res == self.spec_holds_i64(a, b),
    {
        match self {
            Relation::Eq => a == b,
            Relation::Ne => a != b,
            Relation::LtU => (a as u64) < (b as u64),
            Relation::LeU => (a as u64) <= (b as u64),
            Relation::GtU => (a as u64) > (b as u64),
            Relation::GeU => (a as u64) >= (b as u64),
            Relation::LtS => a < b,
            Relation::LeS => a <= b,
            Relation::GtS => a > b,
            Relation::GeS => a >= b,
        }
    }
}

/// The constant that stands for a truth value.
pub open spec fn truth(b: bool) -> ValueLocation {
    ValueLocation::Immediate(
        Value::I32(
            if b {
                1
            } else {
                0
            },
        ),
    )
}

fn truth_value(b: bool) -> (loc: ValueLocation)
    ensures
        loc == truth(b),
{
    ValueLocation::Immediate(
        Value::I32(
            if b {
                1
            } else {
                0
            },
        ),
    )
}

/// The number by which a comparison of `w` bits has a constant as an operand, if there is one.
pub open spec fn const_operand(w: Width, loc: ValueLocation) -> Option<i64> {
    match w {
        Width::Q => loc.imm_i64(),
        _ => match loc.imm_i32() {
            Some(i) => Some(i as i64),
            None => None,
        },
    }
}

fn constant_of(w: Width, loc: ValueLocation) -> (imm: Option<i64>)
    ensures
        imm == const_operand(w, loc),
{
    match w {
        Width::Q => loc.imm_i64(),
        _ => match loc.imm_i32() {
            Some(i) => Some(i as i64),
            None => None,
        },
    }
}

/// What a comparison of two constants gives.
pub open spec fn fold_relation(rel: Relation, w: Width, a: i64, b: i64) -> bool {
    match w {
        Width::Q => rel.holds_i64(a, b),
        _ => rel.holds_i32(a as i32, b as i32),
    }
}

fn compute_relation(rel: Relation, w: Width, a: i64, b: i64) -> (res: bool)
    ensures
        res == fold_relation(rel, w, a, b),
{
    match w {
        Width::Q => rel.holds_i64(a, b),
        _ => rel.holds_i32(a as i32, b as i32),
    }
}

/// Whether `bits` is a NaN.
pub open spec fn is_nan_f32(bits: u32) -> bool {
    bits & 0x7fff_ffff > 0x7f80_0000
}

/// A number that orders as the floating-point number with these bits does.
pub open spec fn order_f32(bits: u32) -> int {
    let magnitude = (bits & 0x7fff_ffff) as int;
    if bits & 0x8000_0000 != 0 {
        -magnitude
    } else {
        magnitude
    }
}

pub open spec fn is_nan_f64(bits: u64) -> bool {
    bits & 0x7fff_ffff_ffff_ffff > 0x7ff0_0000_0000_0000
}

pub open spec fn order_f64(bits: u64) -> int {
    let magnitude = (bits & 0x7fff_ffff_ffff_ffff) as int;
    if bits & 0x8000_0000_0000_0000 != 0 {
        -magnitude
    } else {
        magnitude
    }
}

/// Whether `a > b`, or `a >= b` if `or_equal`. Neither holds of a NaN.
pub open spec fn fold_f32(a: Ieee32, b: Ieee32, or_equal: bool) -> bool {
    &&& !is_nan_f32(a.0)
    &&& !is_nan_f32(b.0)
    &&& order_f32(a.0) > order_f32(b.0) || (or_equal && order_f32(a.0) == order_f32(b.0))
}

pub open spec fn fold_f64(a: Ieee64, b: Ieee64, or_equal: bool) -> bool {
    &&& !is_nan_f64(a.0)
    &&& !is_nan_f64(b.0)
    &&& order_f64(a.0) > order_f64(b.0) || (or_equal && order_f64(a.0) == order_f64(b.0))
}

fn ordered_f32(a: Ieee32, b: Ieee32, or_equal: bool) -> (res: bool)
    ensures
        res == fold_f32(a, b, or_equal),
{
    let (a, b): (u32, u32) = (a.bits(), b.bits());
    let a_abs: u32 = a & 0x7fff_ffff;
    let b_abs: u32 = b & 0x7fff_ffff;
    if a_abs > 0x7f80_0000 || b_abs > 0x7f80_0000 {
        return false;
    }
    let a_key: i64 = if a & 0x8000_0000 != 0 {
        -(a_abs as i64)
    } else {
        a_abs as i64
    };
    let b_key: i64 = if b & 0x8000_0000 != 0 {
        -(b_abs as i64)
    } else {
        b_abs as i64
    };
    a_key > b_key || (or_equal && a_key == b_key)
}

fn ordered_f64(a: Ieee64, b: Ieee64, or_equal: bool) -> (res: bool)
    ensures
        res == fold_f64(a, b, or_equal),
{
    let (a, b): (u64, u64) = (a.bits(), b.bits());
    let a_abs: u64 = a & 0x7fff_ffff_ffff_ffff;
    let b_abs: u64 = b & 0x7fff_ffff_ffff_ffff;
    if a_abs > 0x7ff0_0000_0000_0000 || b_abs > 0x7ff0_0000_0000_0000 {
        return false;
    }
    let a_key: i128 = if a & 0x8000_0000_0000_0000 != 0 {
        -(a_abs as i128)
    } else {
        a_abs as i128
    };
    let b_key: i128 = if b & 0x8000_0000_0000_0000 != 0 {
        -(b_abs as i128)
    } else {
        b_abs as i128
    };
    a_key > b_key || (or_equal && a_key == b_key)
}

/// Whether both are constants of the given precision.
pub open spec fn both_float(prec: Precision, a: ValueLocation, b: ValueLocation) -> bool {
    match prec {
        Precision::Single => a.imm_f32() is Some && b.imm_f32() is Some,
        Precision::Double => a.imm_f64() is Some && b.imm_f64() is Some,
    }
}

/// What a comparison of two floating-point constants gives.
pub open spec fn fold_float(
    prec: Precision,
    a: ValueLocation,
    b: ValueLocation,
    or_equal: bool,
) -> bool {
    match prec {
        Precision::Single => fold_f32(a.imm_f32()->0, b.imm_f32()->0, or_equal),
        Precision::Double => fold_f64(a.imm_f64()->0, b.imm_f64()->0, or_equal),
    }
}

/// What a comparison of two values gives if both are constants.
fn compute_float(
    prec: Precision,
    a: ValueLocation,
    b: ValueLocation,
    or_equal: bool,
) -> (res: Option<bool>)
    ensures
        res == (if both_float(prec, a, b) {
            Some(fold_float(prec, a, b, or_equal))
        } else {
            None
        }),
{
    match prec {
        Precision::Single => {
            if let (Some(a), Some(b)) = (a.imm_f32(), b.imm_f32()) {
                Some(ordered_f32(a, b, or_equal))
            } else {
                None
            }
        },
        Precision::Double => {
            if let (Some(a), Some(b)) = (a.imm_f64(), b.imm_f64()) {
                Some(ordered_f64(a, b, or_equal))
            } else {
                None
            }
        },
    }
}

impl State {
    /// Sets `result` to whether `cond` holds after the comparison of two operands.
    pub open spec fn compare(
        self,
        w: Width,
        result: RegId,
        left: Operand,
        right: Operand,
        cond: Cond,
    ) -> State {
        self.emit(
            Insn::Alu { op: AluOp::Xor, w: Width::D, dst: result, src: Operand::rq(result) },
        ).emit(Insn::Cmp { w, left, right }).emit(Insn::Setcc { cond, dst: result })
    }

    /// Compares a constant with a value that is not in the way of a comparison the other way
    /// round.
    pub open spec fn relation_const(
        self,
        rel: Relation,
        w: Width,
        imm: i64,
        right: ValueLocation,
    ) -> State {
        match right {
            ValueLocation::Stack(o) => {
                let (s, result) = self.take(GPRType::Rq);
                s.need(self.has_slot(o) && fits_i32(imm)).compare(
                    w,
                    result.id(),
                    self.slot(o),
                    Operand::Imm(imm),
                    rel.reverse().cond(),
                ).push(ValueLocation::Reg(result))
            },
            ValueLocation::Reg(reg) => {
                let (s, result) = self.take(GPRType::Rq);
                s.need(reg is Rq && fits_i32(imm)).compare(
                    w,
                    result.id(),
                    Operand::Gpr(reg),
                    Operand::Imm(imm),
                    rel.reverse().cond(),
                ).release(reg).push(ValueLocation::Reg(result))
            },
            ValueLocation::Immediate(_) => {
                let other = const_operand(w, right);
                self.need(other is Some).push(truth(fold_relation(rel, w, imm, other->0)))
            },
        }
    }

    /// Compares the two values on top of the stack, which have `w` bits each.
    pub open spec fn relation(self, rel: Relation, w: Width) -> State {
        let (s, right) = self.pop();
        let (s, left) = s.pop();
        match const_operand(w, left) {
            Some(imm) => s.relation_const(rel, w, imm, right),
            None => {
                let (s, lreg) = s.into_reg(Some(GPRType::Rq), left);
                let (s, result) = s.take(GPRType::Rq);
                let l = Operand::Gpr(lreg);
                let s = match right {
                    ValueLocation::Stack(o) => s.need(s.has_slot(o)).compare(
                        w,
                        result.id(),
                        l,
                        s.slot(o),
                        rel.cond(),
                    ),
                    ValueLocation::Reg(reg) => s.need(reg is Rq).compare(
                        w,
                        result.id(),
                        l,
                        Operand::Gpr(reg),
                        rel.cond(),
                    ),
                    ValueLocation::Immediate(_) => {
                        let imm = const_operand(w, right);
                        s.need(imm is Some && fits_i32(imm->0)).compare(
                            w,
                            result.id(),
                            l,
                            Operand::Imm(imm->0),
                            rel.cond(),
                        )
                    },
                };
                s.release(lreg).free_value(right).push(ValueLocation::Reg(result))
            },
        }
    }

    /// Compares the top of the stack with zero.
    pub open spec fn eqz(self, w: Width) -> State {
        let (s, val) = self.pop();
        match const_operand(w, val) {
            Some(imm) => s.push(truth(imm == 0)),
            None => {
                let (s, reg) = s.into_reg(Some(GPRType::Rq), val);
                let (s, out) = s.take(GPRType::Rq);
                s.emit(
                    Insn::Alu {
                        op: AluOp::Xor,
                        w: Width::D,
                        dst: out.id(),
                        src: Operand::Gpr(out),
                    },
                ).emit(Insn::Test { w, left: reg.id(), right: Operand::Gpr(reg) }).emit(
                    Insn::Setcc { cond: Cond::E, dst: out.id() },
                ).release(reg).push(ValueLocation::Reg(out))
            },
        }
    }

    /// Compares two floating-point values: sets the result to whether `cond` holds. The values
    /// may be moved; where they are then is returned too.
    pub open spec fn compare_float(
        self,
        prec: Precision,
        cond: Cond,
        left: ValueLocation,
        right: ValueLocation,
    ) -> (State, ValueLocation, ValueLocation, ValueLocation) {
        if both_float(prec, left, right) {
            (self, truth(fold_float(prec, left, right, cond == Cond::Ae)), left, right)
        } else {
            let (s, lreg) = self.into_reg(Some(GPRType::Rx), left);
            let (s, result) = s.take(GPRType::Rq);
            match right {
                ValueLocation::Stack(o) => (
                    s.need(s.has_slot(o)).comis(prec, result.id(), lreg.id(), s.slot(o), cond),
                    ValueLocation::Reg(result),
                    ValueLocation::Reg(lreg),
                    right,
                ),
                _ => {
                    let (s, rreg) = s.into_reg(Some(GPRType::Rx), right);
                    (
                        s.comis(prec, result.id(), lreg.id(), Operand::Gpr(rreg), cond),
                        ValueLocation::Reg(result),
                        ValueLocation::Reg(lreg),
                        ValueLocation::Reg(rreg),
                    )
                },
            }
        }
    }

    pub open spec fn comis(
        self,
        prec: Precision,
        result: RegId,
        left: RegId,
        right: Operand,
        cond: Cond,
    ) -> State {
        self.emit(
            Insn::Alu { op: AluOp::Xor, w: Width::Q, dst: result, src: Operand::rq(result) },
        ).emit(Insn::Comis { prec, left, right }).emit(Insn::Setcc { cond, dst: result })
    }

    /// Whether the value below the top of the stack is greater than (or equal to) the top.
    pub open spec fn float_greater(self, prec: Precision, cond: Cond) -> State {
        let (s, right) = self.pop();
        let (s, left) = s.pop();
        let (s, out, left, right) = s.compare_float(prec, cond, left, right);
        s.free_value(left).free_value(right).push(out)
    }

    /// Whether the value below the top of the stack is less than (or equal to) the top.
    pub open spec fn float_less(self, prec: Precision, cond: Cond) -> State {
        let (s, right) = self.pop();
        let (s, left) = s.pop();
        let (s, out, right, left) = s.compare_float(prec, cond, right, left);
        s.free_value(left).free_value(right).push(out)
    }
}

impl<'a, M: ModuleContext> Context<'a, M> {
    fn compare(&mut self, w: Width, result: RegId, left: Operand, right: Operand, cond: Cond)
        ensures
            final(self)@ == old(self)@.compare(w, result, left, right, cond),
            final(self).same_function(*old(self)),
            *final(final(self).out) == *final(old(self).out),
    {
        self.emit(
            Insn::Alu {
                op: AluOp::Xor,
                w: Width::D,
                dst: result,
                src: Operand::Gpr(GPR::Rq(result)),
            },
        );
        self.emit(Insn::Cmp { w, left, right });
        self.emit(Insn::Setcc { cond, dst: result });
    }

    fn relation_const(&mut self, rel: Relation, w: Width, imm: i64, right: ValueLocation)
        requires
            old(self)@.relation_const(rel, w, imm, right).ok,
        ensures
            final(self)@ == old(self)@.relation_const(rel, w, imm, right),
            final(self).same_function(*old(self)),
            *final(final(self).out) == *final(old(self).out),
    {
        let cond = rel.reverse().cond();
        match right {
            ValueLocation::Stack(offset) => {
                let result = self.take(GPRType::Rq);
                let id: RegId = result.rq().unwrap();
                let offset: i32 = self.adjusted_offset(offset);
                self.compare(w, id, stack_slot(offset), Operand::Imm(imm), cond);
                self.push(ValueLocation::Reg(result));
            },
            ValueLocation::Reg(rreg) => {
                let result = self.take(GPRType::Rq);
                let id: RegId = result.rq().unwrap();
                self.compare(w, id, Operand::Gpr(rreg), Operand::Imm(imm), cond);
                self.release(rreg);
                self.push(ValueLocation::Reg(result));
            },
            ValueLocation::Immediate(_) => {
                let other: i64 = constant_of(w, right).unwrap();
                self.push(truth_value(compute_relation(rel, w, imm, other)));
            },
        }
    }

    fn relation(&mut self, rel: Relation, w: Width)
        requires
            old(self)@.relation(rel, w).ok,
        ensures
            final(self)@ == old(self)@.relation(rel, w),
            final(self).same_function(*old(self)),
            *final(final(self).out) == *final(old(self).out),
    {
        let right = self.pop();
        let left = self.pop();
        if let Some(i) = constant_of(w, left) {
            self.relation_const(rel, w, i, right);
            return ;
        }
        let lreg = self.into_reg(Some(GPRType::Rq), left);
        let result = self.take(GPRType::Rq);
        let id: RegId = result.rq().unwrap();
        let cond = rel.cond();
        match right {
            ValueLocation::Stack(offset) => {
                let offset: i32 = self.adjusted_offset(offset);
                self.compare(w, id, Operand::Gpr(lreg), stack_slot(offset), cond);
            },
            ValueLocation::Reg(rreg) => {
                self.compare(w, id, Operand::Gpr(lreg), Operand::Gpr(rreg), cond);
            },
            ValueLocation::Immediate(_) => {
                let i: i64 = constant_of(w, right).unwrap();
                self.compare(w, id, Operand::Gpr(lreg), Operand::Imm(i), cond);
            },
        }
        self.release(lreg);
        self.free_value(right);
        self.push(ValueLocation::Reg(result));
    }

    /// Whether the `i32` below the top of the stack is equal to the top.
    pub fn i32_eq(&mut self)
        requires
            old(self)@.relation(Relation::Eq, Width::D).ok,
        ensures
            final(self)@ == old(self)@.relation(Relation::Eq, Width::D),
            final(self).same_function(*old(self)),
            *final(final(self).out) == *final(old(self).out),
    {
        self.relation(Relation::Eq, Width::D);
    }

    /// Whether the `i32` below the top of the stack differs from the top.
    pub fn i32_neq(&mut self)
        requires
            old(self)@.relation(Relation::Ne, Width::D).ok,
        ensures
            final(self)@ == old(self)@.relation(Relation::Ne, Width::D),
            final(self).same_function(*old(self)),
            *final(final(self).out) == *final(old(self).out),
    {
        self.relation(Relation::Ne, Width::D);
    }

    /// Whether the `i32` below the top of the stack is less than the top, without sign.
    pub fn i32_lt_u(&mut self)
        requires
            old(self)@.relation(Relation::LtU, Width::D).ok,
        ensures
            final(self)@ == old(self)@.relation(Relation::LtU, Width::D),
            final(self).same_function(*old(self)),
            *final(final(self).out) == *final(old(self).out),
    {
        self.relation(Relation::LtU, Width::D);
    }

    /// Whether the `i32` below the top of the stack is at most the top, without sign.
    pub fn i32_le_u(&mut self)
        requires
            old(self)@.relation(Relation::LeU, Width::D).ok,
        ensures
            final(self)@ == old(self)@.relation(Relation::LeU, Width::D),
            final(self).same_function(*old(self)),
            *final(final(self).out) == *final(old(self).out),
    {
        self.relation(Relation::LeU, Width::D);
    }

    /// Whether the `i32` below the top of the stack is greater than the top, without sign.
    pub fn i32_gt_u(&mut self)
        requires
            old(self)@.relation(Relation::GtU, Width::D).ok,
        ensures
            final(self)@ == old(self)@.relation(Relation::GtU, Width::D),
            final(self).same_function(*old(self)),
            *final(final(self).out) == *final(old(self).out),
    {
        self.relation(Relation::GtU, Width::D);
    }

    /// Whether the `i32` below the top of the stack is at least the top, without sign.
    pub fn i32_ge_u(&mut self)
        requires
            old(self)@.relation(Relation::GeU, Width::D).ok,
        ensures
            final(self)@ == old(self)@.relation(Relation::GeU, Width::D),
            final(self).same_function(*old(self)),
            *final(final(self).out) == *final(old(self).out),
    {
        self.relation(Relation::GeU, Width::D);
    }

    /// Whether the `i32` below the top of the stack is less than the top, with sign.
    pub fn i32_lt_s(&mut self)
        requires
            old(self)@.relation(Relation::LtS, Width::D).ok,
        ensures
            final(self)@ == old(self)@.relation(Relation::LtS, Width::D),
            final(self).same_function(*old(self)),
            *final(final(self).out) == *final(old(self).out),
    {
        self.relation(Relation::LtS, Width::D);
    }

    /// Whether the `i32` below the top of the stack is at most the top, with sign.
    pub fn i32_le_s(&mut self)
        requires
            old(self)@.relation(Relation::LeS, Width::D).ok,
        ensures
            final(self)@ == old(self)@.relation(Relation::LeS, Width::D),
            final(self).same_function(*old(self)),
            *final(final(self).out) == *final(old(self).out),
    {
        self.relation(Relation::LeS, Width::D);
    }

    /// Whether the `i32` below the top of the stack is greater than the top, with sign.
    pub fn i32_gt_s(&mut self)
        requires
            old(self)@.relation(Relation::GtS, Width::D).ok,
        ensures
            final(self)@ == old(self)@.relation(Relation::GtS, Width::D),
            final(self).same_function(*old(self)),
            *final(final(self).out) == *final(old(self).out),
    {
        self.relation(Relation::GtS, Width::D);
    }

    /// Whether the `i32` below the top of the stack is at least the top, with sign.
    pub fn i32_ge_s(&mut self)
        requires
            old(self)@.relation(Relation::GeS, Width::D).ok,
        ensures
            final(self)@ == old(self)@.relation(Relation::GeS, Width::D),
            final(self).same_function(*old(self)),
            *final(final(self).out) == *final(old(self).out),
    {
        self.relation(Relation::GeS, Width::D);
    }

    /// Whether the `i64` below the top of the stack is equal to the top.
    pub fn i64_eq(&mut self)
        requires
            old(self)@.relation(Relation::Eq, Width::Q).ok,
        ensures
            final(self)@ == old(self)@.relation(Relation::Eq, Width::Q),
            final(self).same_function(*old(self)),
            *final(final(self).out) == *final(old(self).out),
    {
        self.relation(Relation::Eq, Width::Q);
    }

    /// Whether the `i64` below the top of the stack differs from the top.
    pub fn i64_neq(&mut self)
        requires
            old(self)@.relation(Relation::Ne, Width::Q).ok,
        ensures
            final(self)@ == old(self)@.relation(Relation::Ne, Width::Q),
            final(self).same_function(*old(self)),
            *final(final(self).out) == *final(old(self).out),
    {
        self.relation(Relation::Ne, Width::Q);
    }

    /// Whether the `i64` below the top of the stack is less than the top, without sign.
    pub fn i64_lt_u(&mut self)
        requires
            old(self)@.relation(Relation::LtU, Width::Q).ok,
        ensures
            final(self)@ == old(self)@.relation(Relation::LtU, Width::Q),
            final(self).same_function(*old(self)),
            *final(final(self).out) == *final(old(self).out),
    {
        self.relation(Relation::LtU, Width::Q);
    }

    /// Whether the `i64` below the top of the stack is at most the top, without sign.
    pub fn i64_le_u(&mut self)
        requires
            old(self)@.relation(Relation::LeU, Width::Q).ok,
        ensures
            final(self)@ == old(self)@.relation(Relation::LeU, Width::Q),
            final(self).same_function(*old(self)),
            *final(final(self).out) == *final(old(self).out),
    {
        self.relation(Relation::LeU, Width::Q);
    }

    /// Whether the `i64` below the top of the stack is greater than the top, without sign.
    pub fn i64_gt_u(&mut self)
        requires
            old(self)@.relation(Relation::GtU, Width::Q).ok,
        ensures
            final(self)@ == old(self)@.relation(Relation::GtU, Width::Q),
            final(self).same_function(*old(self)),
            *final(final(self).out) == *final(old(self).out),
    {
        self.relation(Relation::GtU, Width::Q);
    }

    /// Whether the `i64` below the top of the stack is at least the top, without sign.
    pub fn i64_ge_u(&mut self)
        requires
            old(self)@.relation(Relation::GeU, Width::Q).ok,
        ensures
            final(self)@ == old(self)@.relation(Relation::GeU, Width::Q),
            final(self).same_function(*old(self)),
            *final(final(self).out) == *final(old(self).out),
    {
        self.relation(Relation::GeU, Width::Q);
    }

    /// Whether the `i64` below the top of the stack is less than the top, with sign.
    pub fn i64_lt_s(&mut self)
        requires
            old(self)@.relation(Relation::LtS, Width::Q).ok,
        ensures
            final(self)@ == old(self)@.relation(Relation::LtS, Width::Q),
            final(self).same_function(*old(self)),
            *final(final(self).out) == *final(old(self).out),
    {
        self.relation(Relation::LtS, Width::Q);
    }

    /// Whether the `i64` below the top of the stack is at most the top, with sign.
    pub fn i64_le_s(&mut self)
        requires
            old(self)@.relation(Relation::LeS, Width::Q).ok,
        ensures
            final(self)@ == old(self)@.relation(Relation::LeS, Width::Q),
            final(self).same_function(*old(self)),
            *final(final(self).out) == *final(old(self).out),
    {
        self.relation(Relation::LeS, Width::Q);
    }

    /// Whether the `i64` below the top of the stack is greater than the top, with sign.
    pub fn i64_gt_s(&mut self)
        requires
            old(self)@.relation(Relation::GtS, Width::Q).ok,
        ensures
            final(self)@ == old(self)@.relation(Relation::GtS, Width::Q),
            final(self).same_function(*old(self)),
            *final(final(self).out) == *final(old(self).out),
    {
        self.relation(Relation::GtS, Width::Q);
    }

    /// Whether the `i64` below the top of the stack is at least the top, with sign.
    pub fn i64_ge_s(&mut self)
        requires
            old(self)@.relation(Relation::GeS, Width::Q).ok,
        ensures
            final(self)@ == old(self)@.relation(Relation::GeS, Width::Q),
            final(self).same_function(*old(self)),
            *final(final(self).out) == *final(old(self).out),
    {
        self.relation(Relation::GeS, Width::Q);
    }

    fn eqz(&mut self, w: Width)
        requires
            old(self)@.eqz(w).ok,
        ensures
            final(self)@ == old(self)@.eqz(w),
            final(self).same_function(*old(self)),
            *final(final(self).out) == *final(old(self).out),
    {
        let val = self.pop();
        if let Some(i) = constant_of(w, val) {
            self.push(truth_value(i == 0));
            return ;
        }
        let reg = self.into_reg(Some(GPRType::Rq), val);
        let left: RegId = reg.rq().unwrap();
        let out = self.take(GPRType::Rq);
        let dst: RegId = out.rq().unwrap();
        self.emit(Insn::Alu { op: AluOp::Xor, w: Width::D, dst, src: Operand::Gpr(out) });
        self.emit(Insn::Test { w, left, right: Operand::Gpr(reg) });
        self.emit(Insn::Setcc { cond: Cond::E, dst });
        self.release(reg);
        self.push(ValueLocation::Reg(out));
    }

    /// Whether the `i32` on top of the stack is zero.
    pub fn i32_eqz(&mut self)
        requires
            old(self)@.eqz(Width::D).ok,
        ensures
            final(self)@ == old(self)@.eqz(Width::D),
            final(self).same_function(*old(self)),
            *final(final(self).out) == *final(old(self).out),
    {
        self.eqz(Width::D);
    }

    /// Whether the `i64` on top of the stack is zero.
    pub fn i64_eqz(&mut self)
        requires
            old(self)@.eqz(Width::Q).ok,
        ensures
            final(self)@ == old(self)@.eqz(Width::Q),
            final(self).same_function(*old(self)),
            *final(final(self).out) == *final(old(self).out),
    {
        self.eqz(Width::Q);
    }

    fn comis(&mut self, prec: Precision, result: RegId, left: RegId, right: Operand, cond: Cond)
        ensures
            final(self)@ == old(self)@.comis(prec, result, left, right, cond),
            final(self).same_function(*old(self)),
            *final(final(self).out) == *final(old(self).out),
    {
        self.emit(
            Insn::Alu {
                op: AluOp::Xor,
                w: Width::Q,
                dst: result,
                src: Operand::Gpr(GPR::Rq(result)),
            },
        );
        self.emit(Insn::Comis { prec, left, right });
        self.emit(Insn::Setcc { cond, dst: result });
    }

    fn compare_float(
        &mut self,
        prec: Precision,
        cond: Cond,
        left: ValueLocation,
        right: ValueLocation,
    ) -> (res: (ValueLocation, ValueLocation, ValueLocation))
        requires
            old(self)@.compare_float(prec, cond, left, right).0.ok,
        ensures
            (final(self)@, res.0, res.1, res.2) == old(self)@.compare_float(
                prec,
                cond,
                left,
                right,
            ),
            final(self).same_function(*old(self)),
            *final(final(self).out) == *final(old(self).out),
    {
        let or_equal = match cond {
            Cond::Ae => true,
            _ => false,
        };
        if let Some(res) = compute_float(prec, left, right, or_equal) {
            return (truth_value(res), left, right);
        }
        let lreg = self.into_reg(Some(GPRType::Rx), left);
        let lid: RegId = lreg.rx().unwrap();
        let result = self.take(GPRType::Rq);
        let id: RegId = result.rq().unwrap();
        match right {
            ValueLocation::Stack(offset) => {
                let offset: i32 = self.adjusted_offset(offset);
                self.comis(prec, id, lid, stack_slot(offset), cond);
                (ValueLocation::Reg(result), ValueLocation::Reg(lreg), right)
            },
            right => {
                let rreg = self.into_reg(Some(GPRType::Rx), right);
                self.comis(prec, id, lid, Operand::Gpr(rreg), cond);
                (ValueLocation::Reg(result), ValueLocation::Reg(lreg), ValueLocation::Reg(rreg))
            },
        }
    }

    fn float_greater(&mut self, prec: Precision, cond: Cond)
        requires
            old(self)@.float_greater(prec, cond).ok,
        ensures
            final(self)@ == old(self)@.float_greater(prec, cond),
            final(self).same_function(*old(self)),
            *final(final(self).out) == *final(old(self).out),
    {
        let right = self.pop();
        let left = self.pop();
        let (out, left, right) = self.compare_float(prec, cond, left, right);
        self.free_value(left);
        self.free_value(right);
        self.push(out);
    }

    fn float_less(&mut self, prec: Precision, cond: Cond)
        requires
            old(self)@.float_less(prec, cond).ok,
        ensures
            final(self)@ == old(self)@.float_less(prec, cond),
            final(self).same_function(*old(self)),
            *final(final(self).out) == *final(old(self).out),
    {
        let right = self.pop();
        let left = self.pop();
        let (out, right, left) = self.compare_float(prec, cond, right, left);
        self.free_value(left);
        self.free_value(right);
        self.push(out);
    }

    /// Whether the `f32` below the top of the stack is greater than the top.
    pub fn f32_gt(&mut self)
        requires
            old(self)@.float_greater(Precision::Single, Cond::A).ok,
        ensures
            final(self)@ == old(self)@.float_greater(Precision::Single, Cond::A),
            old(self)@.tells_greater(final(self)@, Precision::Single, false),
            final(self).same_function(*old(self)),
            *final(final(self).out) == *final(old(self).out),
    {
        proof {
            lemma_tells_greater(self@, Precision::Single, Cond::A);
        }
        self.float_greater(Precision::Single, Cond::A);
    }

    /// Whether the `f32` below the top of the stack is less than the top.
    pub fn f32_lt(&mut self)
        requires
            old(self)@.float_less(Precision::Single, Cond::A).ok,
        ensures
            final(self)@ == old(self)@.float_less(Precision::Single, Cond::A),
            old(self)@.tells_less(final(self)@, Precision::Single, false),
            final(self).same_function(*old(self)),
            *final(final(self).out) == *final(old(self).out),
    {
        proof {
            lemma_tells_less(self@, Precision::Single, Cond::A);
        }
        self.float_less(Precision::Single, Cond::A);
    }

    /// Whether the `f32` below the top of the stack is at least the top.
    pub fn f32_ge(&mut self)
        requires
            old(self)@.float_greater(Precision::Single, Cond::Ae).ok,
        ensures
            final(self)@ == old(self)@.float_greater(Precision::Single, Cond::Ae),
            old(self)@.tells_greater(final(self)@, Precision::Single, true),
            final(self).same_function(*old(self)),
            *final(final(self).out) == *final(old(self).out),
    {
        proof {
            lemma_tells_greater(self@, Precision::Single, Cond::Ae);
        }
        self.float_greater(Precision::Single, Cond::Ae);
    }

    /// Whether the `f32` below the top of the stack is at most the top.
    pub fn f32_le(&mut self)
        requires
            old(self)@.float_less(Precision::Single, Cond::Ae).ok,
        ensures
            final(self)@ == old(self)@.float_less(Precision::Single, Cond::Ae),
            old(self)@.tells_less(final(self)@, Precision::Single, true),
            final(self).same_function(*old(self)),
            *final(final(self).out) == *final(old(self).out),
    {
        proof {
            lemma_tells_less(self@, Precision::Single, Cond::Ae);
        }
        self.float_less(Precision::Single, Cond::Ae);
    }

    /// Whether the `f64` below the top of the stack is greater than the top.
    pub fn f64_gt(&mut self)
        requires
            old(self)@.float_greater(Precision::Double, Cond::A).ok,
        ensures
            final(self)@ == old(self)@.float_greater(Precision::Double, Cond::A),
            old(self)@.tells_greater(final(self)@, Precision::Double, false),
            final(self).same_function(*old(self)),
            *final(final(self).out) == *final(old(self).out),
    {
        proof {
            lemma_tells_greater(self@, Precision::Double, Cond::A);
        }
        self.float_greater(Precision::Double, Cond::A);
    }

    /// Whether the `f64` below the top of the stack is less than the top.
    pub fn f64_lt(&mut self)
        requires
            old(self)@.float_less(Precision::Double, Cond::A).ok,
        ensures
            final(self)@ == old(self)@.float_less(Precision::Double, Cond::A),
            old(self)@.tells_less(final(self)@, Precision::Double, false),
            final(self).same_function(*old(self)),
            *final(final(self).out) == *final(old(self).out),
    {
        proof {
            lemma_tells_less(self@, Precision::Double, Cond::A);
        }
        self.float_less(Precision::Double, Cond::A);
    }

    /// Whether the `f64` below the top of the stack is at least the top.
    pub fn f64_ge(&mut self)
        requires
            old(self)@.float_greater(Precision::Double, Cond::Ae).ok,
        ensures
            final(self)@ == old(self)@.float_greater(Precision::Double, Cond::Ae),
            old(self)@.tells_greater(final(self)@, Precision::Double, true),
            final(self).same_function(*old(self)),
            *final(final(self).out) == *final(old(self).out),
    {
        proof {
            lemma_tells_greater(self@, Precision::Double, Cond::Ae);
        }
        self.float_greater(Precision::Double, Cond::Ae);
    }

    /// Whether the `f64` below the top of the stack is at most the top.
    pub fn f64_le(&mut self)
        requires
            old(self)@.float_less(Precision::Double, Cond::Ae).ok,
        ensures
            final(self)@ == old(self)@.float_less(Precision::Double, Cond::Ae),
            old(self)@.tells_less(final(self)@, Precision::Double, true),
            final(self).same_function(*old(self)),
            *final(final(self).out) == *final(old(self).out),
    {
        proof {
            lemma_tells_less(self@, Precision::Double, Cond::Ae);
        }
        self.float_less(Precision::Double, Cond::Ae);
    }
}

} // verus!
