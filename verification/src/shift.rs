//! Shifts and rotations.

use vstd::prelude::*;

use crate::context::{stack_slot, Context};
use crate::insn::{Insn, Operand, ShiftOp, Width};
use crate::location::ValueLocation;
use crate::module_context::ModuleContext;
use crate::registers::{rq, GPRType, RegId, GPR};
use crate::state::State;

verus! {

impl State {
    /// Loads the lowest byte of `count` into `cl`.
    pub open spec fn load_cl(self, count: ValueLocation) -> State {
        let cl = Operand::rq(rq::RCX);
        match count {
            ValueLocation::Reg(gpr) => self.need(gpr is Rq).emit(
                Insn::Mov { w: Width::B, dst: cl, src: Operand::Gpr(gpr) },
            ),
            ValueLocation::Stack(o) => self.need(self.has_slot(o)).emit(
                Insn::Mov { w: Width::B, dst: cl, src: self.slot(o) },
            ),
            ValueLocation::Immediate(imm) => self.need(imm.as_int() is Some).emit(
                Insn::Mov {
                    w: Width::B,
                    dst: cl,
                    src: Operand::Imm(imm.as_int()->0 as i8 as i64),
                },
            ),
        }
    }

    /// Saves `rcx` if it is in use, and tells where.
    pub open spec fn save_rcx(self) -> (State, Option<GPR>) {
        if self.regs.is_free(GPR::Rq(rq::RCX)) {
            (self, None)
        } else {
            let (s, new_reg) = self.take(GPRType::Rq);
            (
                s.emit(
                    Insn::Mov {
                        w: Width::Q,
                        dst: Operand::Gpr(new_reg),
                        src: Operand::rq(rq::RCX),
                    },
                ),
                Some(new_reg),
            )
        }
    }

    /// Puts the count into `cl`. The other value of `rcx` is saved, if there is one.
    pub open spec fn count_to_cl(self, count: ValueLocation) -> (State, Option<GPR>) {
        if count == ValueLocation::Reg(GPR::Rq(rq::RCX)) {
            (self, None)
        } else {
            let (s, saved) = self.save_rcx();
            (s.load_cl(count), saved)
        }
    }

    /// Shifts or rotates the value below the top of the stack by the top of the stack.
    pub open spec fn shift(self, op: ShiftOp, w: Width) -> State {
        let rcx = GPR::Rq(rq::RCX);
        let (s, count) = self.pop();
        let (s, val) = s.pop();
        let (s, val) = if val == ValueLocation::Reg(rcx) {
            // `rcx` is needed for the count.
            let (s, reg) = s.into_fresh_reg(GPRType::Rq, val);
            (s, ValueLocation::Reg(reg))
        } else {
            (s, val)
        };
        s.shift_by(op, w, val, count)
    }

    /// Shifts or rotates `val` by `count` and pushes the result.
    pub open spec fn shift_by(
        self,
        op: ShiftOp,
        w: Width,
        val: ValueLocation,
        count: ValueLocation,
    ) -> State {
        let (s, saved) = self.count_to_cl(count);
        let (s, reg) = s.free_value(count).shift_by_cl(op, w, val, saved);
        s.push(ValueLocation::Reg(reg))
    }

    /// Shifts or rotates `val` by what is in `cl`, in a register that nothing else uses, and
    /// brings back what was in `rcx` before.
    pub open spec fn shift_by_cl(
        self,
        op: ShiftOp,
        w: Width,
        val: ValueLocation,
        saved: Option<GPR>,
    ) -> (State, GPR) {
        let rcx = GPR::Rq(rq::RCX);
        let (s, reg) = self.mark_used(rcx).into_temp_reg(Some(GPRType::Rq), val);
        let s = s.emit(Insn::Shift { op, w, dst: reg.id() }).release(rcx);
        let s = match saved {
            Some(gpr) => s.emit(
                Insn::Mov { w: Width::Q, dst: Operand::Gpr(rcx), src: Operand::Gpr(gpr) },
            ).release(gpr),
            None => s,
        };
        (s, reg)
    }
}

impl<'a, M: ModuleContext> Context<'a, M> {
    fn load_cl(&mut self, count: ValueLocation)
        requires
            old(self)@.load_cl(count).ok,
        ensures
            final(self)@ == old(self)@.load_cl(count),
            final(self).same_function(*old(self)),
            *final(final(self).out) == *final(old(self).out),
    {
        let dst = Operand::Gpr(GPR::Rq(rq::RCX));
        match count {
            ValueLocation::Reg(gpr) => {
                self.emit(Insn::Mov { w: Width::B, dst, src: Operand::Gpr(gpr) });
            },
            ValueLocation::Stack(offset) => {
                let offset: i32 = self.adjusted_offset(offset);
                self.emit(Insn::Mov { w: Width::B, dst, src: stack_slot(offset) });
            },
            ValueLocation::Immediate(imm) => {
                let by: i8 = imm.as_int().unwrap() as i8;
                self.emit(Insn::Mov { w: Width::B, dst, src: Operand::Imm(by as i64) });
            },
        }
    }

    fn save_rcx(&mut self) -> (saved: Option<GPR>)
        requires
            old(self)@.save_rcx().0.ok,
        ensures
            (final(self)@, saved) == old(self)@.save_rcx(),
            final(self).same_function(*old(self)),
            *final(final(self).out) == *final(old(self).out),
    {
        if self.block_state.regs.is_free(GPR::Rq(rq::RCX)) {
            None
        } else {
            let new_reg = self.take(GPRType::Rq);
            self.emit(
                Insn::Mov {
                    w: Width::Q,
                    dst: Operand::Gpr(new_reg),
                    src: Operand::Gpr(GPR::Rq(rq::RCX)),
                },
            );
            Some(new_reg)
        }
    }

    fn count_to_cl(&mut self, count: ValueLocation) -> (saved: Option<GPR>)
        requires
            old(self)@.count_to_cl(count).0.ok,
        ensures
            (final(self)@, saved) == old(self)@.count_to_cl(count),
            final(self).same_function(*old(self)),
            *final(final(self).out) == *final(old(self).out),
    {
        if count == ValueLocation::Reg(GPR::Rq(rq::RCX)) {
            None
        } else {
            let saved = self.save_rcx();
            self.load_cl(count);
            saved
        }
    }

    fn shift(&mut self, op: ShiftOp, w: Width)
        requires
            old(self)@.shift(op, w).ok,
        ensures
            final(self)@ == old(self)@.shift(op, w),
            final(self).same_function(*old(self)),
            *final(final(self).out) == *final(old(self).out),
    {
        let rcx = GPR::Rq(rq::RCX);
        let count = self.pop();
        let mut val = self.pop();
        if val == ValueLocation::Reg(rcx) {
            // `rcx` is needed for the count.
            val = ValueLocation::Reg(self.into_fresh_reg(GPRType::Rq, val));
        }
        let temp_rcx = self.count_to_cl(count);
        self.free_value(count);
        self.mark_used(rcx);
        let reg = self.into_temp_reg(Some(GPRType::Rq), val);
        let dst: RegId = reg.rq().unwrap();
        self.emit(Insn::Shift { op, w, dst });
        self.release(rcx);
        if let Some(gpr) = temp_rcx {
            self.emit(
                Insn::Mov { w: Width::Q, dst: Operand::Gpr(rcx), src: Operand::Gpr(gpr) },
            );
            self.release(gpr);
        }
        self.push(ValueLocation::Reg(reg));
    }

    /// Shifts to the left.
    pub fn i32_shl(&mut self)
        requires
            old(self)@.shift(ShiftOp::Shl, Width::D).ok,
        ensures
            final(self)@ == old(self)@.shift(ShiftOp::Shl, Width::D),
            final(self).same_function(*old(self)),
            *final(final(self).out) == *final(old(self).out),
    {
        self.shift(ShiftOp::Shl, Width::D);
    }

    /// Shifts to the right and fills up with the sign.
    pub fn i32_shr_s(&mut self)
        requires
            old(self)@.shift(ShiftOp::Sar, Width::D).ok,
        ensures
            final(self)@ == old(self)@.shift(ShiftOp::Sar, Width::D),
            final(self).same_function(*old(self)),
            *final(final(self).out) == *final(old(self).out),
    {
        self.shift(ShiftOp::Sar, Width::D);
    }

    /// Shifts to the right and fills up with zeros.
    pub fn i32_shr_u(&mut self)
        requires
            old(self)@.shift(ShiftOp::Shr, Width::D).ok,
        ensures
            final(self)@ == old(self)@.shift(ShiftOp::Shr, Width::D),
            final(self).same_function(*old(self)),
            *final(final(self).out) == *final(old(self).out),
    {
        self.shift(ShiftOp::Shr, Width::D);
    }

    /// Rotates to the left.
    pub fn i32_rotl(&mut self)
        requires
            old(self)@.shift(ShiftOp::Rol, Width::D).ok,
        ensures
            final(self)@ == old(self)@.shift(ShiftOp::Rol, Width::D),
            final(self).same_function(*old(self)),
            *final(final(self).out) == *final(old(self).out),
    {
        self.shift(ShiftOp::Rol, Width::D);
    }

    /// Rotates to the right.
    pub fn i32_rotr(&mut self)
        requires
            old(self)@.shift(ShiftOp::Ror, Width::D).ok,
        ensures
            final(self)@ == old(self)@.shift(ShiftOp::Ror, Width::D),
            final(self).same_function(*old(self)),
            *final(final(self).out) == *final(old(self).out),
    {
        self.shift(ShiftOp::Ror, Width::D);
    }

    /// Shifts to the left.
    pub fn i64_shl(&mut self)
        requires
            old(self)@.shift(ShiftOp::Shl, Width::Q).ok,
        ensures
            final(self)@ == old(self)@.shift(ShiftOp::Shl, Width::Q),
            final(self).same_function(*old(self)),
            *final(final(self).out) == *final(old(self).out),
    {
        self.shift(ShiftOp::Shl, Width::Q);
    }

    /// Shifts to the right and fills up with the sign.
    pub fn i64_shr_s(&mut self)
        requires
            old(self)@.shift(ShiftOp::Sar, Width::Q).ok,
        ensures
            final(self)@ == old(self)@.shift(ShiftOp::Sar, Width::Q),
            final(self).same_function(*old(self)),
            *final(final(self).out) == *final(old(self).out),
    {
        self.shift(ShiftOp::Sar, Width::Q);
    }

    /// Shifts to the right and fills up with zeros.
    pub fn i64_shr_u(&mut self)
        requires
            old(self)@.shift(ShiftOp::Shr, Width::Q).ok,
        ensures
            final(self)@ == old(self)@.shift(ShiftOp::Shr, Width::Q),
            final(self).same_function(*old(self)),
            *final(final(self).out) == *final(old(self).out),
    {
        self.shift(ShiftOp::Shr, Width::Q);
    }

    /// Rotates to the left.
    pub fn i64_rotl(&mut self)
        requires
            old(self)@.shift(ShiftOp::Rol, Width::Q).ok,
        ensures
            final(self)@ == old(self)@.shift(ShiftOp::Rol, Width::Q),
            final(self).same_function(*old(self)),
            *final(final(self).out) == *final(old(self).out),
    {
        self.shift(ShiftOp::Rol, Width::Q);
    }

    /// Rotates to the right.
    pub fn i64_rotr(&mut self)
        requires
            old(self)@.shift(ShiftOp::Ror, Width::Q).ok,
        ensures
            final(self)@ == old(self)@.shift(ShiftOp::Ror, Width::Q),
            final(self).same_function(*old(self)),
            *final(final(self).out) == *final(old(self).out),
    {
        self.shift(ShiftOp::Ror, Width::Q);
    }
}

} // verus!
