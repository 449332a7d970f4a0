//! Division of integers.

use vstd::prelude::*;

use crate::bits::{lemma_i32_views, lemma_i64_views};
use crate::context::{stack_slot, Context};
use crate::insn::{AluOp, Insn, Operand, Width};
use crate::location::ValueLocation;
use crate::microwasm::Value;
use crate::module_context::ModuleContext;
use crate::registers::{lemma_lowest_free, rq, GPRType, RegId, Registers, GPR};
use crate::state::State;

verus! {

/// The register for the dividend and the quotient.
pub open spec fn rax() -> GPR {
    GPR::Rq(rq::RAX)
}

/// The register for the upper half of the dividend and for the remainder.
pub open spec fn rdx() -> GPR {
    GPR::Rq(rq::RDX)
}

/// Where the values of `rax` and `rdx` were saved that a division must not lose.
#[derive(Debug, Copy, Clone, PartialEq, Eq, Structural)]
pub struct Saved {
    pub rax: Option<GPR>,
    pub rdx: Option<GPR>,
}

/// The quotient, rounded towards zero. It wraps around where it does not fit.
pub open spec fn quotient_of(signed: bool, a: Value, b: Value) -> Value {
    match (a, b) {
        (Value::I32(a), Value::I32(b)) => Value::I32(
            if signed {
                match a.checked_div(b) {
                    Some(q) => q,
                    None => a,
                }
            } else {
                (a as u32 / b as u32) as i32
            },
        ),
        (Value::I64(a), Value::I64(b)) => Value::I64(
            if signed {
                match a.checked_div(b) {
                    Some(q) => q,
                    None => a,
                }
            } else {
                (a as u64 / b as u64) as i64
            },
        ),
        _ => a,
    }
}

/// The remainder, with the sign of the dividend. There is none where the quotient does not fit.
pub open spec fn remainder_of(signed: bool, a: Value, b: Value) -> Option<Value> {
    match (a, b) {
        (Value::I32(a), Value::I32(b)) => if signed {
            match a.checked_rem(b) {
                Some(r) => Some(Value::I32(r)),
                None => None,
            }
        } else {
            Some(Value::I32((a as u32 % b as u32) as i32))
        },
        (Value::I64(a), Value::I64(b)) => if signed {
            match a.checked_rem(b) {
                Some(r) => Some(Value::I64(r)),
                None => None,
            }
        } else {
            Some(Value::I64((a as u64 % b as u64) as i64))
        },
        _ => None,
    }
}

/// Whether `loc` is a constant of `w` bits.
pub open spec fn is_const_of(w: Width, loc: ValueLocation) -> bool {
    match w {
        Width::Q => loc.imm_i64() is Some,
        _ => loc.imm_i32() is Some,
    }
}

/// The constant of `w` bits at `loc`, if there is one.
fn const_of(w: Width, loc: ValueLocation) -> (val: Option<Value>)
    ensures
        val == (if is_const_of(w, loc) {
            loc.immediate()
        } else {
            None
        }),
{
    match w {
        Width::Q => match loc.imm_i64() {
            Some(i) => Some(Value::I64(i)),
            None => None,
        },
        _ => match loc.imm_i32() {
            Some(i) => Some(Value::I32(i)),
            None => None,
        },
    }
}

pub open spec fn zero_of(w: Width) -> Value {
    match w {
        Width::Q => Value::I64(0),
        _ => Value::I32(0),
    }
}

fn zero(w: Width) -> (val: Value)
    ensures
        val == zero_of(w),
{
    match w {
        Width::Q => Value::I64(0),
        _ => Value::I32(0),
    }
}

fn compute_quotient(signed: bool, a: Value, b: Value) -> (res: Value)
    requires
        a matches Value::I32(_) ==> b is I32,
        a matches Value::I64(_) ==> b is I64,
        b != Value::I32(0),
        b != Value::I64(0),
    ensures
        res == quotient_of(signed, a, b),
{
    match (a, b) {
        (Value::I32(a), Value::I32(b)) => {
            if signed {
                match a.checked_div(b) {
                    Some(q) => Value::I32(q),
                    None => Value::I32(a),
                }
            } else {
                let (n, d): (u32, u32) = (a as u32, b as u32);
                proof {
                    lemma_i32_views(b);
                }
                Value::I32((n / d) as i32)
            }
        },
        (Value::I64(a), Value::I64(b)) => {
            if signed {
                match a.checked_div(b) {
                    Some(q) => Value::I64(q),
                    None => Value::I64(a),
                }
            } else {
                let (n, d): (u64, u64) = (a as u64, b as u64);
                proof {
                    lemma_i64_views(b);
                }
                Value::I64((n / d) as i64)
            }
        },
        _ => a,
    }
}

fn compute_remainder(signed: bool, a: Value, b: Value) -> (res: Value)
    requires
        remainder_of(signed, a, b) is Some,
        b != Value::I32(0),
        b != Value::I64(0),
    ensures
        Some(res) == remainder_of(signed, a, b),
{
    match (a, b) {
        (Value::I32(a), Value::I32(b)) => {
            if signed {
                Value::I32(a.checked_rem(b).unwrap())
            } else {
                let (n, d): (u32, u32) = (a as u32, b as u32);
                proof {
                    lemma_i32_views(b);
                }
                Value::I32((n % d) as i32)
            }
        },
        (Value::I64(a), Value::I64(b)) => {
            if signed {
                Value::I64(a.checked_rem(b).unwrap())
            } else {
                let (n, d): (u64, u64) = (a as u64, b as u64);
                proof {
                    lemma_i64_views(b);
                }
                Value::I64((n % d) as i64)
            }
        },
        _ => a,
    }
}

impl State {
    /// Puts the divisor where the division does not overwrite it: on the stack or in a register
    /// other than `rax` and `rdx`.
    pub open spec fn place_divisor(self, divisor: ValueLocation) -> (State, ValueLocation) {
        let s = self.mark_used(rax()).mark_used(rdx());
        let (s, divisor) = if divisor == ValueLocation::Reg(rax()) || divisor
            == ValueLocation::Reg(rdx()) {
            let (s, new_reg) = s.into_fresh_reg(GPRType::Rq, divisor);
            (s, ValueLocation::Reg(new_reg))
        } else if divisor is Stack {
            (s, divisor)
        } else {
            let (s, reg) = s.into_reg(Some(GPRType::Rq), divisor);
            (s, ValueLocation::Reg(reg))
        };
        (s.release(rdx()).release(rax()), divisor)
    }

    /// Saves a register, and tells where.
    pub open spec fn save_reg(self, r: RegId) -> (State, Option<GPR>) {
        let (s, new_reg) = self.take(GPRType::Rq);
        (
            s.emit(
                Insn::Mov { w: Width::Q, dst: Operand::Gpr(new_reg), src: Operand::rq(r) },
            ),
            Some(new_reg),
        )
    }

    /// The dividend gets one more use, and what else is in `rax` is saved.
    pub open spec fn save_rax(self, dividend: ValueLocation) -> (State, Option<GPR>) {
        let s = match dividend {
            ValueLocation::Reg(r) => self.mark_used(r),
            _ => self,
        };
        if dividend != ValueLocation::Reg(rax()) && !s.regs.is_free(rax()) {
            s.save_reg(rq::RAX)
        } else {
            (s, None)
        }
    }

    /// The dividend is copied to `rax`.
    pub open spec fn load_rax(self, dividend: ValueLocation) -> State {
        self.mark_used(rax()).copy_value(dividend, ValueLocation::Reg(rax())).free_value(dividend)
    }

    /// What is in `rdx` is saved.
    pub open spec fn save_rdx(self) -> (State, Option<GPR>) {
        if !self.regs.is_free(rdx()) {
            self.save_reg(rq::RDX)
        } else {
            (self, None)
        }
    }

    /// Puts the dividend into `rax`. Other values of `rax` and `rdx` are saved.
    pub open spec fn place_dividend(self, dividend: ValueLocation) -> (State, Saved) {
        let (s, saved_rax) = self.save_rax(dividend);
        let (s, saved_rdx) = s.load_rax(dividend).save_rdx();
        (s, Saved { rax: saved_rax, rdx: saved_rdx })
    }

    /// Divides `rax` by the divisor.
    pub open spec fn divide(self, signed: bool, w: Width, divisor: ValueLocation) -> State {
        let src = match divisor {
            ValueLocation::Stack(o) => self.slot(o),
            ValueLocation::Reg(r) => Operand::Gpr(r),
            ValueLocation::Immediate(_) => Operand::Imm(0),
        };
        let s = match divisor {
            ValueLocation::Stack(o) => self.need(self.has_slot(o)),
            ValueLocation::Reg(r) => self.need(r is Rq),
            ValueLocation::Immediate(_) => self.need(false),
        };
        let s = if signed {
            s.emit(Insn::SignExtendAcc { w })
        } else {
            s.emit(Insn::Alu { op: AluOp::Xor, w, dst: rq::RDX, src: Operand::rq(rq::RDX) })
        };
        s.emit(Insn::Div { signed, w, src })
    }

    /// Divides two values. The quotient is in `rax`, the remainder in `rdx`.
    #[verifier::opaque]
    pub open spec fn full_div(
        self,
        signed: bool,
        w: Width,
        divisor: ValueLocation,
        quotient: ValueLocation,
    ) -> (State, Saved) {
        let (s, divisor) = self.place_divisor(divisor);
        let (s, saved) = s.place_dividend(quotient);
        (s.divide(signed, w, divisor).free_value(divisor).mark_used(rdx()), saved)
    }

    /// Moves a result out of a register whose old value has to be restored.
    pub open spec fn move_result(self, reg: GPR, saved: Option<GPR>) -> (State, GPR) {
        if saved is Some {
            let (s, new_reg) = self.take(GPRType::Rq);
            (
                s.emit(
                    Insn::Mov {
                        w: Width::Q,
                        dst: Operand::Gpr(new_reg),
                        src: Operand::Gpr(reg),
                    },
                ).release(reg),
                new_reg,
            )
        } else {
            (self, reg)
        }
    }

    /// Restores the value that `dst` had.
    pub open spec fn restore(self, saved: Option<GPR>, dst: GPR) -> State {
        match saved {
            Some(src) => self.copy_value(
                ValueLocation::Reg(src),
                ValueLocation::Reg(dst),
            ).release(src).mark_used(dst),
            None => self,
        }
    }

    pub open spec fn restore_all(self, saved: Saved) -> State {
        self.restore(saved.rax, rax()).restore(saved.rdx, rdx())
    }

    /// Pushes the result in `reg`, whose old value is in `old` if it was saved, after all that
    /// was saved is back.
    #[verifier::opaque]
    pub open spec fn push_result(self, reg: GPR, old: Option<GPR>, saved: Saved) -> State {
        let (s, out) = self.move_result(reg, old);
        s.restore_all(saved).push(ValueLocation::Reg(out))
    }

    /// Divides the value below the top of the stack by the top of the stack. Division of a
    /// constant by zero traps.
    pub open spec fn div(self, signed: bool, w: Width) -> State {
        let (s, divisor) = self.pop();
        let (s, quotient) = s.pop();
        if is_const_of(w, quotient) && is_const_of(w, divisor) {
            if divisor->Immediate_0 == zero_of(w) {
                s.emit(Insn::Ud2).push(ValueLocation::Immediate(zero_of(w)))
            } else {
                s.push(
                    ValueLocation::Immediate(
                        quotient_of(signed, quotient->Immediate_0, divisor->Immediate_0),
                    ),
                )
            }
        } else {
            let (s, saved) = s.full_div(signed, w, divisor, quotient);
            s.release(rdx()).push_result(rax(), saved.rax, saved)
        }
    }

    /// The remainder of that division.
    pub open spec fn rem(self, signed: bool, w: Width) -> State {
        let (s, divisor) = self.pop();
        let (s, quotient) = s.pop();
        if is_const_of(w, quotient) && is_const_of(w, divisor) {
            if divisor->Immediate_0 == zero_of(w) {
                s.emit(Insn::Ud2).push(ValueLocation::Immediate(zero_of(w)))
            } else {
                let r = remainder_of(signed, quotient->Immediate_0, divisor->Immediate_0);
                s.need(r is Some).push(ValueLocation::Immediate(r->0))
            }
        } else {
            let (s, saved) = s.full_div(signed, w, divisor, quotient);
            s.release(rax()).push_result(rdx(), saved.rdx, saved)
        }
    }
}

pub proof fn lemma_push_result_ok(s: State, reg: GPR, before: Option<GPR>, saved: Saved)
    ensures
        s.push_result(reg, before, saved).ok ==> s.ok,
{
    reveal(State::push_result);
}

/// A division takes two values from the stack.
pub proof fn lemma_division_pops(s: State, signed: bool, w: Width)
    ensures
        s.div(signed, w).ok || s.rem(signed, w).ok ==> s.ok && s.stack.len() >= 2,
{
    let (s1, divisor) = s.pop();
    let (s2, quotient) = s1.pop();
    let (s3, saved) = s2.full_div(signed, w, divisor, quotient);
    assert(s3.ok ==> s2.ok) by {
        reveal(State::full_div);
    }
    lemma_push_result_ok(s3.release(rdx()), rax(), saved.rax, saved);
    lemma_push_result_ok(s3.release(rax()), rdx(), saved.rdx, saved);
}

/// The divisor is never left in `rax` or `rdx`, which the division overwrites.
pub proof fn divisor_spares_rax_and_rdx(s: State, divisor: ValueLocation)
    requires
        s.regs.wf(),
        s.place_divisor(divisor).0.ok,
    ensures
        s.place_divisor(divisor).1 != ValueLocation::Reg(rax()),
        s.place_divisor(divisor).1 != ValueLocation::Reg(rdx()),
{
    let t = s.mark_used(rax()).mark_used(rdx());
    assert(t.regs.count(rax()) > 0 && t.regs.count(rdx()) > 0);
    if t.regs.can_take(GPRType::Rq) {
        lemma_lowest_free(t.regs, GPRType::Rq);
    }
}

impl<'a, M: ModuleContext> Context<'a, M> {
    /// Returned divisor is guaranteed not to be `RAX`, nor `RDX`.
    fn place_divisor(&mut self, divisor: ValueLocation) -> (placed: ValueLocation)
        requires
            old(self)@.place_divisor(divisor).0.ok,
        ensures
            (final(self)@, placed) == old(self)@.place_divisor(divisor),
            placed !is Immediate,
            placed != ValueLocation::Reg(rax()),
            placed != ValueLocation::Reg(rdx()),
            placed is Reg ==> placed->Reg_0 is Rq,
            final(self).same_function(*old(self)),
            *final(final(self).out) == *final(old(self).out),
    {
        proof {
            broadcast use Registers::lemma_view_wf;

            divisor_spares_rax_and_rdx(self@, divisor);
        }
        let rax = GPR::Rq(rq::RAX);
        let rdx = GPR::Rq(rq::RDX);
        self.mark_used(rax);
        self.mark_used(rdx);
        let divisor = if divisor == ValueLocation::Reg(rax) || divisor == ValueLocation::Reg(rdx) {
            let new_reg = self.take(GPRType::Rq);
            self.copy_value(divisor, ValueLocation::Reg(new_reg));
            self.free_value(divisor);
            ValueLocation::Reg(new_reg)
        } else if let ValueLocation::Stack(_) = divisor {
            divisor
        } else {
            ValueLocation::Reg(self.into_reg(Some(GPRType::Rq), divisor))
        };
        self.release(rdx);
        self.release(rax);
        divisor
    }

    fn save_reg(&mut self, r: RegId) -> (saved: Option<GPR>)
        requires
            old(self)@.save_reg(r).0.ok,
        ensures
            (final(self)@, saved) == old(self)@.save_reg(r),
            final(self).same_function(*old(self)),
            *final(final(self).out) == *final(old(self).out),
    {
        let new_reg = self.take(GPRType::Rq);
        self.emit(
            Insn::Mov {
                w: Width::Q,
                dst: Operand::Gpr(new_reg),
                src: Operand::Gpr(GPR::Rq(r)),
            },
        );
        Some(new_reg)
    }

    fn place_dividend(&mut self, quotient: ValueLocation) -> (saved: Saved)
        requires
            old(self)@.place_dividend(quotient).0.ok,
        ensures
            (final(self)@, saved) == old(self)@.place_dividend(quotient),
            final(self).same_function(*old(self)),
            *final(final(self).out) == *final(old(self).out),
    {
        let rax = GPR::Rq(rq::RAX);
        let rdx = GPR::Rq(rq::RDX);
        if let ValueLocation::Reg(r) = quotient {
            self.mark_used(r);
        }
        let should_save_rax = quotient != ValueLocation::Reg(rax)
            && !self.block_state.regs.is_free(rax);
        let saved_rax = if should_save_rax {
            self.save_reg(rq::RAX)
        } else {
            None
        };
        self.mark_used(rax);
        self.copy_value(quotient, ValueLocation::Reg(rax));
        self.free_value(quotient);
        let should_save_rdx = !self.block_state.regs.is_free(rdx);
        let saved_rdx = if should_save_rdx {
            self.save_reg(rq::RDX)
        } else {
            None
        };
        Saved { rax: saved_rax, rdx: saved_rdx }
    }

    fn divide(&mut self, signed: bool, w: Width, divisor: ValueLocation)
        requires
            old(self)@.divide(signed, w, divisor).ok,
        ensures
            final(self)@ == old(self)@.divide(signed, w, divisor),
            final(self).same_function(*old(self)),
            *final(final(self).out) == *final(old(self).out),
    {
        let src = match divisor {
            ValueLocation::Stack(offset) => {
                let offset: i32 = self.adjusted_offset(offset);
                stack_slot(offset)
            },
            ValueLocation::Reg(r) => Operand::Gpr(r),
            ValueLocation::Immediate(_) => Operand::Imm(0),
        };
        if signed {
            self.emit(Insn::SignExtendAcc { w });
        } else {
            self.emit(
                Insn::Alu {
                    op: AluOp::Xor,
                    w,
                    dst: rq::RDX,
                    src: Operand::Gpr(GPR::Rq(rq::RDX)),
                },
            );
        }
        self.emit(Insn::Div { signed, w, src });
    }

    /// Divides two values. The quotient is in `rax`, the remainder in `rdx`.
    fn full_div(
        &mut self,
        signed: bool,
        w: Width,
        divisor: ValueLocation,
        quotient: ValueLocation,
    ) -> (saved: Saved)
        requires
            old(self)@.full_div(signed, w, divisor, quotient).0.ok,
        ensures
            (final(self)@, saved) == old(self)@.full_div(signed, w, divisor, quotient),
            final(self).same_function(*old(self)),
            *final(final(self).out) == *final(old(self).out),
    {
        proof {
            reveal(State::full_div);
        }
        let divisor = self.place_divisor(divisor);
        let saved = self.place_dividend(quotient);
        self.divide(signed, w, divisor);
        self.free_value(divisor);
        self.mark_used(GPR::Rq(rq::RDX));
        saved
    }

    fn move_result(&mut self, reg: GPR, saved: Option<GPR>) -> (out: GPR)
        requires
            old(self)@.move_result(reg, saved).0.ok,
        ensures
            (final(self)@, out) == old(self)@.move_result(reg, saved),
            final(self).same_function(*old(self)),
            *final(final(self).out) == *final(old(self).out),
    {
        if saved.is_some() {
            let new_reg = self.take(GPRType::Rq);
            self.emit(
                Insn::Mov { w: Width::Q, dst: Operand::Gpr(new_reg), src: Operand::Gpr(reg) },
            );
            self.release(reg);
            new_reg
        } else {
            reg
        }
    }

    fn restore(&mut self, saved: Option<GPR>, dst: GPR)
        requires
            old(self)@.restore(saved, dst).ok,
        ensures
            final(self)@ == old(self)@.restore(saved, dst),
            final(self).same_function(*old(self)),
            *final(final(self).out) == *final(old(self).out),
    {
        if let Some(src) = saved {
            self.copy_value(ValueLocation::Reg(src), ValueLocation::Reg(dst));
            self.release(src);
            self.mark_used(dst);
        }
    }

    fn cleanup_gprs(&mut self, saved: Saved)
        requires
            old(self)@.restore_all(saved).ok,
        ensures
            final(self)@ == old(self)@.restore_all(saved),
            final(self).same_function(*old(self)),
            *final(final(self).out) == *final(old(self).out),
    {
        self.restore(saved.rax, GPR::Rq(rq::RAX));
        self.restore(saved.rdx, GPR::Rq(rq::RDX));
    }

    fn push_result(&mut self, reg: GPR, before: Option<GPR>, saved: Saved)
        requires
            old(self)@.push_result(reg, before, saved).ok,
        ensures
            final(self)@ == old(self)@.push_result(reg, before, saved),
            final(self).same_function(*old(self)),
            *final(final(self).out) == *final(old(self).out),
    {
        proof {
            reveal(State::push_result);
        }
        let out = self.move_result(reg, before);
        self.cleanup_gprs(saved);
        self.push(ValueLocation::Reg(out));
    }

    fn div(&mut self, signed: bool, w: Width)
        requires
            old(self)@.div(signed, w).ok,
        ensures
            final(self)@ == old(self)@.div(signed, w),
            final(self).same_function(*old(self)),
            *final(final(self).out) == *final(old(self).out),
    {
        proof {
            lemma_division_pops(self@, signed, w);
        }
        let divisor = self.pop();
        let quotient = self.pop();
        if let (Some(quotient), Some(divisor)) = (const_of(w, quotient), const_of(w, divisor)) {
            if divisor == zero(w) {
                self.trap();
                self.push(ValueLocation::Immediate(zero(w)));
            } else {
                self.push(
                    ValueLocation::Immediate(compute_quotient(signed, quotient, divisor)),
                );
            }
            return ;
        }
        proof {
            let (s, saved) = self@.full_div(signed, w, divisor, quotient);
            lemma_push_result_ok(s.release(rdx()), rax(), saved.rax, saved);
        }
        let saved = self.full_div(signed, w, divisor, quotient);
        self.release(GPR::Rq(rq::RDX));
        self.push_result(GPR::Rq(rq::RAX), saved.rax, saved);
    }

    fn rem(&mut self, signed: bool, w: Width)
        requires
            old(self)@.rem(signed, w).ok,
        ensures
            final(self)@ == old(self)@.rem(signed, w),
            final(self).same_function(*old(self)),
            *final(final(self).out) == *final(old(self).out),
    {
        proof {
            lemma_division_pops(self@, signed, w);
        }
        let divisor = self.pop();
        let quotient = self.pop();
        if let (Some(quotient), Some(divisor)) = (const_of(w, quotient), const_of(w, divisor)) {
            if divisor == zero(w) {
                self.trap();
                self.push(ValueLocation::Immediate(zero(w)));
            } else {
                self.push(
                    ValueLocation::Immediate(compute_remainder(signed, quotient, divisor)),
                );
            }
            return ;
        }
        proof {
            let (s, saved) = self@.full_div(signed, w, divisor, quotient);
            lemma_push_result_ok(s.release(rax()), rdx(), saved.rdx, saved);
        }
        let saved = self.full_div(signed, w, divisor, quotient);
        self.release(GPR::Rq(rq::RAX));
        self.push_result(GPR::Rq(rq::RDX), saved.rdx, saved);
    }

    /// The quotient, without sign.
    pub fn i32_div_u(&mut self)
        requires
            old(self)@.div(false, Width::D).ok,
        ensures
            final(self)@ == old(self)@.div(false, Width::D),
            final(self).same_function(*old(self)),
            *final(final(self).out) == *final(old(self).out),
    {
        self.div(false, Width::D);
    }

    /// The quotient, with sign.
    pub fn i32_div_s(&mut self)
        requires
            old(self)@.div(true, Width::D).ok,
        ensures
            final(self)@ == old(self)@.div(true, Width::D),
            final(self).same_function(*old(self)),
            *final(final(self).out) == *final(old(self).out),
    {
        self.div(true, Width::D);
    }

    /// The remainder, without sign.
    pub fn i32_rem_u(&mut self)
        requires
            old(self)@.rem(false, Width::D).ok,
        ensures
            final(self)@ == old(self)@.rem(false, Width::D),
            final(self).same_function(*old(self)),
            *final(final(self).out) == *final(old(self).out),
    {
        self.rem(false, Width::D);
    }

    /// The remainder, with sign.
    pub fn i32_rem_s(&mut self)
        requires
            old(self)@.rem(true, Width::D).ok,
        ensures
            final(self)@ == old(self)@.rem(true, Width::D),
            final(self).same_function(*old(self)),
            *final(final(self).out) == *final(old(self).out),
    {
        self.rem(true, Width::D);
    }

    /// The quotient, without sign.
    pub fn i64_div_u(&mut self)
        requires
            old(self)@.div(false, Width::Q).ok,
        ensures
            final(self)@ == old(self)@.div(false, Width::Q),
            final(self).same_function(*old(self)),
            *final(final(self).out) == *final(old(self).out),
    {
        self.div(false, Width::Q);
    }

    /// The quotient, with sign.
    pub fn i64_div_s(&mut self)
        requires
            old(self)@.div(true, Width::Q).ok,
        ensures
            final(self)@ == old(self)@.div(true, Width::Q),
            final(self).same_function(*old(self)),
            *final(final(self).out) == *final(old(self).out),
    {
        self.div(true, Width::Q);
    }

    /// The remainder, without sign.
    pub fn i64_rem_u(&mut self)
        requires
            old(self)@.rem(false, Width::Q).ok,
        ensures
            final(self)@ == old(self)@.rem(false, Width::Q),
            final(self).same_function(*old(self)),
            *final(final(self).out) == *final(old(self).out),
    {
        self.rem(false, Width::Q);
    }

    /// The remainder, with sign.
    pub fn i64_rem_s(&mut self)
        requires
            old(self)@.rem(true, Width::Q).ok,
        ensures
            final(self)@ == old(self)@.rem(true, Width::Q),
            final(self).same_function(*old(self)),
            *final(final(self).out) == *final(old(self).out),
    {
        self.rem(true, Width::Q);
    }
}

} // verus!
