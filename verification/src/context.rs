//! The code generator for one function: how it keeps track of values and moves them around.

use vstd::prelude::*;

use crate::assembly::{Assembly, Label};
use crate::insn::{AluOp, Insn, Mem, Operand, Width};
use crate::location::{BlockState, ValueLocation, WORD_SIZE};
use crate::microwasm::Value;
use crate::module_context::ModuleContext;
use crate::registers::{rq, GPRType, RegId, GPR};
use crate::state::State;

verus! {

/// The code generator for one function.
pub struct Context<'a, M: ModuleContext> {
    /// The code of this function is put at the end of this.
    pub out: &'a mut Assembly,
    pub module_context: &'a M,
    pub current_function: u32,
    /// The start of each function, as far as it is known, and its label.
    pub func_starts: &'a Vec<(Option<usize>, Label)>,
    pub block_state: BlockState,
}

impl<'a, M: ModuleContext> View for Context<'a, M> {
    type V = State;

    open spec fn view(&self) -> State {
        State {
            stack: self.block_state.stack@,
            depth: self.block_state.depth.0,
            regs: self.block_state.regs@,
            code: self.out.code@,
            relocs: self.out.relocs@,
            label_count: self.out.label_count,
            labels: self.out.labels,
            ok: true,
        }
    }
}

/// The stack slot that is `disp` bytes away from `rsp`.
pub(crate) fn stack_slot(disp: i32) -> (op: Operand)
    ensures
        op == Operand::at(rq::RSP, disp),
{
    Operand::Mem(Mem { base: rq::RSP, index: None, disp })
}

impl<'a, M: ModuleContext> Context<'a, M> {
    /// Whether both generate code for the same function.
    pub open spec fn same_function(self, other: Self) -> bool {
        &&& self.module_context == other.module_context
        &&& self.current_function == other.current_function
        &&& self.func_starts == other.func_starts
    }

    pub(crate) fn emit(&mut self, insn: Insn)
        ensures
            final(self)@ == old(self)@.emit(insn),
            final(self).same_function(*old(self)),
            *final(final(self).out) == *final(old(self).out),
    {
        self.out.code.push(insn);
    }

    pub(crate) fn push(&mut self, value: ValueLocation)
        ensures
            final(self)@ == old(self)@.push(value),
            final(self).same_function(*old(self)),
            *final(final(self).out) == *final(old(self).out),
    {
        self.block_state.stack.push(value);
    }

    pub(crate) fn pop(&mut self) -> (value: ValueLocation)
        requires
            old(self)@.pop().0.ok,
        ensures
            (final(self)@, value) == old(self)@.pop(),
            final(self).same_function(*old(self)),
            *final(final(self).out) == *final(old(self).out),
    {
        self.block_state.stack.pop().unwrap()
    }

    pub(crate) fn take(&mut self, ty: GPRType) -> (gpr: GPR)
        requires
            old(self)@.take(ty).0.ok,
        ensures
            (final(self)@, gpr) == old(self)@.take(ty),
            gpr.type_() == ty,
            gpr.valid(),
            final(self).same_function(*old(self)),
            *final(final(self).out) == *final(old(self).out),
    {
        self.block_state.regs.take(ty)
    }

    pub(crate) fn mark_used(&mut self, gpr: GPR)
        requires
            old(self)@.mark_used(gpr).ok,
        ensures
            final(self)@ == old(self)@.mark_used(gpr),
            final(self).same_function(*old(self)),
            *final(final(self).out) == *final(old(self).out),
    {
        self.block_state.regs.mark_used(gpr);
    }

    pub(crate) fn release(&mut self, gpr: GPR)
        requires
            old(self)@.release(gpr).ok,
        ensures
            final(self)@ == old(self)@.release(gpr),
            final(self).same_function(*old(self)),
            *final(final(self).out) == *final(old(self).out),
    {
        self.block_state.regs.release(gpr);
    }

    pub(crate) fn free_value(&mut self, val: ValueLocation)
        requires
            old(self)@.free_value(val).ok,
        ensures
            final(self)@ == old(self)@.free_value(val),
            final(self).same_function(*old(self)),
            *final(final(self).out) == *final(old(self).out),
    {
        match val {
            ValueLocation::Reg(r) => {
                self.release(r);
            },
            _ => {},
        }
    }

    /// How many bytes the stack slot at `offset` is away from `rsp`.
    pub(crate) fn adjusted_offset(&self, offset: i32) -> (disp: i32)
        requires
            self@.has_slot(offset),
        ensures
            disp == self@.slot_disp(offset),
    {
        (self.block_state.depth.0 as i32 + offset) * WORD_SIZE as i32
    }

    pub(crate) fn zero_reg(&mut self, reg: GPR)
        ensures
            final(self)@ == old(self)@.zero_reg(reg),
            final(self).same_function(*old(self)),
            *final(final(self).out) == *final(old(self).out),
    {
        match reg {
            GPR::Rq(r) => {
                self.emit(
                    Insn::Alu {
                        op: AluOp::Xor,
                        w: Width::Q,
                        dst: r,
                        src: Operand::Gpr(GPR::Rq(r)),
                    },
                );
            },
            GPR::Rx(r) => {
                self.emit(Insn::Pxor { dst: r, src: r });
            },
        }
    }

    fn immediate_to_rq(&mut self, r: RegId, val: Value)
        ensures
            final(self)@ == old(self)@.immediate_to_rq(r, val),
            final(self).same_function(*old(self)),
            *final(final(self).out) == *final(old(self).out),
    {
        let bytes: i64 = val.as_bytes();
        let dst = Operand::Gpr(GPR::Rq(r));
        if bytes == 0 {
            self.zero_reg(GPR::Rq(r));
        } else if bytes as u64 <= u32::MAX as u64 {
            self.emit(Insn::Mov { w: Width::D, dst, src: Operand::Imm(bytes as i32 as i64) });
        } else {
            self.emit(Insn::Mov { w: Width::Q, dst, src: Operand::Imm(bytes) });
        }
    }

    pub(crate) fn immediate_to_reg(&mut self, reg: GPR, val: Value)
        requires
            old(self)@.immediate_to_reg(reg, val).ok,
        ensures
            final(self)@ == old(self)@.immediate_to_reg(reg, val),
            final(self).same_function(*old(self)),
            *final(final(self).out) == *final(old(self).out),
    {
        match reg {
            GPR::Rq(r) => {
                self.immediate_to_rq(r, val);
            },
            GPR::Rx(r) => {
                if val.as_bytes() == 0 {
                    self.zero_reg(reg);
                } else {
                    let temp = self.take(GPRType::Rq);
                    let temp_id: RegId = temp.rq().unwrap();
                    self.immediate_to_rq(temp_id, val);
                    self.emit(Insn::Movq { dst: Operand::Gpr(reg), src: Operand::Gpr(temp) });
                    self.release(temp);
                }
            },
        }
    }

    /// Moves a value from one place to another.
    pub(crate) fn copy_value(&mut self, src: ValueLocation, dst: ValueLocation)
        requires
            old(self)@.copy_value(src, dst).ok,
        ensures
            final(self)@ == old(self)@.copy_value(src, dst),
            final(self).same_function(*old(self)),
            *final(final(self).out) == *final(old(self).out),
    {
        match (src, dst) {
            (ValueLocation::Stack(in_offset), ValueLocation::Stack(out_offset)) => {
                let in_offset: i32 = self.adjusted_offset(in_offset);
                let out_offset: i32 = self.adjusted_offset(out_offset);
                if in_offset != out_offset {
                    let gpr = self.take(GPRType::Rq);
                    self.emit(
                        Insn::Mov {
                            w: Width::Q,
                            dst: Operand::Gpr(gpr),
                            src: stack_slot(in_offset),
                        },
                    );
                    self.emit(
                        Insn::Mov {
                            w: Width::Q,
                            dst: stack_slot(out_offset),
                            src: Operand::Gpr(gpr),
                        },
                    );
                    self.release(gpr);
                }
            },
            (ValueLocation::Reg(in_reg), ValueLocation::Stack(out_offset)) => {
                let out_offset: i32 = self.adjusted_offset(out_offset);
                // The whole register can be written because stack slots are in multiples of
                // 8 bytes
                match in_reg {
                    GPR::Rq(_) => {
                        self.emit(
                            Insn::Mov {
                                w: Width::Q,
                                dst: stack_slot(out_offset),
                                src: Operand::Gpr(in_reg),
                            },
                        );
                    },
                    GPR::Rx(_) => {
                        self.emit(
                            Insn::Movq { dst: stack_slot(out_offset), src: Operand::Gpr(in_reg) },
                        );
                    },
                }
            },
            (ValueLocation::Immediate(i), ValueLocation::Stack(out_offset)) => {
                let i: i64 = i.as_bytes();
                let out_offset: i32 = self.adjusted_offset(out_offset);
                if i as u64 <= u32::MAX as u64 {
                    self.emit(
                        Insn::Mov {
                            w: Width::D,
                            dst: stack_slot(out_offset),
                            src: Operand::Imm(i as i32 as i64),
                        },
                    );
                } else {
                    let scratch = self.take(GPRType::Rq);
                    self.emit(
                        Insn::Mov {
                            w: Width::Q,
                            dst: Operand::Gpr(scratch),
                            src: Operand::Imm(i),
                        },
                    );
                    self.emit(
                        Insn::Mov {
                            w: Width::Q,
                            dst: stack_slot(out_offset),
                            src: Operand::Gpr(scratch),
                        },
                    );
                    self.release(scratch);
                }
            },
            (ValueLocation::Stack(in_offset), ValueLocation::Reg(out_reg)) => {
                let in_offset: i32 = self.adjusted_offset(in_offset);
                match out_reg {
                    GPR::Rq(_) => {
                        self.emit(
                            Insn::Mov {
                                w: Width::Q,
                                dst: Operand::Gpr(out_reg),
                                src: stack_slot(in_offset),
                            },
                        );
                    },
                    GPR::Rx(_) => {
                        self.emit(
                            Insn::Movq { dst: Operand::Gpr(out_reg), src: stack_slot(in_offset) },
                        );
                    },
                }
            },
            (ValueLocation::Reg(in_reg), ValueLocation::Reg(out_reg)) => {
                if in_reg != out_reg {
                    match (in_reg, out_reg) {
                        (GPR::Rq(_), GPR::Rq(_)) => {
                            self.emit(
                                Insn::Mov {
                                    w: Width::Q,
                                    dst: Operand::Gpr(out_reg),
                                    src: Operand::Gpr(in_reg),
                                },
                            );
                        },
                        _ => {
                            self.emit(
                                Insn::Movq {
                                    dst: Operand::Gpr(out_reg),
                                    src: Operand::Gpr(in_reg),
                                },
                            );
                        },
                    }
                }
            },
            (ValueLocation::Immediate(i), ValueLocation::Reg(out_reg)) => {
                self.immediate_to_reg(out_reg, i);
            },
            (_, ValueLocation::Immediate(_)) => {},
        }
    }

    pub(crate) fn pop_into(&mut self, dst: ValueLocation)
        requires
            old(self)@.pop_into(dst).ok,
        ensures
            final(self)@ == old(self)@.pop_into(dst),
            final(self).same_function(*old(self)),
            *final(final(self).out) == *final(old(self).out),
    {
        let val = self.pop();
        self.copy_value(val, dst);
        self.free_value(val);
    }

    pub(crate) fn into_fresh_reg(&mut self, ty: GPRType, val: ValueLocation) -> (reg: GPR)
        requires
            old(self)@.into_fresh_reg(ty, val).0.ok,
        ensures
            (final(self)@, reg) == old(self)@.into_fresh_reg(ty, val),
            reg.type_() == ty,
            reg.valid(),
            final(self).same_function(*old(self)),
            *final(final(self).out) == *final(old(self).out),
    {
        let scratch = self.take(ty);
        self.copy_value(val, ValueLocation::Reg(scratch));
        self.free_value(val);
        scratch
    }

    /// Puts this value into a register so that it can be efficiently read
    pub(crate) fn into_reg(&mut self, ty: Option<GPRType>, val: ValueLocation) -> (reg: GPR)
        requires
            old(self)@.into_reg(ty, val).0.ok,
        ensures
            (final(self)@, reg) == old(self)@.into_reg(ty, val),
            ty is Some ==> reg.type_() == ty->0,
            final(self).same_function(*old(self)),
            *final(final(self).out) == *final(old(self).out),
    {
        if let ValueLocation::Reg(r) = val {
            let type_matches = match ty {
                Some(t) => t == r.type_(),
                None => true,
            };
            if type_matches {
                return r;
            }
        }
        let file = match ty {
            Some(t) => t,
            None => GPRType::Rq,
        };
        self.into_fresh_reg(file, val)
    }

    /// Puts this value into a temporary register so that operations
    /// on that register don't write to a local.
    pub(crate) fn into_temp_reg(&mut self, ty: Option<GPRType>, val: ValueLocation) -> (reg: GPR)
        requires
            old(self)@.into_temp_reg(ty, val).0.ok,
        ensures
            (final(self)@, reg) == old(self)@.into_temp_reg(ty, val),
            ty is Some ==> reg.type_() == ty->0,
            final(self).same_function(*old(self)),
            *final(final(self).out) == *final(old(self).out),
    {
        match val {
            ValueLocation::Reg(r) => {
                // If we have `None` as the type then it always matches
                let type_matches = match ty {
                    Some(t) => t == r.type_(),
                    None => true,
                };
                if self.block_state.regs.num_usages(r) <= 1 && type_matches {
                    r
                } else {
                    let file = match ty {
                        Some(t) => t,
                        None => GPRType::Rq,
                    };
                    self.into_fresh_reg(file, val)
                }
            },
            val => self.into_reg(ty, val),
        }
    }

    pub(crate) fn push_physical(&mut self, value: ValueLocation) -> (loc: ValueLocation)
        requires
            old(self)@.push_physical(value).0.ok,
        ensures
            (final(self)@, loc) == old(self)@.push_physical(value),
            final(self).same_function(*old(self)),
            *final(final(self).out) == *final(old(self).out),
    {
        match value {
            ValueLocation::Reg(GPR::Rq(r)) => {
                self.emit(Insn::Push(Operand::Gpr(GPR::Rq(r))));
                self.release(GPR::Rq(r));
            },
            ValueLocation::Reg(GPR::Rx(r)) => {
                self.emit(Insn::Push(Operand::Gpr(GPR::Rq(rq::RAX))));
                self.emit(Insn::Movq { dst: stack_slot(0), src: Operand::Gpr(GPR::Rx(r)) });
                self.release(GPR::Rx(r));
            },
            ValueLocation::Stack(o) => {
                // The address is taken before the stack pointer moves.
                let offset: i32 = self.adjusted_offset(o);
                self.emit(Insn::Push(stack_slot(offset)));
            },
            ValueLocation::Immediate(imm) => {
                let gpr = self.take(GPRType::Rq);
                self.emit(
                    Insn::Mov {
                        w: Width::Q,
                        dst: Operand::Gpr(gpr),
                        src: Operand::Imm(imm.as_bytes()),
                    },
                );
                self.emit(Insn::Push(Operand::Gpr(gpr)));
                self.release(gpr);
            },
        }
        self.block_state.depth.reserve(1);
        ValueLocation::Stack(-(self.block_state.depth.0 as i32))
    }
}

} // verus!
