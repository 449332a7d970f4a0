//! What code generation does, step by step, as functions on the state of the generator.
//!
//! A `State` holds the value stack, the depth of the machine's stack, the usage counts of the
//! registers and the code generated so far. Each step is a function from state to state. The
//! field `ok` tells whether all steps up to now were possible: it is false from the first step
//! on that pops an empty stack, wants a register when none is free, or otherwise cannot be taken.

use vstd::prelude::*;

use crate::assembly::{Label, Labels, Reloc};
use crate::insn::{AluOp, Insn, Operand, Width};
use crate::location::{ValueLocation, WORD_SIZE};
use crate::microwasm::Value;
use crate::registers::{rq, GPRType, RegId, RegState, GPR};

verus! {

/// The state of the code generator within a function.
#[verifier::ext_equal]
pub struct State {
    /// Where the values on the WebAssembly stack are.
    pub stack: Seq<ValueLocation>,
    /// How many words the machine's stack has grown since the function was entered.
    pub depth: u32,
    pub regs: RegState,
    pub code: Seq<Insn>,
    pub relocs: Seq<Reloc>,
    pub label_count: usize,
    pub labels: Labels,
    /// Whether every step up to here was possible.
    pub ok: bool,
}

impl State {
    /// A step that is possible only if `cond` holds.
    pub open spec fn need(self, cond: bool) -> State {
        State { ok: self.ok && cond, ..self }
    }

    pub open spec fn with_stack(self, stack: Seq<ValueLocation>) -> State {
        State { stack, ..self }
    }

    pub open spec fn emit(self, insn: Insn) -> State {
        State { code: self.code.push(insn), ..self }
    }

    pub open spec fn push(self, value: ValueLocation) -> State {
        State { stack: self.stack.push(value), ..self }
    }

    pub open spec fn pop(self) -> (State, ValueLocation) {
        (
            State {
                stack: self.stack.drop_last(),
                ok: self.ok && self.stack.len() > 0,
                ..self
            },
            self.stack.last(),
        )
    }

    /// Takes the free register of the file `ty` that has the lowest number.
    pub open spec fn take(self, ty: GPRType) -> (State, GPR) {
        let gpr = self.regs.lowest_free(ty);
        (
            State {
                regs: self.regs.mark_used(gpr),
                ok: self.ok && self.regs.can_take(ty),
                ..self
            },
            gpr,
        )
    }

    pub open spec fn mark_used(self, gpr: GPR) -> State {
        State {
            regs: self.regs.mark_used(gpr),
            ok: self.ok && gpr.valid() && self.regs.count(gpr) < u8::MAX,
            ..self
        }
    }

    pub open spec fn release(self, gpr: GPR) -> State {
        State {
            regs: self.regs.release(gpr),
            ok: self.ok && gpr.valid() && self.regs.count(gpr) > 0,
            ..self
        }
    }

    /// Gives back the register that holds `val`, if there is one.
    pub open spec fn free_value(self, val: ValueLocation) -> State {
        match val {
            ValueLocation::Reg(r) => self.release(r),
            _ => self,
        }
    }

    /// Whether the stack slot at `offset` can be addressed.
    pub open spec fn has_slot(self, offset: i32) -> bool {
        let words = self.depth as i32 + offset;
        &&& i32::MIN <= words <= i32::MAX
        &&& i32::MIN <= words * (WORD_SIZE as i32) <= i32::MAX
    }

    /// How many bytes the stack slot at `offset` is away from `rsp`.
    pub open spec fn slot_disp(self, offset: i32) -> i32 {
        ((self.depth as i32 + offset) * (WORD_SIZE as i32)) as i32
    }

    /// The stack slot at `offset`, which counts words from the start of the function.
    pub open spec fn slot(self, offset: i32) -> Operand {
        Operand::at(rq::RSP, self.slot_disp(offset))
    }

    pub open spec fn zero_reg(self, reg: GPR) -> State {
        match reg {
            GPR::Rq(r) => self.emit(
                Insn::Alu { op: AluOp::Xor, w: Width::Q, dst: r, src: Operand::rq(r) },
            ),
            GPR::Rx(r) => self.emit(Insn::Pxor { dst: r, src: r }),
        }
    }

    /// Loads a constant into a general-purpose register, with the shortest instruction that
    /// does so.
    pub open spec fn immediate_to_rq(self, r: RegId, val: Value) -> State {
        let bytes = val.as_bytes();
        if bytes == 0 {
            self.zero_reg(GPR::Rq(r))
        } else if bytes as u64 <= u32::MAX {
            self.emit(
                Insn::Mov {
                    w: Width::D,
                    dst: Operand::rq(r),
                    src: Operand::Imm(bytes as i32 as i64),
                },
            )
        } else {
            self.emit(Insn::Mov { w: Width::Q, dst: Operand::rq(r), src: Operand::Imm(bytes) })
        }
    }

    /// Loads a constant into a register. Vector registers get it by way of a general-purpose
    /// register.
    pub open spec fn immediate_to_reg(self, reg: GPR, val: Value) -> State {
        match reg {
            GPR::Rq(r) => self.immediate_to_rq(r, val),
            GPR::Rx(r) => if val.as_bytes() == 0 {
                self.zero_reg(reg)
            } else {
                let (s, temp) = self.take(GPRType::Rq);
                s.immediate_to_rq(temp.id(), val).emit(
                    Insn::Movq { dst: Operand::rx(r), src: Operand::rq(temp.id()) },
                ).release(temp)
            },
        }
    }

    /// Moves a value from one place to another.
    pub open spec fn copy_value(self, src: ValueLocation, dst: ValueLocation) -> State {
        match (src, dst) {
            (ValueLocation::Stack(i), ValueLocation::Stack(o)) => {
                let s = self.need(self.has_slot(i) && self.has_slot(o));
                if s.slot_disp(i) != s.slot_disp(o) {
                    let (s1, gpr) = s.take(GPRType::Rq);
                    s1.emit(
                        Insn::Mov { w: Width::Q, dst: Operand::rq(gpr.id()), src: s.slot(i) },
                    ).emit(
                        Insn::Mov { w: Width::Q, dst: s.slot(o), src: Operand::rq(gpr.id()) },
                    ).release(gpr)
                } else {
                    s
                }
            },
            (ValueLocation::Reg(r), ValueLocation::Stack(o)) => {
                let s = self.need(self.has_slot(o));
                match r {
                    GPR::Rq(_) => s.emit(
                        Insn::Mov { w: Width::Q, dst: s.slot(o), src: Operand::Gpr(r) },
                    ),
                    GPR::Rx(_) => s.emit(Insn::Movq { dst: s.slot(o), src: Operand::Gpr(r) }),
                }
            },
            (ValueLocation::Immediate(imm), ValueLocation::Stack(o)) => {
                let s = self.need(self.has_slot(o));
                let bytes = imm.as_bytes();
                if bytes as u64 <= u32::MAX {
                    s.emit(
                        Insn::Mov {
                            w: Width::D,
                            dst: s.slot(o),
                            src: Operand::Imm(bytes as i32 as i64),
                        },
                    )
                } else {
                    let (s1, scratch) = s.take(GPRType::Rq);
                    s1.emit(
                        Insn::Mov {
                            w: Width::Q,
                            dst: Operand::rq(scratch.id()),
                            src: Operand::Imm(bytes),
                        },
                    ).emit(
                        Insn::Mov { w: Width::Q, dst: s.slot(o), src: Operand::rq(scratch.id()) },
                    ).release(scratch)
                }
            },
            (ValueLocation::Stack(i), ValueLocation::Reg(r)) => {
                let s = self.need(self.has_slot(i));
                match r {
                    GPR::Rq(_) => s.emit(
                        Insn::Mov { w: Width::Q, dst: Operand::Gpr(r), src: s.slot(i) },
                    ),
                    GPR::Rx(_) => s.emit(Insn::Movq { dst: Operand::Gpr(r), src: s.slot(i) }),
                }
            },
            (ValueLocation::Reg(from), ValueLocation::Reg(to)) => if from == to {
                self
            } else if from.type_() == GPRType::Rq && to.type_() == GPRType::Rq {
                self.emit(
                    Insn::Mov { w: Width::Q, dst: Operand::Gpr(to), src: Operand::Gpr(from) },
                )
            } else {
                self.emit(Insn::Movq { dst: Operand::Gpr(to), src: Operand::Gpr(from) })
            },
            (ValueLocation::Immediate(imm), ValueLocation::Reg(r)) => self.immediate_to_reg(r, imm),
            // There is no writing to a literal.
            (_, ValueLocation::Immediate(_)) => self.need(false),
        }
    }

    pub open spec fn pop_into(self, dst: ValueLocation) -> State {
        let (s, val) = self.pop();
        s.copy_value(val, dst).free_value(val)
    }

    /// Moves a value into a fresh register of the file `ty`.
    pub open spec fn into_fresh_reg(self, ty: GPRType, val: ValueLocation) -> (State, GPR) {
        let (s, scratch) = self.take(ty);
        (s.copy_value(val, ValueLocation::Reg(scratch)).free_value(val), scratch)
    }

    /// Puts this value into a register so that it can be efficiently read. A value that is in a
    /// register of the right file already stays where it is.
    pub open spec fn into_reg(self, ty: Option<GPRType>, val: ValueLocation) -> (State, GPR) {
        if val is Reg && (ty is None || ty->0 == val->Reg_0.type_()) {
            (self, val->Reg_0)
        } else {
            self.into_fresh_reg(file_or_rq(ty), val)
        }
    }

    /// Puts this value into a temporary register so that operations on that register don't write
    /// to a local. A register is temporary if nothing else uses it.
    pub open spec fn into_temp_reg(self, ty: Option<GPRType>, val: ValueLocation) -> (State, GPR) {
        if val is Reg {
            let r = val->Reg_0;
            let s = self.need(r.valid());
            if self.regs.count(r) <= 1 && (ty is None || ty->0 == r.type_()) {
                (s, r)
            } else {
                s.into_fresh_reg(file_or_rq(ty), val)
            }
        } else {
            self.into_reg(ty, val)
        }
    }

    /// Pushes a value on the machine's stack and tells where it is then. There is no instruction
    /// that pushes a vector register: a word is made for it by pushing another register.
    pub open spec fn push_physical(self, value: ValueLocation) -> (State, ValueLocation) {
        let s = State { depth: (self.depth + 1) as u32, ..self }.need(self.depth < u32::MAX);
        let s = match value {
            ValueLocation::Reg(GPR::Rq(r)) => s.emit(Insn::Push(Operand::rq(r))).release(
                GPR::Rq(r),
            ),
            ValueLocation::Reg(GPR::Rx(r)) => s.emit(Insn::Push(Operand::rq(rq::RAX))).emit(
                Insn::Movq { dst: Operand::at(rq::RSP, 0), src: Operand::rx(r) },
            ).release(GPR::Rx(r)),
            // The address is taken before the stack pointer moves.
            ValueLocation::Stack(o) => s.need(self.has_slot(o)).emit(Insn::Push(self.slot(o))),
            ValueLocation::Immediate(imm) => {
                let (s1, gpr) = s.take(GPRType::Rq);
                s1.emit(
                    Insn::Mov {
                        w: Width::Q,
                        dst: Operand::rq(gpr.id()),
                        src: Operand::Imm(imm.as_bytes()),
                    },
                ).emit(Insn::Push(Operand::rq(gpr.id()))).release(gpr)
            },
        };
        (s.need(s.depth as i32 != i32::MIN), ValueLocation::Stack(-(s.depth as i32) as i32))
    }

    /// Gives back the registers of all of `vals`, from the last to the first.
    pub open spec fn free_all(self, vals: Seq<ValueLocation>) -> State
        decreases vals.len(),
    {
        if vals.len() == 0 {
            self
        } else {
            self.free_value(vals.last()).free_all(vals.drop_last())
        }
    }

    /// Creates a label.
    pub open spec fn create_label(self) -> (State, Label) {
        (
            State {
                label_count: (self.label_count + 1) as usize,
                ok: self.ok && self.label_count < usize::MAX,
                ..self
            },
            Label { id: self.label_count },
        )
    }

    /// The same instruction `n` times.
    pub open spec fn emit_times(self, insn: Insn, n: nat) -> State {
        State { code: self.code + Seq::new(n, |i: int| insn), ..self }
    }

    /// Makes the machine's stack `depth` words deep without touching the flags.
    pub open spec fn set_stack_depth_preserve_flags(self, depth: u32) -> State {
        let s = if self.depth < depth {
            self.emit_times(
                Insn::Push(Operand::rq(rq::RAX)),
                (depth - self.depth) as nat,
            )
        } else if self.depth > depth {
            let (s, trash) = self.take(GPRType::Rq);
            s.emit_times(Insn::Pop(trash.id()), (self.depth - depth) as nat)
        } else {
            self
        };
        State { depth, ..s }
    }

    /// Makes the machine's stack `depth` words deep.
    pub open spec fn set_stack_depth(self, depth: u32) -> State {
        let diff = depth as i32 - self.depth as i32;
        if self.depth == depth {
            self
        } else if diff == 1 || diff == -1 {
            self.set_stack_depth_preserve_flags(depth)
        } else {
            let bytes = -diff * (WORD_SIZE as i32);
            let s = self.need(i32::MIN < diff <= i32::MAX && i32::MIN <= bytes <= i32::MAX);
            State { depth, ..s }.emit(
                Insn::Alu {
                    op: AluOp::Add,
                    w: Width::Q,
                    dst: rq::RSP,
                    src: Operand::Imm(bytes as i64),
                },
            )
        }
    }
}

/// The given file, or the file of the general-purpose registers.
pub open spec fn file_or_rq(ty: Option<GPRType>) -> GPRType {
    match ty {
        Some(ty) => ty,
        None => GPRType::Rq,
    }
}

} // verus!
