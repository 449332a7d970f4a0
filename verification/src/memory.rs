//! Loads from and stores to the linear memory, and globals.

use vstd::prelude::*;

use crate::context::Context;
use crate::insn::{Insn, Mem, Operand, Width};
use crate::laws::memory::lemma_reads;
use crate::location::{ValueLocation, VMCTX};
use crate::module_context::ModuleContext;
use crate::registers::{GPRType, RegId, GPR};
use crate::state::State;

verus! {

/// What a load reads and how it fills up the register.
#[derive(Debug, Copy, Clone, PartialEq, Eq, Structural)]
pub enum LoadOp {
    /// An integer of the given width. If it has 32 bits the upper half becomes zero.
    Int(Width),
    /// A floating-point number of the given width.
    Float(Width),
    /// `src_w` bits, filled up with zeros to `w` bits.
    ZeroExtend { w: Width, src_w: Width },
    /// `src_w` bits, filled up with their sign to `w` bits.
    SignExtend { w: Width, src_w: Width },
}

impl LoadOp {
    /// The register file of the result.
    pub open spec fn spec_file(self) -> GPRType {
        match self {
            LoadOp::Float(_) => GPRType::Rx,
            _ => GPRType::Rq,
        }
    }

    #[verifier::when_used_as_spec(spec_file)]
    pub fn file(self) -> (ty: GPRType)
        ensures
            ty == self.spec_file(),
    {
        match self {
            LoadOp::Float(_) => GPRType::Rx,
            _ => GPRType::Rq,
        }
    }

    pub open spec fn spec_insn(self, dst: GPR, mem: Mem) -> Insn {
        let src = Operand::Mem(mem);
        match self {
            LoadOp::Int(w) => Insn::Mov { w, dst: Operand::Gpr(dst), src },
            LoadOp::Float(Width::Q) => Insn::Movq { dst: Operand::Gpr(dst), src },
            LoadOp::Float(_) => Insn::Movd { dst: Operand::Gpr(dst), src },
            LoadOp::ZeroExtend { w, src_w } => Insn::Movzx { w, dst: dst.id(), src_w, src },
            LoadOp::SignExtend { w, src_w } => Insn::Movsx { w, dst: dst.id(), src_w, src },
        }
    }

    #[verifier::when_used_as_spec(spec_insn)]
    pub fn insn(self, dst: GPR, mem: Mem) -> (insn: Insn)
        ensures
            insn == self.spec_insn(dst, mem),
    {
        let src = Operand::Mem(mem);
        let id: RegId = match dst {
            GPR::Rq(r) => r,
            GPR::Rx(r) => r,
        };
        match self {
            LoadOp::Int(w) => Insn::Mov { w, dst: Operand::Gpr(dst), src },
            LoadOp::Float(Width::Q) => Insn::Movq { dst: Operand::Gpr(dst), src },
            LoadOp::Float(_) => Insn::Movd { dst: Operand::Gpr(dst), src },
            LoadOp::ZeroExtend { w, src_w } => Insn::Movzx { w, dst: id, src_w, src },
            LoadOp::SignExtend { w, src_w } => Insn::Movsx { w, dst: id, src_w, src },
        }
    }
}

/// The instruction that stores `w` bits of a register.
pub open spec fn store_insn(w: Width, mem: Mem, src: GPR) -> Insn {
    let dst = Operand::Mem(mem);
    match src {
        GPR::Rq(_) => Insn::Mov { w, dst, src: Operand::Gpr(src) },
        GPR::Rx(_) => match w {
            Width::Q => Insn::Movq { dst, src: Operand::Gpr(src) },
            _ => Insn::Movd { dst, src: Operand::Gpr(src) },
        },
    }
}

fn make_store_insn(w: Width, mem: Mem, src: GPR) -> (insn: Insn)
    ensures
        insn == store_insn(w, mem, src),
{
    let dst = Operand::Mem(mem);
    match src {
        GPR::Rq(_) => Insn::Mov { w, dst, src: Operand::Gpr(src) },
        GPR::Rx(_) => match w {
            Width::Q => Insn::Movq { dst, src: Operand::Gpr(src) },
            _ => Insn::Movd { dst, src: Operand::Gpr(src) },
        },
    }
}

/// Whether a store of this width reads its operand from a general-purpose register only.
pub open spec fn is_narrow(w: Width) -> bool {
    w is B || w is W
}

impl State {
    /// Loads the address of the linear memory, which stands `memory` bytes from the start of the
    /// VM context.
    pub open spec fn load_memory_base(self, memory: u32) -> (State, GPR) {
        let (s, ptr) = self.take(GPRType::Rq);
        (
            s.emit(
                Insn::Mov {
                    w: Width::Q,
                    dst: Operand::Gpr(ptr),
                    src: Operand::at(VMCTX, memory as i32),
                },
            ),
            ptr,
        )
    }

    pub open spec fn load_to_reg(
        self,
        memory: u32,
        op: LoadOp,
        dst: GPR,
        index: Option<RegId>,
        disp: i32,
    ) -> State {
        let (s, ptr) = self.load_memory_base(memory);
        s.emit(op.insn(dst, Mem { base: ptr.id(), index, disp })).release(ptr)
    }

    /// Loads from the address on top of the stack plus `offset`.
    pub open spec fn load(self, memory: u32, op: LoadOp, offset: u32) -> State {
        let (s, base) = self.pop();
        let (s, temp) = s.take(op.file());
        let s = match base {
            ValueLocation::Immediate(imm) => {
                let disp = offset as i32 + imm.as_i32()->0;
                s.need(imm.as_i32() is Some && i32::MIN <= disp <= i32::MAX).load_to_reg(
                    memory,
                    op,
                    temp,
                    None,
                    disp as i32,
                )
            },
            _ => {
                let (s, gpr) = s.into_reg(Some(GPRType::Rq), base);
                s.load_to_reg(memory, op, temp, Some(gpr.id()), offset as i32).release(gpr)
            },
        };
        s.push(ValueLocation::Reg(temp))
    }

    #[verifier::opaque]
    pub open spec fn store_from_reg(
        self,
        memory: u32,
        w: Width,
        src: GPR,
        index: Option<RegId>,
        disp: i32,
    ) -> State {
        let (s, ptr) = self.load_memory_base(memory);
        let (s, src) = if is_narrow(w) {
            s.into_temp_reg(Some(GPRType::Rq), ValueLocation::Reg(src))
        } else {
            (s, src)
        };
        s.emit(store_insn(w, Mem { base: ptr.id(), index, disp }, src)).release(ptr).release(src)
    }

    /// Stores the value in `src` at the address in `base` plus `offset`.
    pub open spec fn store_at(
        self,
        memory: u32,
        w: Width,
        base: ValueLocation,
        src: GPR,
        offset: u32,
    ) -> State {
        match base {
            ValueLocation::Immediate(imm) => {
                let disp = offset as i32 + imm.as_i32()->0;
                self.need(imm.as_i32() is Some && i32::MIN <= disp <= i32::MAX).store_from_reg(
                    memory,
                    w,
                    src,
                    None,
                    disp as i32,
                )
            },
            _ => {
                let (s, gpr) = self.into_reg(Some(GPRType::Rq), base);
                s.store_from_reg(memory, w, src, Some(gpr.id()), offset as i32).release(gpr)
            },
        }
    }

    /// Stores the top of the stack at the address below it plus `offset`.
    pub open spec fn store(self, memory: u32, w: Width, offset: u32) -> State {
        let (s, src) = self.need(offset <= i32::MAX).pop();
        let (s, base) = s.pop();
        let (s, src_reg) = s.into_reg(None, src);
        s.store_at(memory, w, base, src_reg, offset)
    }

    /// Pushes the value of the global that stands `offset` bytes from the start of the VM
    /// context.
    pub open spec fn get_global(self, offset: u32) -> State {
        let (s, out) = self.take(GPRType::Rq);
        s.emit(
            Insn::Mov {
                w: Width::Q,
                dst: Operand::Gpr(out),
                src: Operand::at(VMCTX, offset as i32),
            },
        ).push(ValueLocation::Reg(out))
    }

    /// Pops a value and stores it in that global.
    pub open spec fn set_global(self, offset: u32) -> State {
        let (s, val) = self.pop();
        let (s, reg) = s.into_reg(Some(GPRType::Rq), val);
        s.emit(
            Insn::Mov {
                w: Width::Q,
                dst: Operand::at(VMCTX, offset as i32),
                src: Operand::Gpr(reg),
            },
        ).release(reg)
    }
}

pub proof fn lemma_store_from_reg_ok(
    s: State,
    memory: u32,
    w: Width,
    src: GPR,
    index: Option<RegId>,
    disp: i32,
)
    ensures
        s.store_from_reg(memory, w, src, index, disp).ok ==> s.ok,
{
    reveal(State::store_from_reg);
}

pub proof fn lemma_store_at_ok(
    s: State,
    memory: u32,
    w: Width,
    base: ValueLocation,
    src: GPR,
    offset: u32,
)
    ensures
        s.store_at(memory, w, base, src, offset).ok ==> s.ok,
        base is Immediate && s.store_at(memory, w, base, src, offset).ok ==> {
            let imm = base->Immediate_0.as_i32();
            imm is Some && i32::MIN <= offset as i32 + imm->0 <= i32::MAX
        },
        !(base is Immediate) && s.store_at(memory, w, base, src, offset).ok ==> s.into_reg(
            Some(GPRType::Rq),
            base,
        ).0.ok,
{
    match base {
        ValueLocation::Immediate(imm) => {
            let disp = offset as i32 + imm.as_i32()->0;
            lemma_store_from_reg_ok(
                s.need(imm.as_i32() is Some && i32::MIN <= disp <= i32::MAX),
                memory,
                w,
                src,
                None,
                disp as i32,
            );
        },
        _ => {
            let (t, gpr) = s.into_reg(Some(GPRType::Rq), base);
            lemma_store_from_reg_ok(t, memory, w, src, Some(gpr.id()), offset as i32);
        },
    }
}

/// Where the runtime keeps a global that the module defines.
pub open spec fn global_offset<M: ModuleContext>(module: M, global_idx: u32) -> u32 {
    module.spec_vmctx_vmglobal_definition(module.spec_defined_global_index(global_idx)->0)
}

impl<'a, M: ModuleContext> Context<'a, M> {
    fn load_memory_base(&mut self) -> (ptr: GPR)
        requires
            old(self)@.load_memory_base(
                old(self).module_context.spec_vmctx_vmmemory_definition_base(0),
            ).0.ok,
        ensures
            (final(self)@, ptr) == old(self)@.load_memory_base(
                old(self).module_context.spec_vmctx_vmmemory_definition_base(0),
            ),
            ptr is Rq,
            final(self).same_function(*old(self)),
            *final(final(self).out) == *final(old(self).out),
    {
        let disp: i32 = self.module_context.vmctx_vmmemory_definition_base(0) as i32;
        let mem_ptr_reg = self.take(GPRType::Rq);
        self.emit(
            Insn::Mov {
                w: Width::Q,
                dst: Operand::Gpr(mem_ptr_reg),
                src: Operand::Mem(Mem { base: VMCTX, index: None, disp }),
            },
        );
        mem_ptr_reg
    }

    fn load_to_reg(&mut self, op: LoadOp, dst: GPR, index: Option<RegId>, disp: i32)
        requires
            old(self)@.load_to_reg(
                old(self).module_context.spec_vmctx_vmmemory_definition_base(0),
                op,
                dst,
                index,
                disp,
            ).ok,
        ensures
            final(self)@ == old(self)@.load_to_reg(
                old(self).module_context.spec_vmctx_vmmemory_definition_base(0),
                op,
                dst,
                index,
                disp,
            ),
            final(self).same_function(*old(self)),
            *final(final(self).out) == *final(old(self).out),
    {
        let mem_ptr_reg = self.load_memory_base();
        let base: RegId = mem_ptr_reg.rq().unwrap();
        self.emit(op.insn(dst, Mem { base, index, disp }));
        self.release(mem_ptr_reg);
    }

    fn load(&mut self, op: LoadOp, offset: u32)
        requires
            old(self)@.load(
                old(self).module_context.spec_vmctx_vmmemory_definition_base(0),
                op,
                offset,
            ).ok,
        ensures
            final(self)@ == old(self)@.load(
                old(self).module_context.spec_vmctx_vmmemory_definition_base(0),
                op,
                offset,
            ),
            final(self).same_function(*old(self)),
            *final(final(self).out) == *final(old(self).out),
    {
        let base = self.pop();
        let temp = self.take(op.file());
        match base {
            ValueLocation::Immediate(i) => {
                let disp: i32 = offset as i32 + i.as_i32().unwrap();
                self.load_to_reg(op, temp, None, disp);
            },
            base => {
                let gpr = self.into_reg(Some(GPRType::Rq), base);
                let index: RegId = gpr.rq().unwrap();
                self.load_to_reg(op, temp, Some(index), offset as i32);
                self.release(gpr);
            },
        }
        self.push(ValueLocation::Reg(temp));
    }

    fn store_from_reg(&mut self, w: Width, src: GPR, index: Option<RegId>, disp: i32)
        requires
            old(self)@.store_from_reg(
                old(self).module_context.spec_vmctx_vmmemory_definition_base(0),
                w,
                src,
                index,
                disp,
            ).ok,
        ensures
            final(self)@ == old(self)@.store_from_reg(
                old(self).module_context.spec_vmctx_vmmemory_definition_base(0),
                w,
                src,
                index,
                disp,
            ),
            final(self).same_function(*old(self)),
            *final(final(self).out) == *final(old(self).out),
    {
        proof {
            reveal(State::store_from_reg);
        }
        let mem_ptr_reg = self.load_memory_base();
        let base: RegId = mem_ptr_reg.rq().unwrap();
        let src_reg = match w {
            Width::B | Width::W => self.into_temp_reg(Some(GPRType::Rq), ValueLocation::Reg(src)),
            _ => src,
        };
        self.emit(make_store_insn(w, Mem { base, index, disp }, src_reg));
        self.release(mem_ptr_reg);
        self.release(src_reg);
    }

    fn store(&mut self, w: Width, offset: u32)
        requires
            old(self)@.store(
                old(self).module_context.spec_vmctx_vmmemory_definition_base(0),
                w,
                offset,
            ).ok,
        ensures
            final(self)@ == old(self)@.store(
                old(self).module_context.spec_vmctx_vmmemory_definition_base(0),
                w,
                offset,
            ),
            final(self).same_function(*old(self)),
            *final(final(self).out) == *final(old(self).out),
    {
        proof {
            let memory = self.module_context.spec_vmctx_vmmemory_definition_base(0);
            let (s, src) = self@.need(offset <= i32::MAX).pop();
            let (s, base) = s.pop();
            let (s, src_reg) = s.into_reg(None, src);
            lemma_store_at_ok(s, memory, w, base, src_reg, offset);
        }
        let src = self.pop();
        let base = self.pop();
        let src_reg = self.into_reg(None, src);
        match base {
            ValueLocation::Immediate(i) => {
                let disp: i32 = offset as i32 + i.as_i32().unwrap();
                self.store_from_reg(w, src_reg, None, disp);
            },
            base => {
                let gpr = self.into_reg(Some(GPRType::Rq), base);
                let index: RegId = gpr.rq().unwrap();
                self.store_from_reg(w, src_reg, Some(index), offset as i32);
                self.release(gpr);
            },
        }
    }

    /// Loads an `i32`.
    pub fn i32_load(&mut self, offset: u32)
        requires
            old(self)@.load(
                old(self).module_context.spec_vmctx_vmmemory_definition_base(0),
                LoadOp::Int(Width::D),
                offset,
            ).ok,
        ensures
            final(self)@ == old(self)@.load(
                old(self).module_context.spec_vmctx_vmmemory_definition_base(0),
                LoadOp::Int(Width::D),
                offset,
            ),
            old(self)@.reads(
                final(self)@,
                old(self).module_context.spec_vmctx_vmmemory_definition_base(0),
                Width::D,
                offset,
            ),
            final(self).same_function(*old(self)),
            *final(final(self).out) == *final(old(self).out),
    {
        proof {
            let memory = self.module_context.spec_vmctx_vmmemory_definition_base(0);
            lemma_reads(self@, memory, LoadOp::Int(Width::D), Width::D, offset);
        }
        self.load(LoadOp::Int(Width::D), offset);
    }

    /// Loads an `i64`.
    pub fn i64_load(&mut self, offset: u32)
        requires
            old(self)@.load(
                old(self).module_context.spec_vmctx_vmmemory_definition_base(0),
                LoadOp::Int(Width::Q),
                offset,
            ).ok,
        ensures
            final(self)@ == old(self)@.load(
                old(self).module_context.spec_vmctx_vmmemory_definition_base(0),
                LoadOp::Int(Width::Q),
                offset,
            ),
            old(self)@.reads(
                final(self)@,
                old(self).module_context.spec_vmctx_vmmemory_definition_base(0),
                Width::Q,
                offset,
            ),
            final(self).same_function(*old(self)),
            *final(final(self).out) == *final(old(self).out),
    {
        proof {
            let memory = self.module_context.spec_vmctx_vmmemory_definition_base(0);
            lemma_reads(self@, memory, LoadOp::Int(Width::Q), Width::Q, offset);
        }
        self.load(LoadOp::Int(Width::Q), offset);
    }

    /// Loads an `f32`.
    pub fn f32_load(&mut self, offset: u32)
        requires
            old(self)@.load(
                old(self).module_context.spec_vmctx_vmmemory_definition_base(0),
                LoadOp::Float(Width::D),
                offset,
            ).ok,
        ensures
            final(self)@ == old(self)@.load(
                old(self).module_context.spec_vmctx_vmmemory_definition_base(0),
                LoadOp::Float(Width::D),
                offset,
            ),
            old(self)@.reads(
                final(self)@,
                old(self).module_context.spec_vmctx_vmmemory_definition_base(0),
                Width::D,
                offset,
            ),
            final(self).same_function(*old(self)),
            *final(final(self).out) == *final(old(self).out),
    {
        proof {
            let memory = self.module_context.spec_vmctx_vmmemory_definition_base(0);
            lemma_reads(self@, memory, LoadOp::Float(Width::D), Width::D, offset);
        }
        self.load(LoadOp::Float(Width::D), offset);
    }

    /// Loads an `f64`.
    pub fn f64_load(&mut self, offset: u32)
        requires
            old(self)@.load(
                old(self).module_context.spec_vmctx_vmmemory_definition_base(0),
                LoadOp::Float(Width::Q),
                offset,
            ).ok,
        ensures
            final(self)@ == old(self)@.load(
                old(self).module_context.spec_vmctx_vmmemory_definition_base(0),
                LoadOp::Float(Width::Q),
                offset,
            ),
            old(self)@.reads(
                final(self)@,
                old(self).module_context.spec_vmctx_vmmemory_definition_base(0),
                Width::Q,
                offset,
            ),
            final(self).same_function(*old(self)),
            *final(final(self).out) == *final(old(self).out),
    {
        proof {
            let memory = self.module_context.spec_vmctx_vmmemory_definition_base(0);
            lemma_reads(self@, memory, LoadOp::Float(Width::Q), Width::Q, offset);
        }
        self.load(LoadOp::Float(Width::Q), offset);
    }

    /// Loads 8 bits as an `i32`, without sign.
    pub fn i32_load8_u(&mut self, offset: u32)
        requires
            old(self)@.load(
                old(self).module_context.spec_vmctx_vmmemory_definition_base(0),
                (LoadOp::ZeroExtend { w: Width::D, src_w: Width::B }),
                offset,
            ).ok,
        ensures
            final(self)@ == old(self)@.load(
                old(self).module_context.spec_vmctx_vmmemory_definition_base(0),
                (LoadOp::ZeroExtend { w: Width::D, src_w: Width::B }),
                offset,
            ),
            final(self).same_function(*old(self)),
            *final(final(self).out) == *final(old(self).out),
    {
        self.load((LoadOp::ZeroExtend { w: Width::D, src_w: Width::B }), offset);
    }

    /// Loads 8 bits as an `i32`, with sign.
    pub fn i32_load8_s(&mut self, offset: u32)
        requires
            old(self)@.load(
                old(self).module_context.spec_vmctx_vmmemory_definition_base(0),
                (LoadOp::SignExtend { w: Width::D, src_w: Width::B }),
                offset,
            ).ok,
        ensures
            final(self)@ == old(self)@.load(
                old(self).module_context.spec_vmctx_vmmemory_definition_base(0),
                (LoadOp::SignExtend { w: Width::D, src_w: Width::B }),
                offset,
            ),
            final(self).same_function(*old(self)),
            *final(final(self).out) == *final(old(self).out),
    {
        self.load((LoadOp::SignExtend { w: Width::D, src_w: Width::B }), offset);
    }

    /// Loads 16 bits as an `i32`, without sign.
    pub fn i32_load16_u(&mut self, offset: u32)
        requires
            old(self)@.load(
                old(self).module_context.spec_vmctx_vmmemory_definition_base(0),
                (LoadOp::ZeroExtend { w: Width::D, src_w: Width::W }),
                offset,
            ).ok,
        ensures
            final(self)@ == old(self)@.load(
                old(self).module_context.spec_vmctx_vmmemory_definition_base(0),
                (LoadOp::ZeroExtend { w: Width::D, src_w: Width::W }),
                offset,
            ),
            final(self).same_function(*old(self)),
            *final(final(self).out) == *final(old(self).out),
    {
        self.load((LoadOp::ZeroExtend { w: Width::D, src_w: Width::W }), offset);
    }

    /// Loads 16 bits as an `i32`, with sign.
    pub fn i32_load16_s(&mut self, offset: u32)
        requires
            old(self)@.load(
                old(self).module_context.spec_vmctx_vmmemory_definition_base(0),
                (LoadOp::SignExtend { w: Width::D, src_w: Width::W }),
                offset,
            ).ok,
        ensures
            final(self)@ == old(self)@.load(
                old(self).module_context.spec_vmctx_vmmemory_definition_base(0),
                (LoadOp::SignExtend { w: Width::D, src_w: Width::W }),
                offset,
            ),
            final(self).same_function(*old(self)),
            *final(final(self).out) == *final(old(self).out),
    {
        self.load((LoadOp::SignExtend { w: Width::D, src_w: Width::W }), offset);
    }

    /// Loads 8 bits as an `i64`, without sign.
    pub fn i64_load8_u(&mut self, offset: u32)
        requires
            old(self)@.load(
                old(self).module_context.spec_vmctx_vmmemory_definition_base(0),
                (LoadOp::ZeroExtend { w: Width::Q, src_w: Width::B }),
                offset,
            ).ok,
        ensures
            final(self)@ == old(self)@.load(
                old(self).module_context.spec_vmctx_vmmemory_definition_base(0),
                (LoadOp::ZeroExtend { w: Width::Q, src_w: Width::B }),
                offset,
            ),
            final(self).same_function(*old(self)),
            *final(final(self).out) == *final(old(self).out),
    {
        self.load((LoadOp::ZeroExtend { w: Width::Q, src_w: Width::B }), offset);
    }

    /// Loads 8 bits as an `i64`, with sign.
    pub fn i64_load8_s(&mut self, offset: u32)
        requires
            old(self)@.load(
                old(self).module_context.spec_vmctx_vmmemory_definition_base(0),
                (LoadOp::SignExtend { w: Width::Q, src_w: Width::B }),
                offset,
            ).ok,
        ensures
            final(self)@ == old(self)@.load(
                old(self).module_context.spec_vmctx_vmmemory_definition_base(0),
                (LoadOp::SignExtend { w: Width::Q, src_w: Width::B }),
                offset,
            ),
            final(self).same_function(*old(self)),
            *final(final(self).out) == *final(old(self).out),
    {
        self.load((LoadOp::SignExtend { w: Width::Q, src_w: Width::B }), offset);
    }

    /// Loads 16 bits as an `i64`, without sign.
    pub fn i64_load16_u(&mut self, offset: u32)
        requires
            old(self)@.load(
                old(self).module_context.spec_vmctx_vmmemory_definition_base(0),
                (LoadOp::ZeroExtend { w: Width::Q, src_w: Width::W }),
                offset,
            ).ok,
        ensures
            final(self)@ == old(self)@.load(
                old(self).module_context.spec_vmctx_vmmemory_definition_base(0),
                (LoadOp::ZeroExtend { w: Width::Q, src_w: Width::W }),
                offset,
            ),
            final(self).same_function(*old(self)),
            *final(final(self).out) == *final(old(self).out),
    {
        self.load((LoadOp::ZeroExtend { w: Width::Q, src_w: Width::W }), offset);
    }

    /// Loads 16 bits as an `i64`, with sign.
    pub fn i64_load16_s(&mut self, offset: u32)
        requires
            old(self)@.load(
                old(self).module_context.spec_vmctx_vmmemory_definition_base(0),
                (LoadOp::SignExtend { w: Width::Q, src_w: Width::W }),
                offset,
            ).ok,
        ensures
            final(self)@ == old(self)@.load(
                old(self).module_context.spec_vmctx_vmmemory_definition_base(0),
                (LoadOp::SignExtend { w: Width::Q, src_w: Width::W }),
                offset,
            ),
            final(self).same_function(*old(self)),
            *final(final(self).out) == *final(old(self).out),
    {
        self.load((LoadOp::SignExtend { w: Width::Q, src_w: Width::W }), offset);
    }

    /// Loads 32 bits as an `i64`, without sign.
    pub fn i64_load32_u(&mut self, offset: u32)
        requires
            old(self)@.load(
                old(self).module_context.spec_vmctx_vmmemory_definition_base(0),
                LoadOp::Int(Width::D),
                offset,
            ).ok,
        ensures
            final(self)@ == old(self)@.load(
                old(self).module_context.spec_vmctx_vmmemory_definition_base(0),
                LoadOp::Int(Width::D),
                offset,
            ),
            final(self).same_function(*old(self)),
            *final(final(self).out) == *final(old(self).out),
    {
        self.load(LoadOp::Int(Width::D), offset);
    }

    /// Loads 32 bits as an `i64`, with sign.
    pub fn i64_load32_s(&mut self, offset: u32)
        requires
            old(self)@.load(
                old(self).module_context.spec_vmctx_vmmemory_definition_base(0),
                (LoadOp::SignExtend { w: Width::Q, src_w: Width::D }),
                offset,
            ).ok,
        ensures
            final(self)@ == old(self)@.load(
                old(self).module_context.spec_vmctx_vmmemory_definition_base(0),
                (LoadOp::SignExtend { w: Width::Q, src_w: Width::D }),
                offset,
            ),
            final(self).same_function(*old(self)),
            *final(final(self).out) == *final(old(self).out),
    {
        self.load((LoadOp::SignExtend { w: Width::Q, src_w: Width::D }), offset);
    }

    /// Stores 8 bits.
    pub fn store8(&mut self, offset: u32)
        requires
            old(self)@.store(
                old(self).module_context.spec_vmctx_vmmemory_definition_base(0),
                Width::B,
                offset,
            ).ok,
        ensures
            final(self)@ == old(self)@.store(
                old(self).module_context.spec_vmctx_vmmemory_definition_base(0),
                Width::B,
                offset,
            ),
            final(self).same_function(*old(self)),
            *final(final(self).out) == *final(old(self).out),
    {
        self.store(Width::B, offset);
    }

    /// Stores 16 bits.
    pub fn store16(&mut self, offset: u32)
        requires
            old(self)@.store(
                old(self).module_context.spec_vmctx_vmmemory_definition_base(0),
                Width::W,
                offset,
            ).ok,
        ensures
            final(self)@ == old(self)@.store(
                old(self).module_context.spec_vmctx_vmmemory_definition_base(0),
                Width::W,
                offset,
            ),
            final(self).same_function(*old(self)),
            *final(final(self).out) == *final(old(self).out),
    {
        self.store(Width::W, offset);
    }

    /// Stores 32 bits.
    pub fn store32(&mut self, offset: u32)
        requires
            old(self)@.store(
                old(self).module_context.spec_vmctx_vmmemory_definition_base(0),
                Width::D,
                offset,
            ).ok,
        ensures
            final(self)@ == old(self)@.store(
                old(self).module_context.spec_vmctx_vmmemory_definition_base(0),
                Width::D,
                offset,
            ),
            final(self).same_function(*old(self)),
            *final(final(self).out) == *final(old(self).out),
    {
        self.store(Width::D, offset);
    }

    /// Stores 64 bits.
    pub fn store64(&mut self, offset: u32)
        requires
            old(self)@.store(
                old(self).module_context.spec_vmctx_vmmemory_definition_base(0),
                Width::Q,
                offset,
            ).ok,
        ensures
            final(self)@ == old(self)@.store(
                old(self).module_context.spec_vmctx_vmmemory_definition_base(0),
                Width::Q,
                offset,
            ),
            final(self).same_function(*old(self)),
            *final(final(self).out) == *final(old(self).out),
    {
        self.store(Width::Q, offset);
    }

    /// Pushes the value of a global.
    pub fn get_global(&mut self, global_idx: u32)
        requires
            old(self).module_context.spec_defined_global_index(global_idx) is Some,
            old(self)@.get_global(global_offset(*old(self).module_context, global_idx)).ok,
        ensures
            final(self)@ == old(self)@.get_global(
                global_offset(*old(self).module_context, global_idx),
            ),
            final(self).same_function(*old(self)),
            *final(final(self).out) == *final(old(self).out),
    {
        let index: u32 = self.module_context.defined_global_index(global_idx).unwrap();
        let disp: i32 = self.module_context.vmctx_vmglobal_definition(index) as i32;
        let out = self.take(GPRType::Rq);
        // We always use `Rq` (even for floats) since the globals are not necessarily aligned to
        // 128 bits
        self.emit(
            Insn::Mov {
                w: Width::Q,
                dst: Operand::Gpr(out),
                src: Operand::Mem(Mem { base: VMCTX, index: None, disp }),
            },
        );
        self.push(ValueLocation::Reg(out));
    }

    /// Pops a value and stores it in a global.
    pub fn set_global(&mut self, global_idx: u32)
        requires
            old(self).module_context.spec_defined_global_index(global_idx) is Some,
            old(self)@.set_global(global_offset(*old(self).module_context, global_idx)).ok,
        ensures
            final(self)@ == old(self)@.set_global(
                global_offset(*old(self).module_context, global_idx),
            ),
            final(self).same_function(*old(self)),
            *final(final(self).out) == *final(old(self).out),
    {
        let val = self.pop();
        let index: u32 = self.module_context.defined_global_index(global_idx).unwrap();
        let disp: i32 = self.module_context.vmctx_vmglobal_definition(index) as i32;
        let val = self.into_reg(Some(GPRType::Rq), val);
        // We always use `Rq` (even for floats) since the globals are not necessarily aligned to
        // 128 bits
        self.emit(
            Insn::Mov {
                w: Width::Q,
                dst: Operand::Mem(Mem { base: VMCTX, index: None, disp }),
                src: Operand::Gpr(val),
            },
        );
        self.release(val);
    }
}

} // verus!
