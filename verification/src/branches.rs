//! Labels, branches, traps and returns.

use vstd::prelude::*;

use crate::assembly::{Label, Labels, PendingLabel};
use crate::context::Context;
use crate::insn::{AluOp, Cond, Insn, LocalLabel, Operand, Width};
use crate::labels::is_plain;
use crate::location::ValueLocation;
use crate::microwasm::{BrTarget, Value};
use crate::module_context::ModuleContext;
use crate::registers::{rq, GPRType, RegId, GPR};
use crate::state::State;

verus! {

/// What a label that all operations share stands for.
#[derive(Debug, Copy, Clone, PartialEq, Eq, Structural)]
pub enum SharedLabel {
    /// The trap that conditional traps jump to.
    Trap,
    /// The return that conditional returns jump to.
    Ret,
    /// The mask of the sign of an `f32`.
    NegF32,
    /// The mask of the sign of an `f64`.
    NegF64,
    /// The mask of all but the sign of an `f32`.
    AbsF32,
    /// The mask of all but the sign of an `f64`.
    AbsF64,
}

impl Labels {
    pub open spec fn get(self, which: SharedLabel) -> Option<PendingLabel> {
        match which {
            SharedLabel::Trap => self.trap,
            SharedLabel::Ret => self.ret,
            SharedLabel::NegF32 => self.neg_const_f32,
            SharedLabel::NegF64 => self.neg_const_f64,
            SharedLabel::AbsF32 => self.abs_const_f32,
            SharedLabel::AbsF64 => self.abs_const_f64,
        }
    }

    pub open spec fn with(self, which: SharedLabel, pending: PendingLabel) -> Labels {
        match which {
            SharedLabel::Trap => Labels { trap: Some(pending), ..self },
            SharedLabel::Ret => Labels { ret: Some(pending), ..self },
            SharedLabel::NegF32 => Labels { neg_const_f32: Some(pending), ..self },
            SharedLabel::NegF64 => Labels { neg_const_f64: Some(pending), ..self },
            SharedLabel::AbsF32 => Labels { abs_const_f32: Some(pending), ..self },
            SharedLabel::AbsF64 => Labels { abs_const_f64: Some(pending), ..self },
        }
    }

    fn lookup(&self, which: SharedLabel) -> (pending: Option<PendingLabel>)
        ensures
            pending == self.get(which),
    {
        match which {
            SharedLabel::Trap => self.trap,
            SharedLabel::Ret => self.ret,
            SharedLabel::NegF32 => self.neg_const_f32,
            SharedLabel::NegF64 => self.neg_const_f64,
            SharedLabel::AbsF32 => self.abs_const_f32,
            SharedLabel::AbsF64 => self.abs_const_f64,
        }
    }

    fn record(&mut self, which: SharedLabel, pending: PendingLabel)
        ensures
            *final(self) == old(self).with(which, pending),
    {
        match which {
            SharedLabel::Trap => {
                self.trap = Some(pending);
            },
            SharedLabel::Ret => {
                self.ret = Some(pending);
            },
            SharedLabel::NegF32 => {
                self.neg_const_f32 = Some(pending);
            },
            SharedLabel::NegF64 => {
                self.neg_const_f64 = Some(pending);
            },
            SharedLabel::AbsF32 => {
                self.abs_const_f32 = Some(pending);
            },
            SharedLabel::AbsF64 => {
                self.abs_const_f64 = Some(pending);
            },
        }
    }
}

/// Whether a constant stands at the label. Constants are aligned to 16 bytes.
pub open spec fn is_const(which: SharedLabel) -> bool {
    which !is Trap && which !is Ret
}

/// What stands at a shared label.
pub open spec fn shared_code(which: SharedLabel) -> Seq<Insn> {
    match which {
        SharedLabel::Trap => seq![Insn::Ud2],
        SharedLabel::Ret => seq![Insn::Ret],
        SharedLabel::NegF32 => seq![
            Insn::Dword(i32::MIN),
            Insn::Dword(0),
            Insn::Dword(0),
            Insn::Dword(0),
        ],
        SharedLabel::NegF64 => seq![
            Insn::Dword(0),
            Insn::Dword(i32::MIN),
            Insn::Dword(0),
            Insn::Dword(0),
        ],
        SharedLabel::AbsF32 => seq![
            Insn::Dword(i32::MAX),
            Insn::Dword(i32::MAX),
            Insn::Dword(i32::MAX),
            Insn::Dword(i32::MAX),
        ],
        SharedLabel::AbsF64 => seq![
            Insn::Qword(i64::MAX),
            Insn::Qword(i64::MAX),
        ],
    }
}

impl State {
    pub open spec fn emit_all(self, code: Seq<Insn>) -> State {
        State { code: self.code + code, ..self }
    }

    /// The shared label, which is created if nothing has needed it before.
    pub open spec fn shared_label(self, which: SharedLabel) -> (State, Label) {
        match self.labels.get(which) {
            Some(pending) => (self, pending.label),
            None => {
                let (s, label) = self.create_label();
                (
                    State {
                        labels: s.labels.with(which, PendingLabel { label, is_defined: false }),
                        ..s
                    },
                    label,
                )
            },
        }
    }

    pub open spec fn target_to_label(self, target: BrTarget<Label>) -> (State, Label) {
        match target {
            BrTarget::Label(label) => (self, label),
            BrTarget::Return => self.shared_label(SharedLabel::Ret),
        }
    }

    pub open spec fn br(self, target: BrTarget<Label>) -> State {
        match target {
            BrTarget::Return => self.emit(Insn::Ret),
            BrTarget::Label(label) => self.emit(Insn::Jmp(label)),
        }
    }

    /// The first half of a conditional branch: the predicate is popped and the label found.
    pub open spec fn br_if_start(self, target: BrTarget<Label>) -> (State, ValueLocation, Label) {
        let (s, val) = self.pop();
        let (s, label) = s.target_to_label(target);
        (s, val, label)
    }

    /// The second half of a conditional branch: it jumps if the comparison of the predicate with
    /// zero gives `cond`.
    pub open spec fn br_if_end(self, val: ValueLocation, label: Label, cond: Cond) -> State {
        let (s, predicate) = self.into_reg(Some(GPRType::Rq), val);
        s.emit(
            Insn::Test { w: Width::D, left: predicate.id(), right: Operand::rq(predicate.id()) },
        ).emit(Insn::Jcc { cond, label }).release(predicate)
    }

    /// A jump to each of `targets`.
    pub open spec fn jumps(self, targets: Seq<BrTarget<Label>>) -> State
        decreases targets.len(),
    {
        if targets.len() == 0 {
            self
        } else {
            let (s, label) = self.jumps(targets.drop_last()).target_to_label(targets.last());
            s.emit(Insn::Jmp(label))
        }
    }

    /// The jump into a table of `count` jumps. Each jump is five bytes long. Selectors beyond the
    /// end of the table go to what follows it.
    pub open spec fn enter_table(self, selector: RegId, count: usize) -> State {
        let (s, tmp) = self.take(GPRType::Rq);
        s.immediate_to_reg(tmp, Value::I32(count as u32 as i32)).emit(
            Insn::Cmp { w: Width::Q, left: Operand::rq(selector), right: Operand::rq(tmp.id()) },
        ).emit(
            Insn::Cmov { cond: Cond::A, dst: selector, src: Operand::rq(tmp.id()) },
        ).emit(Insn::LeaLocal { dst: tmp.id(), label: LocalLabel::Start }).emit(
            Insn::LeaTimes5 { dst: selector },
        ).emit(
            Insn::Alu { op: AluOp::Add, w: Width::Q, dst: selector, src: Operand::rq(tmp.id()) },
        ).emit(Insn::JmpReg(selector)).emit(Insn::DefineLocal(LocalLabel::Start)).release(tmp)
    }

    /// A table of jumps and the jump into it.
    pub open spec fn jump_table(self, selector: RegId, targets: Seq<BrTarget<Label>>) -> State {
        self.enter_table(selector, targets.len() as usize).jumps(targets)
    }

    pub open spec fn br_default(self, default: Option<BrTarget<Label>>) -> State {
        match default {
            Some(target) => self.br(target),
            None => self,
        }
    }

    /// The second half of a branch through a table. A selector that is known now needs no table.
    /// Any other is brought into a register that nothing else uses, because the jump into the
    /// table overwrites it.
    pub open spec fn br_table_end(
        self,
        selector: ValueLocation,
        targets: Seq<BrTarget<Label>>,
        default: Option<BrTarget<Label>>,
    ) -> State {
        match selector.imm_i32() {
            Some(imm) => if 0 <= imm < targets.len() {
                self.br(targets[imm as int])
            } else {
                self.br_default(default)
            },
            None => if targets.len() > 0 {
                let (s, reg) = self.into_temp_reg(Some(GPRType::Rq), selector);
                s.jump_table(reg.id(), targets).br_default(default).release(reg)
            } else {
                self.br_default(default).free_value(selector)
            },
        }
    }

    /// Defines a shared label that is needed and not yet defined, with what stands at it.
    pub open spec fn define_shared(self, which: SharedLabel) -> State {
        match self.labels.get(which) {
            Some(PendingLabel { label, is_defined: false }) => {
                let s = if is_const(which) {
                    self.emit(Insn::Align(16))
                } else {
                    self
                };
                let s = s.emit(Insn::DefineLabel(label)).emit_all(shared_code(which));
                State {
                    labels: s.labels.with(which, PendingLabel { label, is_defined: true }),
                    ..s
                }
            },
            _ => self,
        }
    }

    pub open spec fn epilogue(self) -> State {
        self.define_shared(SharedLabel::Trap).define_shared(SharedLabel::Ret).define_shared(
            SharedLabel::NegF32,
        ).define_shared(SharedLabel::NegF64).define_shared(SharedLabel::AbsF32).define_shared(
            SharedLabel::AbsF64,
        )
    }
}

pub proof fn lemma_jumps_ok(s: State, targets: Seq<BrTarget<Label>>, n: int)
    requires
        0 <= n <= targets.len(),
    ensures
        s.jumps(targets).ok ==> s.jumps(targets.take(n)).ok,
    decreases targets.len(),
{
    if n < targets.len() {
        lemma_jumps_ok(s, targets.drop_last(), n);
        assert(targets.drop_last().take(n) =~= targets.take(n));
    } else {
        assert(targets.take(n) =~= targets);
    }
}

/// The code that calls `printer` with the arguments `len` and `ptr` and keeps all registers that
/// the callee may change. The stack pointer is moved by a word if it is not aligned.
pub open spec fn print_code(printer: i64, len: i64, ptr: i64) -> Seq<Insn> {
    seq![
        Insn::Push(Operand::rq(rq::RDI)),
        Insn::Push(Operand::rq(rq::RSI)),
        Insn::Push(Operand::rq(rq::RDX)),
        Insn::Push(Operand::rq(rq::RCX)),
        Insn::Push(Operand::rq(rq::R8)),
        Insn::Push(Operand::rq(rq::R9)),
        Insn::Push(Operand::rq(rq::R10)),
        Insn::Push(Operand::rq(rq::R11)),
        Insn::Mov { w: Width::Q, dst: Operand::rq(rq::RAX), src: Operand::Imm(printer) },
        Insn::Mov { w: Width::Q, dst: Operand::rq(rq::RDI), src: Operand::Imm(len) },
        Insn::Mov { w: Width::Q, dst: Operand::rq(rq::RSI), src: Operand::Imm(ptr) },
        Insn::Test { w: Width::Q, left: rq::RSP, right: Operand::Imm(0b1111) },
        Insn::JccLocal { cond: Cond::Ne, label: LocalLabel::WithAdjustedStackPtr },
        Insn::CallReg(rq::RAX),
        Insn::JmpLocal(LocalLabel::PopRest),
        Insn::DefineLocal(LocalLabel::WithAdjustedStackPtr),
        Insn::Push(Operand::Imm(1)),
        Insn::CallReg(rq::RAX),
        Insn::Pop(rq::R11),
        Insn::DefineLocal(LocalLabel::PopRest),
        Insn::Pop(rq::R11),
        Insn::Pop(rq::R10),
        Insn::Pop(rq::R9),
        Insn::Pop(rq::R8),
        Insn::Pop(rq::RCX),
        Insn::Pop(rq::RDX),
        Insn::Pop(rq::RSI),
        Insn::Pop(rq::RDI),
    ]
}

impl<'a, M: ModuleContext> Context<'a, M> {
    /// Emits a call that prints a message while the generated code runs. `printer` is the address
    /// of the function that prints, `len` and `ptr` are the length and the address of the text.
    pub fn debug(&mut self, printer: i64, len: i64, ptr: i64)
        ensures
            final(self)@ == old(self)@.emit_all(print_code(printer, len, ptr)),
            final(self).same_function(*old(self)),
            *final(final(self).out) == *final(old(self).out),
    {
        self.emit(Insn::Push(Operand::Gpr(GPR::Rq(rq::RDI))));
        self.emit(Insn::Push(Operand::Gpr(GPR::Rq(rq::RSI))));
        self.emit(Insn::Push(Operand::Gpr(GPR::Rq(rq::RDX))));
        self.emit(Insn::Push(Operand::Gpr(GPR::Rq(rq::RCX))));
        self.emit(Insn::Push(Operand::Gpr(GPR::Rq(rq::R8))));
        self.emit(Insn::Push(Operand::Gpr(GPR::Rq(rq::R9))));
        self.emit(Insn::Push(Operand::Gpr(GPR::Rq(rq::R10))));
        self.emit(Insn::Push(Operand::Gpr(GPR::Rq(rq::R11))));
        self.emit(
            Insn::Mov {
                w: Width::Q,
                dst: Operand::Gpr(GPR::Rq(rq::RAX)),
                src: Operand::Imm(printer),
            },
        );
        self.emit(
            Insn::Mov { w: Width::Q, dst: Operand::Gpr(GPR::Rq(rq::RDI)), src: Operand::Imm(len) },
        );
        self.emit(
            Insn::Mov { w: Width::Q, dst: Operand::Gpr(GPR::Rq(rq::RSI)), src: Operand::Imm(ptr) },
        );
        self.emit(Insn::Test { w: Width::Q, left: rq::RSP, right: Operand::Imm(0b1111) });
        self.emit(Insn::JccLocal { cond: Cond::Ne, label: LocalLabel::WithAdjustedStackPtr });
        self.emit(Insn::CallReg(rq::RAX));
        self.emit(Insn::JmpLocal(LocalLabel::PopRest));
        self.emit(Insn::DefineLocal(LocalLabel::WithAdjustedStackPtr));
        self.emit(Insn::Push(Operand::Imm(1)));
        self.emit(Insn::CallReg(rq::RAX));
        self.emit(Insn::Pop(rq::R11));
        self.emit(Insn::DefineLocal(LocalLabel::PopRest));
        self.emit(Insn::Pop(rq::R11));
        self.emit(Insn::Pop(rq::R10));
        self.emit(Insn::Pop(rq::R9));
        self.emit(Insn::Pop(rq::R8));
        self.emit(Insn::Pop(rq::RCX));
        self.emit(Insn::Pop(rq::RDX));
        self.emit(Insn::Pop(rq::RSI));
        self.emit(Insn::Pop(rq::RDI));
        proof {
            assert(self@.code =~= old(self)@.emit_all(print_code(printer, len, ptr)).code);
        }
    }

    /// Create a new undefined label.
    pub fn create_label(&mut self) -> (label: Label)
        requires
            old(self)@.create_label().0.ok,
        ensures
            (final(self)@, label) == old(self)@.create_label(),
            final(self).same_function(*old(self)),
            *final(final(self).out) == *final(old(self).out),
    {
        self.out.new_label()
    }

    /// Define the given label at the current position.
    ///
    /// Multiple labels can be defined at the same position. However, a label
    /// can be defined only once: those of functions are defined when a function is started, and
    /// shared ones by the epilogue.
    pub fn define_label(&mut self, label: Label)
        requires
            label.id < old(self)@.label_count,
            !old(self)@.code.contains(Insn::DefineLabel(label)),
            is_plain(label, old(self)@.labels, old(self).func_starts@),
        ensures
            final(self)@ == old(self)@.emit(Insn::DefineLabel(label)),
            final(self).same_function(*old(self)),
            *final(final(self).out) == *final(old(self).out),
    {
        self.emit(Insn::DefineLabel(label));
    }

    /// Emits a function that does nothing but to call the function at the address `host_fn`.
    pub fn define_host_fn(&mut self, host_fn: i64)
        ensures
            final(self)@ == old(self)@.emit(
                Insn::Mov { w: Width::Q, dst: Operand::rq(rq::RAX), src: Operand::Imm(host_fn) },
            ).emit(Insn::CallReg(rq::RAX)).emit(Insn::Ret),
            final(self).same_function(*old(self)),
            *final(final(self).out) == *final(old(self).out),
    {
        self.emit(
            Insn::Mov {
                w: Width::Q,
                dst: Operand::Gpr(GPR::Rq(rq::RAX)),
                src: Operand::Imm(host_fn),
            },
        );
        self.emit(Insn::CallReg(rq::RAX));
        self.emit(Insn::Ret);
    }

    #[must_use]
    fn shared_label(&mut self, which: SharedLabel) -> (label: Label)
        requires
            old(self)@.shared_label(which).0.ok,
        ensures
            (final(self)@, label) == old(self)@.shared_label(which),
            final(self).same_function(*old(self)),
            *final(final(self).out) == *final(old(self).out),
    {
        if let Some(l) = self.out.labels.lookup(which) {
            return l.label;
        }
        let label = self.create_label();
        self.out.labels.record(which, PendingLabel::from(label));
        label
    }

    #[must_use]
    pub(crate) fn trap_label(&mut self) -> (label: Label)
        requires
            old(self)@.shared_label(SharedLabel::Trap).0.ok,
        ensures
            (final(self)@, label) == old(self)@.shared_label(SharedLabel::Trap),
            final(self).same_function(*old(self)),
            *final(final(self).out) == *final(old(self).out),
    {
        self.shared_label(SharedLabel::Trap)
    }

    #[must_use]
    pub(crate) fn ret_label(&mut self) -> (label: Label)
        requires
            old(self)@.shared_label(SharedLabel::Ret).0.ok,
        ensures
            (final(self)@, label) == old(self)@.shared_label(SharedLabel::Ret),
            final(self).same_function(*old(self)),
            *final(final(self).out) == *final(old(self).out),
    {
        self.shared_label(SharedLabel::Ret)
    }

    #[must_use]
    pub(crate) fn neg_const_f32_label(&mut self) -> (label: Label)
        requires
            old(self)@.shared_label(SharedLabel::NegF32).0.ok,
        ensures
            (final(self)@, label) == old(self)@.shared_label(SharedLabel::NegF32),
            final(self).same_function(*old(self)),
            *final(final(self).out) == *final(old(self).out),
    {
        self.shared_label(SharedLabel::NegF32)
    }

    #[must_use]
    pub(crate) fn neg_const_f64_label(&mut self) -> (label: Label)
        requires
            old(self)@.shared_label(SharedLabel::NegF64).0.ok,
        ensures
            (final(self)@, label) == old(self)@.shared_label(SharedLabel::NegF64),
            final(self).same_function(*old(self)),
            *final(final(self).out) == *final(old(self).out),
    {
        self.shared_label(SharedLabel::NegF64)
    }

    #[must_use]
    pub(crate) fn abs_const_f32_label(&mut self) -> (label: Label)
        requires
            old(self)@.shared_label(SharedLabel::AbsF32).0.ok,
        ensures
            (final(self)@, label) == old(self)@.shared_label(SharedLabel::AbsF32),
            final(self).same_function(*old(self)),
            *final(final(self).out) == *final(old(self).out),
    {
        self.shared_label(SharedLabel::AbsF32)
    }

    #[must_use]
    pub(crate) fn abs_const_f64_label(&mut self) -> (label: Label)
        requires
            old(self)@.shared_label(SharedLabel::AbsF64).0.ok,
        ensures
            (final(self)@, label) == old(self)@.shared_label(SharedLabel::AbsF64),
            final(self).same_function(*old(self)),
            *final(final(self).out) == *final(old(self).out),
    {
        self.shared_label(SharedLabel::AbsF64)
    }

    fn target_to_label(&mut self, target: BrTarget<Label>) -> (label: Label)
        requires
            old(self)@.target_to_label(target).0.ok,
        ensures
            (final(self)@, label) == old(self)@.target_to_label(target),
            final(self).same_function(*old(self)),
            *final(final(self).out) == *final(old(self).out),
    {
        match target {
            BrTarget::Label(label) => label,
            BrTarget::Return => self.ret_label(),
        }
    }

    fn br_if<F: FnOnce(&mut Self)>(&mut self, target: BrTarget<Label>, pass_args: F, cond: Cond)
        requires
            old(self)@.br_if_start(target).0.ok,
            forall|r: &mut Self|
                r@ == old(self)@.br_if_start(target).0 && r.same_function(*old(self))
                    ==> #[trigger] call_requires(pass_args, (r,)),
            forall|r: &mut Self|
                r@ == old(self)@.br_if_start(target).0 && r.same_function(*old(self))
                    && #[trigger] call_ensures(pass_args, (r,), ()) ==> final(r)@.br_if_end(
                    old(self)@.br_if_start(target).1,
                    old(self)@.br_if_start(target).2,
                    cond,
                ).ok,
        ensures
            exists|r: &mut Self|
                {
                    &&& #[trigger] call_ensures(pass_args, (r,), ())
                    &&& r@ == old(self)@.br_if_start(target).0
                    &&& r.same_function(*old(self))
                    &&& *final(r.out) == *final(old(self).out)
                    &&& final(self)@ == final(r)@.br_if_end(
                        old(self)@.br_if_start(target).1,
                        old(self)@.br_if_start(target).2,
                        cond,
                    )
                    &&& final(self).same_function(*final(r))
                    &&& *final(final(self).out) == *final(final(r).out)
                },
    {
        let val = self.pop();
        let label = self.target_to_label(target);
        pass_args(self);
        let predicate = self.into_reg(Some(GPRType::Rq), val);
        let id: RegId = predicate.rq().unwrap();
        self.emit(Insn::Test { w: Width::D, left: id, right: Operand::Gpr(predicate) });
        self.emit(Insn::Jcc { cond, label });
        self.release(predicate);
    }

    /// Pops i32 predicate and branches to the specified label
    /// if the predicate is equal to zero.
    pub fn br_if_false<F: FnOnce(&mut Self)>(&mut self, target: BrTarget<Label>, pass_args: F)
        requires
            old(self)@.br_if_start(target).0.ok,
            forall|r: &mut Self|
                r@ == old(self)@.br_if_start(target).0 && r.same_function(*old(self))
                    ==> #[trigger] call_requires(pass_args, (r,)),
            forall|r: &mut Self|
                r@ == old(self)@.br_if_start(target).0 && r.same_function(*old(self))
                    && #[trigger] call_ensures(pass_args, (r,), ()) ==> final(r)@.br_if_end(
                    old(self)@.br_if_start(target).1,
                    old(self)@.br_if_start(target).2,
                    Cond::E,
                ).ok,
        ensures
            exists|r: &mut Self|
                {
                    &&& #[trigger] call_ensures(pass_args, (r,), ())
                    &&& r@ == old(self)@.br_if_start(target).0
                    &&& r.same_function(*old(self))
                    &&& *final(r.out) == *final(old(self).out)
                    &&& final(self)@ == final(r)@.br_if_end(
                        old(self)@.br_if_start(target).1,
                        old(self)@.br_if_start(target).2,
                        Cond::E,
                    )
                    &&& final(self).same_function(*final(r))
                    &&& *final(final(self).out) == *final(final(r).out)
                },
    {
        self.br_if(target, pass_args, Cond::E);
    }

    /// Pops i32 predicate and branches to the specified label
    /// if the predicate is not equal to zero.
    pub fn br_if_true<F: FnOnce(&mut Self)>(&mut self, target: BrTarget<Label>, pass_args: F)
        requires
            old(self)@.br_if_start(target).0.ok,
            forall|r: &mut Self|
                r@ == old(self)@.br_if_start(target).0 && r.same_function(*old(self))
                    ==> #[trigger] call_requires(pass_args, (r,)),
            forall|r: &mut Self|
                r@ == old(self)@.br_if_start(target).0 && r.same_function(*old(self))
                    && #[trigger] call_ensures(pass_args, (r,), ()) ==> final(r)@.br_if_end(
                    old(self)@.br_if_start(target).1,
                    old(self)@.br_if_start(target).2,
                    Cond::Ne,
                ).ok,
        ensures
            exists|r: &mut Self|
                {
                    &&& #[trigger] call_ensures(pass_args, (r,), ())
                    &&& r@ == old(self)@.br_if_start(target).0
                    &&& r.same_function(*old(self))
                    &&& *final(r.out) == *final(old(self).out)
                    &&& final(self)@ == final(r)@.br_if_end(
                        old(self)@.br_if_start(target).1,
                        old(self)@.br_if_start(target).2,
                        Cond::Ne,
                    )
                    &&& final(self).same_function(*final(r))
                    &&& *final(final(self).out) == *final(final(r).out)
                },
    {
        self.br_if(target, pass_args, Cond::Ne);
    }

    /// Branch unconditionally to the specified label.
    pub fn br(&mut self, target: BrTarget<Label>)
        ensures
            final(self)@ == old(self)@.br(target),
            final(self).same_function(*old(self)),
            *final(final(self).out) == *final(old(self).out),
    {
        match target {
            BrTarget::Return => {
                self.ret();
            },
            BrTarget::Label(label) => {
                self.emit(Insn::Jmp(label));
            },
        }
    }

    fn br_default(&mut self, default: Option<BrTarget<Label>>)
        ensures
            final(self)@ == old(self)@.br_default(default),
            final(self).same_function(*old(self)),
            *final(final(self).out) == *final(old(self).out),
    {
        if let Some(target) = default {
            self.br(target);
        }
    }

    fn jump_table(&mut self, selector: RegId, targets: &[BrTarget<Label>])
        requires
            old(self)@.jump_table(selector, targets@).ok,
        ensures
            final(self)@ == old(self)@.jump_table(selector, targets@),
            final(self).same_function(*old(self)),
            *final(final(self).out) == *final(old(self).out),
    {
        let count: usize = targets.len();
        proof {
            lemma_jumps_ok(self@.enter_table(selector, count), targets@, 0);
            assert(targets@.take(0) =~= Seq::empty());
        }
        let tmp = self.take(GPRType::Rq);
        let tmp_id: RegId = tmp.rq().unwrap();
        self.immediate_to_reg(tmp, Value::I32(count as u32 as i32));
        let sel = Operand::Gpr(GPR::Rq(selector));
        self.emit(Insn::Cmp { w: Width::Q, left: sel, right: Operand::Gpr(tmp) });
        self.emit(Insn::Cmov { cond: Cond::A, dst: selector, src: Operand::Gpr(tmp) });
        self.emit(Insn::LeaLocal { dst: tmp_id, label: LocalLabel::Start });
        self.emit(Insn::LeaTimes5 { dst: selector });
        self.emit(
            Insn::Alu { op: AluOp::Add, w: Width::Q, dst: selector, src: Operand::Gpr(tmp) },
        );
        self.emit(Insn::JmpReg(selector));
        self.emit(Insn::DefineLocal(LocalLabel::Start));
        self.release(tmp);
        let ghost t = self@;
        let mut i: usize = 0;
        while i < count
            invariant
                i <= count,
                count == targets@.len(),
                t.jumps(targets@).ok,
                self@ == t.jumps(targets@.take(i as int)),
                self.same_function(*old(self)),
                *final(self.out) == *final(old(self).out),
            decreases count - i,
        {
            proof {
                lemma_jumps_ok(t, targets@, i + 1);
                assert(targets@.take(i + 1).drop_last() =~= targets@.take(i as int));
            }
            let label = self.target_to_label(targets[i]);
            self.emit(Insn::Jmp(label));
            i = i + 1;
        }
        proof {
            assert(targets@.take(i as int) =~= targets@);
        }
    }

    /// If `default` is `None` then the default is just continuing execution
    pub fn br_table<F: FnOnce(&mut Self)>(
        &mut self,
        targets: &[BrTarget<Label>],
        default: Option<BrTarget<Label>>,
        pass_args: F,
    )
        requires
            old(self)@.pop().0.ok,
            forall|r: &mut Self|
                r@ == old(self)@.pop().0 && r.same_function(*old(self))
                    ==> #[trigger] call_requires(pass_args, (r,)),
            forall|r: &mut Self|
                r@ == old(self)@.pop().0 && r.same_function(*old(self)) && #[trigger] call_ensures(
                    pass_args,
                    (r,),
                    (),
                ) ==> final(r)@.br_table_end(old(self)@.pop().1, targets@, default).ok,
        ensures
            exists|r: &mut Self|
                {
                    &&& #[trigger] call_ensures(pass_args, (r,), ())
                    &&& r@ == old(self)@.pop().0
                    &&& r.same_function(*old(self))
                    &&& *final(r.out) == *final(old(self).out)
                    &&& final(self)@ == final(r)@.br_table_end(
                        old(self)@.pop().1,
                        targets@,
                        default,
                    )
                    &&& final(self).same_function(*final(r))
                    &&& *final(final(self).out) == *final(final(r).out)
                },
    {
        let selector = self.pop();
        pass_args(self);
        self.br_table_end(selector, targets, default);
    }

    fn br_table_end(
        &mut self,
        selector: ValueLocation,
        targets: &[BrTarget<Label>],
        default: Option<BrTarget<Label>>,
    )
        requires
            old(self)@.br_table_end(selector, targets@, default).ok,
        ensures
            final(self)@ == old(self)@.br_table_end(selector, targets@, default),
            final(self).same_function(*old(self)),
            *final(final(self).out) == *final(old(self).out),
    {
        let count: usize = targets.len();
        if let Some(imm) = selector.imm_i32() {
            if imm >= 0 && (imm as usize) < count {
                self.br(targets[imm as usize]);
            } else {
                self.br_default(default);
            }
        } else if count > 0 {
            proof {
                let (s, reg) = self@.into_temp_reg(Some(GPRType::Rq), selector);
                lemma_jumps_ok(s.enter_table(reg.id(), count), targets@, 0);
                assert(targets@.take(0) =~= Seq::empty());
            }
            let reg = self.into_temp_reg(Some(GPRType::Rq), selector);
            let id: RegId = reg.rq().unwrap();
            self.jump_table(id, targets);
            self.br_default(default);
            self.release(reg);
        } else {
            self.br_default(default);
            self.free_value(selector);
        }
    }

    /// Returns from the function.
    pub fn ret(&mut self)
        ensures
            final(self)@ == old(self)@.emit(Insn::Ret),
            final(self).same_function(*old(self)),
            *final(final(self).out) == *final(old(self).out),
    {
        self.emit(Insn::Ret);
    }

    /// Traps.
    pub fn trap(&mut self)
        ensures
            final(self)@ == old(self)@.emit(Insn::Ud2),
            final(self).same_function(*old(self)),
            *final(final(self).out) == *final(old(self).out),
    {
        self.emit(Insn::Ud2);
    }

    fn align(&mut self, align_to: u32)
        ensures
            final(self)@ == old(self)@.emit(Insn::Align(align_to)),
            final(self).same_function(*old(self)),
            *final(final(self).out) == *final(old(self).out),
    {
        self.emit(Insn::Align(align_to));
    }

    fn define_shared(&mut self, which: SharedLabel)
        ensures
            final(self)@ == old(self)@.define_shared(which),
            final(self).same_function(*old(self)),
            *final(final(self).out) == *final(old(self).out),
    {
        let undefined = match self.out.labels.lookup(which) {
            Some(pending) => pending.as_undefined(),
            None => None,
        };
        if let Some(l) = undefined {
            match which {
                SharedLabel::Trap | SharedLabel::Ret => {},
                _ => {
                    self.align(16);
                },
            }
            self.emit(Insn::DefineLabel(l));
            let ghost before = self@;
            match which {
                SharedLabel::Trap => {
                    self.emit(Insn::Ud2);
                },
                SharedLabel::Ret => {
                    self.emit(Insn::Ret);
                },
                SharedLabel::NegF32 => {
                    self.emit(Insn::Dword(i32::MIN));
                    self.emit(Insn::Dword(0));
                    self.emit(Insn::Dword(0));
                    self.emit(Insn::Dword(0));
                },
                SharedLabel::NegF64 => {
                    self.emit(Insn::Dword(0));
                    self.emit(Insn::Dword(i32::MIN));
                    self.emit(Insn::Dword(0));
                    self.emit(Insn::Dword(0));
                },
                SharedLabel::AbsF32 => {
                    self.emit(Insn::Dword(i32::MAX));
                    self.emit(Insn::Dword(i32::MAX));
                    self.emit(Insn::Dword(i32::MAX));
                    self.emit(Insn::Dword(i32::MAX));
                },
                SharedLabel::AbsF64 => {
                    self.emit(Insn::Qword(i64::MAX));
                    self.emit(Insn::Qword(i64::MAX));
                },
            }
            proof {
                assert(self@ =~= before.emit_all(shared_code(which)));
            }
            self.out.labels.record(which, PendingLabel::defined(l));
        }
    }

    /// Writes the function epilogue: the trap label that the conditional traps in
    /// `call_indirect` use, the return, and the constants.
    pub fn epilogue(&mut self)
        ensures
            final(self)@ == old(self)@.epilogue(),
            final(self).same_function(*old(self)),
            *final(final(self).out) == *final(old(self).out),
    {
        self.define_shared(SharedLabel::Trap);
        self.define_shared(SharedLabel::Ret);
        self.define_shared(SharedLabel::NegF32);
        self.define_shared(SharedLabel::NegF64);
        self.define_shared(SharedLabel::AbsF32);
        self.define_shared(SharedLabel::AbsF64);
    }
}

} // verus!
