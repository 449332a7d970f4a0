//! Calls of other functions.

use vstd::prelude::*;

use cranelift_codegen::ir;

use crate::assembly::{Label, Reloc};
use crate::blocks::{as_values, lemma_mark_all_ok, lemma_save_regs_ok, SaveSet};
use crate::branches::SharedLabel;
use crate::context::{stack_slot, Context};
use crate::insn::{Cond, Insn, Mem, Operand, Width};
use crate::location::{
    arg_locs, arg_locs_of, passable_args, passable_rets, ret_locs, ret_locs_of, CCLoc, StackDepth,
    ValueLocation, VMCTX, WORD_SIZE,
};
use crate::magic::{
    get_memory32_grow_name, get_memory32_size_name, is_user_name, user_external_name,
};
use crate::microwasm::{SignlessType, Value};
use crate::module_context::ModuleContext;
use crate::registers::{GPRType, RegId, GPR};
use crate::state::State;

verus! {

/// A value that still has to be moved, and where to.
pub type Move = (ValueLocation, ValueLocation);

/// How many words of the machine's stack arguments in `locs` take: one more than the highest
/// number of a slot.
pub open spec fn stack_space(locs: Seq<CCLoc>) -> u32
    decreases locs.len(),
{
    if locs.len() == 0 {
        0
    } else {
        let rest = stack_space(locs.drop_last());
        match locs.last() {
            CCLoc::Stack(offset) => if offset >= rest {
                (offset + 1) as u32
            } else {
                rest
            },
            CCLoc::Reg(_) => rest,
        }
    }
}

/// What is put in place of an address that is not known yet.
pub const UNKNOWN_ADDRESS: u64 = 0xdeadbeefdeadbeef;

/// The code that calls element number `callee` of the table, after a check that there is such an
/// element and that it has the signature `type_id`.
pub open spec fn call_indirect_code<M: ModuleContext>(
    module: M,
    type_id: u32,
    callee: RegId,
    temp0: RegId,
    temp1: RegId,
    fail: Label,
) -> Seq<Insn> {
    seq![
        Insn::Cmp {
            w: Width::D,
            left: Operand::rq(callee),
            right: Operand::at(
                VMCTX,
                module.spec_vmctx_vmtable_definition_current_elements(0) as i32,
            ),
        },
        Insn::Jcc { cond: Cond::Ae, label: fail },
        Insn::ImulImm {
            w: Width::D,
            dst: callee,
            src: callee,
            imm: module.spec_size_of_vmcaller_checked_anyfunc() as i32,
        },
        Insn::Mov {
            w: Width::Q,
            dst: Operand::rq(temp0),
            src: Operand::at(VMCTX, module.spec_vmctx_vmtable_definition_base(0) as i32),
        },
        Insn::Mov {
            w: Width::D,
            dst: Operand::rq(temp1),
            src: Operand::at(VMCTX, module.spec_vmctx_vmshared_signature_id(type_id) as i32),
        },
        Insn::Cmp {
            w: Width::D,
            left: Operand::Mem(
                Mem {
                    base: temp0,
                    index: Some(callee),
                    disp: module.spec_vmcaller_checked_anyfunc_type_index() as i32,
                },
            ),
            right: Operand::rq(temp1),
        },
        Insn::Jcc { cond: Cond::Ne, label: fail },
        Insn::CallMem(
            Mem {
                base: temp0,
                index: Some(callee),
                disp: module.spec_vmcaller_checked_anyfunc_func_ptr() as i32,
            },
        ),
    ]
}

impl State {
    /// Gives back the registers of all of `vals`, from the first to the last.
    pub open spec fn release_all(self, vals: Seq<ValueLocation>) -> State
        decreases vals.len(),
    {
        if vals.len() == 0 {
            self
        } else {
            self.release_all(vals.drop_last()).free_value(vals.last())
        }
    }

    /// Saves volatile (i.e. caller-saved) registers before a function call, if values other than
    /// the top `args` ones are in them.
    pub open spec fn save_volatile(self, args: nat) -> State {
        self.need(args <= self.stack.len()).save_regs(
            SaveSet::Volatile,
            0,
            self.stack.len() - args,
        )
    }

    /// Passes the top of the stack in `loc`, where the machine's stack will be `depth` words deep
    /// at the call. A move to a register that is still in use is put off. The register of a
    /// parameter that has its value is in use until all arguments are passed.
    pub open spec fn pass_outgoing(self, loc: CCLoc, depth: u32, pending: Seq<Move>) -> (
        State,
        Seq<Move>,
    ) {
        let (s, val) = self.pop();
        match loc {
            CCLoc::Stack(offset) => {
                let from_top = offset - depth as i32;
                let s = s.need(i32::MIN <= from_top <= i32::MAX && s.has_slot(from_top as i32));
                if s.slot_disp(from_top as i32) == -8 {
                    (s.push_physical(val).0, pending)
                } else {
                    let (t, gpr) = s.into_reg(Some(GPRType::Rq), val);
                    (
                        t.emit(
                            Insn::Mov {
                                w: Width::Q,
                                dst: s.slot(from_top as i32),
                                src: Operand::rq(gpr.id()),
                            },
                        ).release(gpr),
                        pending,
                    )
                }
            },
            CCLoc::Reg(r) => {
                if val == ValueLocation::Reg(r) {
                    (s, pending)
                } else {
                    let s = s.need(r.valid());
                    if s.regs.is_free(r) {
                        (s.copy_value(val, loc.as_value()).free_value(val).mark_used(r), pending)
                    } else {
                        (s, pending.push((val, loc.as_value())))
                    }
                }
            },
        }
    }

    /// Does so for all of `locs`, from the last to the first.
    pub open spec fn pass_all_outgoing(self, locs: Seq<CCLoc>, depth: u32, pending: Seq<Move>) -> (
        State,
        Seq<Move>,
    )
        decreases locs.len(),
    {
        if locs.len() == 0 {
            (self, pending)
        } else {
            let (s, pending) = self.pass_outgoing(locs.last(), depth, pending);
            s.pass_all_outgoing(locs.drop_last(), depth, pending)
        }
    }

    /// Makes a move, unless its destination is in use.
    pub open spec fn try_move(self, m: Move, kept: Seq<Move>) -> (State, Seq<Move>) {
        let blocked = match m.1 {
            ValueLocation::Reg(r) => !self.regs.is_free(r),
            _ => false,
        };
        let s = match m.1 {
            ValueLocation::Reg(r) => self.need(r.valid()),
            _ => self,
        };
        if blocked {
            (s, kept.push(m))
        } else {
            (s.copy_value(m.0, m.1).free_value(m.0).mark_value(m.1), kept)
        }
    }

    /// Tries each of `moves` once, in order.
    pub open spec fn try_moves(self, moves: Seq<Move>, kept: Seq<Move>) -> (State, Seq<Move>)
        decreases moves.len(),
    {
        if moves.len() == 0 {
            (self, kept)
        } else {
            let (s, kept) = self.try_move(moves.first(), kept);
            s.try_moves(moves.drop_first(), kept)
        }
    }

    /// Makes all of `moves`, in at most `tries` rounds.
    pub open spec fn make_moves(self, moves: Seq<Move>, tries: nat) -> State
        decreases tries,
    {
        if moves.len() == 0 {
            self
        } else if tries == 0 {
            self.need(false)
        } else {
            let (s, kept) = self.try_moves(moves, Seq::empty());
            s.make_moves(kept, (tries - 1) as nat)
        }
    }

    /// Writes the arguments to the callee to the registers and the stack using the SystemV
    /// calling convention. Cycles among the registers are not resolved.
    pub open spec fn pass_outgoing_args(self, locs: Seq<CCLoc>) -> State {
        let s = self.save_volatile(locs.len());
        let depth = (s.depth + stack_space(locs)) as u32;
        let s = s.need(s.depth + stack_space(locs) <= u32::MAX);
        let (s, pending) = s.pass_all_outgoing(locs, depth, Seq::empty());
        s.make_moves(pending, 9).set_stack_depth(depth).release_all(as_values(locs))
    }

    /// Pushes the results of a call.
    pub open spec fn push_returns(self, locs: Seq<CCLoc>) -> State
        decreases locs.len(),
    {
        if locs.len() == 0 {
            self
        } else {
            let val = locs.last().as_value();
            self.push_returns(locs.drop_last()).mark_value(val).push(val)
        }
    }

    pub open spec fn call_direct(self, label: Label, args: Seq<CCLoc>, rets: Seq<CCLoc>) -> State {
        self.pass_outgoing_args(args).emit(Insn::Call(label)).push_returns(rets)
    }

    /// The first part of an indirect call: the number of the callee is put into a register that
    /// is not needed for an argument.
    pub open spec fn call_indirect_start(self, args: Seq<CCLoc>) -> (State, GPR, GPR, GPR) {
        let (s, val) = self.mark_all(as_values(args)).pop();
        let (s, callee) = s.into_temp_reg(Some(GPRType::Rq), val);
        let (s, temp0) = s.take(GPRType::Rq);
        let (s, temp1) = s.take(GPRType::Rq);
        (s.release_all(as_values(args)), callee, temp0, temp1)
    }

    pub open spec fn call_indirect<M: ModuleContext>(
        self,
        module: M,
        type_id: u32,
        args: Seq<CCLoc>,
        rets: Seq<CCLoc>,
    ) -> State {
        let (s, callee, temp0, temp1) = self.call_indirect_start(args);
        let (s, fail) = s.pass_outgoing_args(args).shared_label(SharedLabel::Trap);
        s.emit_all(
            call_indirect_code(module, type_id, callee.id(), temp0.id(), temp1.id(), fail),
        ).release(temp0).release(temp1).release(callee).push_returns(rets)
    }

    /// A call of a function whose address is not known yet.
    pub open spec fn call_unknown(self, args: Seq<CCLoc>, rets: Seq<CCLoc>) -> State {
        let (s, temp) = self.pass_outgoing_args(args).take(GPRType::Rq);
        s.emit(
            Insn::Mov {
                w: Width::Q,
                dst: Operand::rq(temp.id()),
                src: Operand::Imm(UNKNOWN_ADDRESS as i64),
            },
        ).emit(Insn::CallReg(temp.id())).release(temp).push_returns(rets)
    }

    /// Such a call, and the record of where the address of the function `name` has to be filled
    /// in.
    pub open spec fn call_relocated(
        self,
        function: u32,
        name: ir::ExternalName,
        args: Seq<CCLoc>,
        rets: Seq<CCLoc>,
    ) -> State {
        let s = self.call_unknown(args, rets);
        let at = self.pass_outgoing_args(args).code.len() as usize;
        State { relocs: s.relocs.push(Reloc { at, function, name }), ..s }
    }
}

/// The parameters of the function that tells the size of the memory: the number of the memory.
pub open spec fn memory_size_args() -> Seq<CCLoc> {
    arg_locs_of(seq![SignlessType::I32])
}

/// The parameters of the function that grows the memory: by how much, and the number of the
/// memory.
pub open spec fn memory_grow_args() -> Seq<CCLoc> {
    arg_locs_of(seq![SignlessType::I32, SignlessType::I32])
}

/// The result of both.
pub open spec fn memory_rets() -> Seq<CCLoc> {
    ret_locs_of(seq![SignlessType::I32])
}

pub proof fn lemma_release_all_ok(s: State, vals: Seq<ValueLocation>, n: int)
    requires
        0 <= n <= vals.len(),
    ensures
        s.release_all(vals).ok ==> s.release_all(vals.take(n)).ok,
    decreases vals.len(),
{
    if n < vals.len() {
        lemma_release_all_ok(s, vals.drop_last(), n);
        assert(vals.drop_last().take(n) =~= vals.take(n));
    } else {
        assert(vals.take(n) =~= vals);
    }
}

pub proof fn lemma_pass_outgoing_ok(s: State, loc: CCLoc, depth: u32, pending: Seq<Move>)
    ensures
        s.pass_outgoing(loc, depth, pending).0.ok ==> s.ok,
{
}

pub proof fn lemma_pass_all_outgoing_ok(s: State, locs: Seq<CCLoc>, depth: u32, pending: Seq<Move>)
    ensures
        s.pass_all_outgoing(locs, depth, pending).0.ok ==> s.ok,
    decreases locs.len(),
{
    if locs.len() > 0 {
        let (t, p) = s.pass_outgoing(locs.last(), depth, pending);
        lemma_pass_outgoing_ok(s, locs.last(), depth, pending);
        lemma_pass_all_outgoing_ok(t, locs.drop_last(), depth, p);
    }
}

pub proof fn lemma_try_move_ok(s: State, m: Move, kept: Seq<Move>)
    ensures
        s.try_move(m, kept).0.ok ==> s.ok,
{
}

pub proof fn lemma_try_moves_ok(s: State, moves: Seq<Move>, kept: Seq<Move>)
    ensures
        s.try_moves(moves, kept).0.ok ==> s.ok,
    decreases moves.len(),
{
    if moves.len() > 0 {
        let (t, k) = s.try_move(moves.first(), kept);
        lemma_try_move_ok(s, moves.first(), kept);
        lemma_try_moves_ok(t, moves.drop_first(), k);
    }
}

pub proof fn lemma_make_moves_ok(s: State, moves: Seq<Move>, tries: nat)
    ensures
        s.make_moves(moves, tries).ok ==> s.ok,
    decreases tries,
{
    if moves.len() > 0 && tries > 0 {
        let (t, k) = s.try_moves(moves, Seq::empty());
        lemma_try_moves_ok(s, moves, Seq::empty());
        lemma_make_moves_ok(t, k, (tries - 1) as nat);
    }
}

pub proof fn lemma_pass_outgoing_args_ok(s: State, locs: Seq<CCLoc>)
    ensures
        s.pass_outgoing_args(locs).ok ==> s.ok,
{
    let n = locs.len();
    let s1 = s.save_volatile(n);
    let depth = (s1.depth + stack_space(locs)) as u32;
    let s2 = s1.need(s1.depth + stack_space(locs) <= u32::MAX);
    let (s3, pending) = s2.pass_all_outgoing(locs, depth, Seq::empty());
    lemma_release_all_ok(s3.make_moves(pending, 9).set_stack_depth(depth), as_values(locs), 0);
    assert(as_values(locs).take(0) =~= Seq::empty());
    lemma_make_moves_ok(s3, pending, 9);
    lemma_pass_all_outgoing_ok(s2, locs, depth, Seq::empty());
    lemma_save_regs_ok(s.need(n <= s.stack.len()), SaveSet::Volatile, 0, s.stack.len() - n);
}

pub proof fn lemma_push_returns_ok(s: State, locs: Seq<CCLoc>, n: int)
    requires
        0 <= n <= locs.len(),
    ensures
        s.push_returns(locs).ok ==> s.push_returns(locs.take(n)).ok,
    decreases locs.len(),
{
    if n < locs.len() {
        lemma_push_returns_ok(s, locs.drop_last(), n);
        assert(locs.drop_last().take(n) =~= locs.take(n));
    } else {
        assert(locs.take(n) =~= locs);
    }
}

fn stack_space_of(locs: &Vec<CCLoc>) -> (space: u32)
    ensures
        space == stack_space(locs@),
{
    let mut space: u32 = 0;
    let mut i: usize = 0;
    while i < locs.len()
        invariant
            i <= locs.len(),
            space == stack_space(locs@.take(i as int)),
        decreases locs.len() - i,
    {
        proof {
            assert(locs@.take(i + 1).drop_last() =~= locs@.take(i as int));
        }
        if let CCLoc::Stack(offset) = locs[i] {
            if offset >= 0 && offset as u32 >= space {
                space = offset as u32 + 1;
            }
        }
        i = i + 1;
    }
    proof {
        assert(locs@.take(i as int) =~= locs@);
    }
    space
}

impl<'a, M: ModuleContext> Context<'a, M> {
    /// Saves volatile (i.e. caller-saved) registers before a function call, if they are used.
    fn save_volatile(&mut self, args: usize)
        requires
            old(self)@.save_volatile(args as nat).ok,
        ensures
            final(self)@ == old(self)@.save_volatile(args as nat),
            final(self).same_function(*old(self)),
            *final(final(self).out) == *final(old(self).out),
    {
        proof {
            lemma_save_regs_ok(
                self@.need(args <= self@.stack.len()),
                SaveSet::Volatile,
                0,
                self@.stack.len() - args,
            );
        }
        let end: usize = self.block_state.stack.len() - args;
        self.save_regs(SaveSet::Volatile, 0, end);
    }

    fn pass_outgoing(&mut self, loc: CCLoc, depth: u32, pending: &mut Vec<Move>)
        requires
            old(self)@.pass_outgoing(loc, depth, old(pending)@).0.ok,
        ensures
            (final(self)@, final(pending)@) == old(self)@.pass_outgoing(loc, depth, old(pending)@),
            final(self).same_function(*old(self)),
            *final(final(self).out) == *final(old(self).out),
    {
        let val = self.pop();
        match loc {
            CCLoc::Stack(offset) => {
                let offset: i32 = self.adjusted_offset(offset - depth as i32);
                if offset == -(WORD_SIZE as i32) {
                    self.push_physical(val);
                } else {
                    let gpr = self.into_reg(Some(GPRType::Rq), val);
                    self.emit(
                        Insn::Mov {
                            w: Width::Q,
                            dst: stack_slot(offset),
                            src: Operand::Gpr(gpr),
                        },
                    );
                    self.release(gpr);
                }
            },
            CCLoc::Reg(r) => {
                if val != ValueLocation::Reg(r) {
                    if self.block_state.regs.is_free(r) {
                        self.copy_value(val, ValueLocation::from(loc));
                        self.free_value(val);
                        self.mark_used(r);
                    } else {
                        pending.push((val, ValueLocation::from(loc)));
                    }
                }
            },
        }
    }

    fn try_move(&mut self, m: Move, kept: &mut Vec<Move>)
        requires
            old(self)@.try_move(m, old(kept)@).0.ok,
        ensures
            (final(self)@, final(kept)@) == old(self)@.try_move(m, old(kept)@),
            final(self).same_function(*old(self)),
            *final(final(self).out) == *final(old(self).out),
    {
        let (src, dst) = m;
        if let ValueLocation::Reg(r) = dst {
            if !self.block_state.regs.is_free(r) {
                kept.push((src, dst));
                return;
            }
        }
        self.copy_value(src, dst);
        self.free_value(src);
        if let ValueLocation::Reg(r) = dst {
            self.mark_used(r);
        }
    }

    fn make_moves(&mut self, moves: Vec<Move>)
        requires
            old(self)@.make_moves(moves@, 9).ok,
        ensures
            final(self)@ == old(self)@.make_moves(moves@, 9),
            final(self).same_function(*old(self)),
            *final(final(self).out) == *final(old(self).out),
    {
        let ghost goal = self@.make_moves(moves@, 9);
        let mut pending: Vec<Move> = moves;
        let mut tries: u32 = 9;
        while pending.len() > 0
            invariant
                goal.ok,
                tries <= 9,
                self@.make_moves(pending@, tries as nat) == goal,
                self.same_function(*old(self)),
                *final(self.out) == *final(old(self).out),
            decreases tries,
        {
            let ghost round = self@.try_moves(pending@, Seq::empty());
            proof {
                if tries > 0 {
                    lemma_make_moves_ok(round.0, round.1, (tries - 1) as nat);
                }
            }
            tries = tries - 1;
            let mut kept: Vec<Move> = Vec::new();
            let mut i: usize = 0;
            proof {
                assert(pending@.skip(0) =~= pending@);
            }
            while i < pending.len()
                invariant
                    i <= pending.len(),
                    round.0.ok,
                    self@.try_moves(pending@.skip(i as int), kept@) == round,
                    self.same_function(*old(self)),
                    *final(self.out) == *final(old(self).out),
                decreases pending.len() - i,
            {
                let ghost rest = pending@.skip(i as int);
                proof {
                    assert(rest.first() == pending@[i as int]);
                    assert(rest.drop_first() =~= pending@.skip(i + 1));
                    let (t, k) = self@.try_move(rest.first(), kept@);
                    lemma_try_moves_ok(t, rest.drop_first(), k);
                }
                self.try_move(pending[i], &mut kept);
                i = i + 1;
            }
            pending = kept;
        }
    }

    /// Write the arguments to the callee to the registers and the stack using the SystemV
    /// calling convention.
    pub(crate) fn pass_outgoing_args(&mut self, out_locs: &Vec<CCLoc>)
        requires
            old(self)@.pass_outgoing_args(out_locs@).ok,
        ensures
            final(self)@ == old(self)@.pass_outgoing_args(out_locs@),
            final(self).same_function(*old(self)),
            *final(final(self).out) == *final(old(self).out),
    {
        let ghost locs = out_locs@;
        let ghost s1 = self@.save_volatile(locs.len());
        let ghost end_depth = (s1.depth + stack_space(locs)) as u32;
        let ghost s2 = s1.need(s1.depth + stack_space(locs) <= u32::MAX);
        let ghost passed = s2.pass_all_outgoing(locs, end_depth, Seq::empty());
        proof {
            let moved = passed.0.make_moves(passed.1, 9).set_stack_depth(end_depth);
            lemma_release_all_ok(moved, as_values(locs), 0);
            assert(as_values(locs).take(0) =~= Seq::empty());
            lemma_make_moves_ok(passed.0, passed.1, 9);
            lemma_pass_all_outgoing_ok(s2, locs, end_depth, Seq::empty());
        }
        self.save_volatile(out_locs.len());
        let total_stack_space: u32 = stack_space_of(out_locs);
        let depth: u32 = self.block_state.depth.0 + total_stack_space;
        let mut pending: Vec<Move> = Vec::new();
        let mut i: usize = out_locs.len();
        proof {
            assert(locs.take(i as int) =~= locs);
        }
        while i > 0
            invariant
                i <= locs.len(),
                locs == out_locs@,
                passed.0.ok,
                self@.pass_all_outgoing(locs.take(i as int), depth, pending@) == passed,
                self.same_function(*old(self)),
                *final(self.out) == *final(old(self).out),
            decreases i,
        {
            let ghost rest = locs.take(i as int);
            i = i - 1;
            let loc = out_locs[i];
            proof {
                assert(rest.last() == loc);
                assert(rest.drop_last() =~= locs.take(i as int));
                let (t, p) = self@.pass_outgoing(loc, depth, pending@);
                lemma_pass_all_outgoing_ok(t, locs.take(i as int), depth, p);
            }
            self.pass_outgoing(loc, depth, &mut pending);
        }
        self.make_moves(pending);
        self.set_stack_depth(StackDepth(depth));
        self.release_locs(out_locs);
    }

    fn push_returns(&mut self, locs: &Vec<CCLoc>)
        requires
            old(self)@.push_returns(locs@).ok,
        ensures
            final(self)@ == old(self)@.push_returns(locs@),
            final(self).same_function(*old(self)),
            *final(final(self).out) == *final(old(self).out),
    {
        let ghost start = self@;
        let mut i: usize = 0;
        while i < locs.len()
            invariant
                i <= locs.len(),
                start.push_returns(locs@).ok,
                self@ == start.push_returns(locs@.take(i as int)),
                self.same_function(*old(self)),
                *final(self.out) == *final(old(self).out),
            decreases locs.len() - i,
        {
            proof {
                lemma_push_returns_ok(start, locs@, i + 1);
                assert(locs@.take(i + 1).drop_last() =~= locs@.take(i as int));
            }
            let loc = locs[i];
            if let CCLoc::Reg(reg) = loc {
                self.mark_used(reg);
            }
            self.push(ValueLocation::from(loc));
            i = i + 1;
        }
        proof {
            assert(locs@.take(i as int) =~= locs@);
        }
    }

    fn push_function_returns(&mut self, ret_types: &[SignlessType])
        requires
            passable_rets(ret_types@),
            old(self)@.push_returns(ret_locs_of(ret_types@)).ok,
        ensures
            final(self)@ == old(self)@.push_returns(ret_locs_of(ret_types@)),
            final(self).same_function(*old(self)),
            *final(final(self).out) == *final(old(self).out),
    {
        let locs = ret_locs(ret_types);
        self.push_returns(&locs);
    }

    fn mark_locs(&mut self, locs: &Vec<CCLoc>)
        requires
            old(self)@.mark_all(as_values(locs@)).ok,
        ensures
            final(self)@ == old(self)@.mark_all(as_values(locs@)),
            final(self).same_function(*old(self)),
            *final(final(self).out) == *final(old(self).out),
    {
        let ghost start = self@;
        let ghost vals = as_values(locs@);
        let mut i: usize = 0;
        while i < locs.len()
            invariant
                i <= locs.len(),
                vals == as_values(locs@),
                start.mark_all(vals).ok,
                self@ == start.mark_all(vals.take(i as int)),
                self.same_function(*old(self)),
                *final(self.out) == *final(old(self).out),
            decreases locs.len() - i,
        {
            proof {
                lemma_mark_all_ok(start, vals, i + 1);
                assert(vals.take(i + 1).drop_last() =~= vals.take(i as int));
            }
            if let CCLoc::Reg(r) = locs[i] {
                self.mark_used(r);
            }
            i = i + 1;
        }
        proof {
            assert(vals.take(i as int) =~= vals);
        }
    }

    fn release_locs(&mut self, locs: &Vec<CCLoc>)
        requires
            old(self)@.release_all(as_values(locs@)).ok,
        ensures
            final(self)@ == old(self)@.release_all(as_values(locs@)),
            final(self).same_function(*old(self)),
            *final(final(self).out) == *final(old(self).out),
    {
        let ghost start = self@;
        let ghost vals = as_values(locs@);
        let mut i: usize = 0;
        while i < locs.len()
            invariant
                i <= locs.len(),
                vals == as_values(locs@),
                start.release_all(vals).ok,
                self@ == start.release_all(vals.take(i as int)),
                self.same_function(*old(self)),
                *final(self.out) == *final(old(self).out),
            decreases locs.len() - i,
        {
            proof {
                lemma_release_all_ok(start, vals, i + 1);
                assert(vals.take(i + 1).drop_last() =~= vals.take(i as int));
            }
            if let CCLoc::Reg(r) = locs[i] {
                self.release(r);
            }
            i = i + 1;
        }
        proof {
            assert(vals.take(i as int) =~= vals);
        }
    }

    fn call_indirect_start(&mut self, locs: &Vec<CCLoc>) -> (regs: (GPR, GPR, GPR))
        requires
            old(self)@.call_indirect_start(locs@).0.ok,
        ensures
            (final(self)@, regs.0, regs.1, regs.2) == old(self)@.call_indirect_start(locs@),
            regs.0 is Rq,
            regs.1 is Rq,
            regs.2 is Rq,
            final(self).same_function(*old(self)),
            *final(final(self).out) == *final(old(self).out),
    {
        let ghost vals = as_values(locs@);
        proof {
            let s0 = self@.mark_all(vals);
            let (s1, val) = s0.pop();
            let (s2, callee) = s1.into_temp_reg(Some(GPRType::Rq), val);
            let (s3, temp0) = s2.take(GPRType::Rq);
            let (s4, temp1) = s3.take(GPRType::Rq);
            lemma_release_all_ok(s4, vals, 0);
            assert(vals.take(0) =~= Seq::empty());
        }
        self.mark_locs(locs);
        let callee = self.pop();
        let callee = self.into_temp_reg(Some(GPRType::Rq), callee);
        let temp0 = self.take(GPRType::Rq);
        let temp1 = self.take(GPRType::Rq);
        self.release_locs(locs);
        (callee, temp0, temp1)
    }

    /// Calls the function whose number in the table is on top of the stack, if it has the
    /// signature `type_id`, and traps otherwise.
    pub fn call_indirect(
        &mut self,
        type_id: u32,
        arg_types: &[SignlessType],
        return_types: &[SignlessType],
    )
        requires
            passable_args(arg_types@),
            passable_rets(return_types@),
            old(self)@.call_indirect(
                *old(self).module_context,
                type_id,
                arg_locs_of(arg_types@),
                ret_locs_of(return_types@),
            ).ok,
        ensures
            final(self)@ == old(self)@.call_indirect(
                *old(self).module_context,
                type_id,
                arg_locs_of(arg_types@),
                ret_locs_of(return_types@),
            ),
            final(self).same_function(*old(self)),
            *final(final(self).out) == *final(old(self).out),
    {
        let locs = arg_locs(arg_types);
        let ghost rets = ret_locs_of(return_types@);
        proof {
            let (s1, callee, temp0, temp1) = self@.call_indirect_start(locs@);
            let (s2, fail) = s1.pass_outgoing_args(locs@).shared_label(SharedLabel::Trap);
            let s3 = s2.emit_all(
                call_indirect_code(
                    *self.module_context,
                    type_id,
                    callee.id(),
                    temp0.id(),
                    temp1.id(),
                    fail,
                ),
            ).release(temp0).release(temp1).release(callee);
            lemma_push_returns_ok(s3, rets, 0);
            assert(rets.take(0) =~= Seq::empty());
            lemma_pass_outgoing_args_ok(s1, locs@);
        }
        let (callee, temp0, temp1) = self.call_indirect_start(&locs);
        let callee_id: RegId = callee.rq().unwrap();
        let temp0_id: RegId = temp0.rq().unwrap();
        let temp1_id: RegId = temp1.rq().unwrap();
        self.pass_outgoing_args(&locs);
        let fail = self.trap_label();
        let ghost before = self@;
        let elements: i32 = self.module_context.vmctx_vmtable_definition_current_elements(0) as i32;
        self.emit(
            Insn::Cmp {
                w: Width::D,
                left: Operand::Gpr(callee),
                right: Operand::Mem(Mem { base: VMCTX, index: None, disp: elements }),
            },
        );
        self.emit(Insn::Jcc { cond: Cond::Ae, label: fail });
        let size: i32 = self.module_context.size_of_vmcaller_checked_anyfunc() as i32;
        self.emit(Insn::ImulImm { w: Width::D, dst: callee_id, src: callee_id, imm: size });
        let base: i32 = self.module_context.vmctx_vmtable_definition_base(0) as i32;
        self.emit(
            Insn::Mov {
                w: Width::Q,
                dst: Operand::Gpr(temp0),
                src: Operand::Mem(Mem { base: VMCTX, index: None, disp: base }),
            },
        );
        let signature: i32 = self.module_context.vmctx_vmshared_signature_id(type_id) as i32;
        self.emit(
            Insn::Mov {
                w: Width::D,
                dst: Operand::Gpr(temp1),
                src: Operand::Mem(Mem { base: VMCTX, index: None, disp: signature }),
            },
        );
        let type_index: i32 = self.module_context.vmcaller_checked_anyfunc_type_index() as i32;
        self.emit(
            Insn::Cmp {
                w: Width::D,
                left: Operand::Mem(
                    Mem { base: temp0_id, index: Some(callee_id), disp: type_index },
                ),
                right: Operand::Gpr(temp1),
            },
        );
        self.emit(Insn::Jcc { cond: Cond::Ne, label: fail });
        let func_ptr: i32 = self.module_context.vmcaller_checked_anyfunc_func_ptr() as i32;
        self.emit(
            Insn::CallMem(Mem { base: temp0_id, index: Some(callee_id), disp: func_ptr }),
        );
        proof {
            assert(self@ =~= before.emit_all(
                call_indirect_code(
                    *self.module_context,
                    type_id,
                    callee_id,
                    temp0_id,
                    temp1_id,
                    fail,
                ),
            ));
        }
        self.release(temp0);
        self.release(temp1);
        self.release(callee);
        self.push_function_returns(return_types);
    }

    /// Call a function with the given index
    pub fn call_direct(
        &mut self,
        index: u32,
        arg_types: &[SignlessType],
        return_types: &[SignlessType],
    )
        requires
            index < old(self).func_starts@.len(),
            passable_args(arg_types@),
            passable_rets(return_types@),
            old(self)@.call_direct(
                old(self).func_starts@[index as int].1,
                arg_locs_of(arg_types@),
                ret_locs_of(return_types@),
            ).ok,
        ensures
            final(self)@ == old(self)@.call_direct(
                old(self).func_starts@[index as int].1,
                arg_locs_of(arg_types@),
                ret_locs_of(return_types@),
            ),
            final(self).same_function(*old(self)),
            *final(final(self).out) == *final(old(self).out),
    {
        let locs = arg_locs(arg_types);
        let label = self.func_starts[index as usize].1;
        proof {
            let rets = ret_locs_of(return_types@);
            let s = self@.pass_outgoing_args(locs@).emit(Insn::Call(label));
            lemma_push_returns_ok(s, rets, 0);
            assert(rets.take(0) =~= Seq::empty());
        }
        self.pass_outgoing_args(&locs);
        self.emit(Insn::Call(label));
        self.push_function_returns(return_types);
    }

    /// Calls a function by its name. The place where its address has to be filled in is recorded.
    fn relocated_function_call(
        &mut self,
        name: ir::ExternalName,
        args: &[SignlessType],
        rets: &[SignlessType],
    )
        requires
            passable_args(args@),
            passable_rets(rets@),
            old(self)@.call_unknown(arg_locs_of(args@), ret_locs_of(rets@)).ok,
        ensures
            final(self)@ == old(self)@.call_relocated(
                old(self).current_function,
                name,
                arg_locs_of(args@),
                ret_locs_of(rets@),
            ),
            final(self).same_function(*old(self)),
            *final(final(self).out) == *final(old(self).out),
    {
        let locs = arg_locs(args);
        proof {
            let ret_seq = ret_locs_of(rets@);
            let (s, temp) = self@.pass_outgoing_args(locs@).take(GPRType::Rq);
            let s = s.emit(
                Insn::Mov {
                    w: Width::Q,
                    dst: Operand::rq(temp.id()),
                    src: Operand::Imm(UNKNOWN_ADDRESS as i64),
                },
            ).emit(Insn::CallReg(temp.id())).release(temp);
            lemma_push_returns_ok(s, ret_seq, 0);
            assert(ret_seq.take(0) =~= Seq::empty());
        }
        self.pass_outgoing_args(&locs);
        let at: usize = self.out.code.len();
        let temp = self.take(GPRType::Rq);
        let temp_id: RegId = temp.rq().unwrap();
        self.emit(
            Insn::Mov {
                w: Width::Q,
                dst: Operand::Gpr(temp),
                src: Operand::Imm(UNKNOWN_ADDRESS as i64),
            },
        );
        self.emit(Insn::CallReg(temp_id));
        self.release(temp);
        self.push_function_returns(rets);
        self.out.relocs.push(Reloc { at, function: self.current_function, name });
    }

    /// Asks for the size of the memory.
    pub fn memory_size(&mut self)
        requires
            old(self)@.push(ValueLocation::Immediate(Value::I32(0))).call_unknown(
                memory_size_args(),
                memory_rets(),
            ).ok,
        ensures
            final(self)@ == old(self)@.push(
                ValueLocation::Immediate(Value::I32(0)),
            ).call_relocated(
                old(self).current_function,
                user_external_name(1, 2),
                memory_size_args(),
                memory_rets(),
            ),
            is_user_name(final(self)@.relocs.last().name, 1, 2),
            final(self).same_function(*old(self)),
            *final(final(self).out) == *final(old(self).out),
    {
        self.push(ValueLocation::Immediate(Value::I32(0)));
        let args: [SignlessType; 1] = [SignlessType::I32];
        let rets: [SignlessType; 1] = [SignlessType::I32];
        proof {
            assert(args@ =~= seq![SignlessType::I32]);
            assert(rets@ =~= seq![SignlessType::I32]);
            reveal_with_fuel(crate::location::ints_before, 3);
        }
        self.relocated_function_call(get_memory32_size_name(), &args, &rets);
    }

    /// Grows the memory.
    pub fn memory_grow(&mut self)
        requires
            old(self)@.push(ValueLocation::Immediate(Value::I32(0))).call_unknown(
                memory_grow_args(),
                memory_rets(),
            ).ok,
        ensures
            final(self)@ == old(self)@.push(
                ValueLocation::Immediate(Value::I32(0)),
            ).call_relocated(
                old(self).current_function,
                user_external_name(1, 0),
                memory_grow_args(),
                memory_rets(),
            ),
            is_user_name(final(self)@.relocs.last().name, 1, 0),
            final(self).same_function(*old(self)),
            *final(final(self).out) == *final(old(self).out),
    {
        self.push(ValueLocation::Immediate(Value::I32(0)));
        let args: [SignlessType; 2] = [SignlessType::I32, SignlessType::I32];
        let rets: [SignlessType; 1] = [SignlessType::I32];
        proof {
            assert(args@ =~= seq![SignlessType::I32, SignlessType::I32]);
            assert(rets@ =~= seq![SignlessType::I32]);
            reveal_with_fuel(crate::location::ints_before, 4);
        }
        self.relocated_function_call(get_memory32_grow_name(), &args, &rets);
    }
}

} // verus!
