//! The value stack, and how values are passed to blocks.

use core::ops::RangeInclusive;

use vstd::prelude::*;

use crate::context::Context;
use crate::insn::{AluOp, Insn, Operand, Width};
use crate::location::{
    arg_locs, arg_locs_of, passable_args, CCLoc, CallingConvention, StackDepth, ValueLocation,
    VirtualCallingConvention, WORD_SIZE,
};
use crate::microwasm::{SignlessType, Value};
use crate::module_context::ModuleContext;
use crate::registers::{is_scratch, rq, GPRType, RegId, RegState, Registers, GPR};
use crate::state::State;

verus! {

/// `RangeInclusive::start` returns the first number of a range that has not been iterated over.
pub assume_specification<Idx>[ RangeInclusive::<Idx>::start ](r: &RangeInclusive<Idx>) -> (start:
    &Idx)
    requires
        !r@.exhausted,
    ensures
        *start == r@.start,
;

/// `RangeInclusive::end` returns the last number of a range that has not been iterated over.
pub assume_specification<Idx>[ RangeInclusive::<Idx>::end ](r: &RangeInclusive<Idx>) -> (end: &Idx)
    requires
        !r@.exhausted,
    ensures
        *end == r@.end,
;

/// Which registers are to be saved.
#[derive(Debug, Copy, Clone, PartialEq, Eq, Structural)]
pub enum SaveSet {
    /// This one.
    One(GPR),
    /// All volatile (i.e. caller-saved) registers.
    Volatile,
}

impl SaveSet {
    pub open spec fn has(self, gpr: GPR) -> bool {
        match self {
            SaveSet::One(r) => gpr == r,
            SaveSet::Volatile => is_scratch(gpr),
        }
    }

    pub(crate) fn contains(self, gpr: GPR) -> (b: bool)
        ensures
            b == self.has(gpr),
    {
        match self {
            SaveSet::One(r) => gpr == r,
            SaveSet::Volatile => crate::registers::scratch(gpr),
        }
    }
}

/// The places where values are that are passed in `locs`.
pub open spec fn as_values(locs: Seq<CCLoc>) -> Seq<ValueLocation> {
    Seq::new(locs.len(), |i: int| locs[i].as_value())
}

impl State {
    /// One more use of the register that holds `val`, if there is one.
    pub open spec fn mark_value(self, val: ValueLocation) -> State {
        match val {
            ValueLocation::Reg(r) => self.mark_used(r),
            _ => self,
        }
    }

    /// One more use of each register that holds one of `vals`.
    pub open spec fn mark_all(self, vals: Seq<ValueLocation>) -> State
        decreases vals.len(),
    {
        if vals.len() == 0 {
            self
        } else {
            self.mark_all(vals.drop_last()).mark_value(vals.last())
        }
    }

    /// The state at a point where the values are in `stack` and the machine's stack is `depth`
    /// words deep. The only registers in use are those that hold these values.
    pub open spec fn enter(self, stack: Seq<ValueLocation>, depth: u32) -> State {
        let s = State { regs: RegState::initial(), ..self }.mark_all(stack);
        State { stack, depth, ..s }
    }

    /// Removes the values number `start` to `end`, counted from the top of the stack.
    pub open spec fn drop_range(self, start: u32, end: u32) -> State {
        let n = self.stack.len() as int;
        if start > end {
            self.need(start <= n)
        } else {
            let s = State {
                stack: self.stack.take(n - 1 - end) + self.stack.skip(n - start),
                ok: self.ok && end < n,
                ..self
            };
            s.free_all(self.stack.subrange(n - 1 - end, n - start))
        }
    }

    /// Pushes the value number `depth`, counted from the top of the stack, once more.
    pub open spec fn pick(self, depth: u32) -> State {
        let v = self.stack[self.stack.len() - 1 - depth];
        self.need(depth < self.stack.len()).mark_value(v).push(v)
    }

    /// Exchanges the top of the stack with the value number `depth`.
    pub open spec fn swap(self, depth: u32) -> State {
        let last = self.stack.len() - 1;
        State {
            stack: self.stack.update(last, self.stack[last - depth]).update(
                last - depth,
                self.stack[last],
            ),
            ok: self.ok && depth < self.stack.len(),
            ..self
        }
    }

    /// Moves the top `count` values into temporary registers and takes them from the stack. The
    /// registers are listed from the deepest value to the top.
    pub open spec fn serialize(self, count: nat) -> (State, Seq<CCLoc>)
        decreases count,
    {
        if count == 0 {
            (self, Seq::empty())
        } else {
            let (s, val) = self.pop();
            let (s, reg) = s.into_temp_reg(None, val);
            let (s, below) = s.serialize((count - 1) as nat);
            (s, below.push(CCLoc::Reg(reg)))
        }
    }

    /// Pushes value number `i` of the stack on the machine's stack if it is in a register of
    /// `set`.
    pub open spec fn save_reg_at(self, set: SaveSet, i: int) -> State {
        let val = self.stack[i];
        if val is Reg && set.has(val->Reg_0) {
            let (s, loc) = self.push_physical(val);
            State { stack: s.stack.update(i, loc), ..s }
        } else {
            self
        }
    }

    /// Does so for all values from number `start` up to `end`, in this order.
    pub open spec fn save_regs(self, set: SaveSet, start: int, end: int) -> State
        decreases end - start,
    {
        if start >= end {
            self
        } else {
            self.save_reg_at(set, start).save_regs(set, start + 1, end)
        }
    }

    /// Passes the top of the stack in `dst`, which is the place of argument number `i`. Whatever
    /// else needs the register is moved out of the way.
    pub open spec fn pass_block_arg(self, dst: CCLoc, i: int) -> State {
        let s = match dst {
            CCLoc::Reg(r) => {
                let s = if !self.regs.is_free(r) && self.stack.last() != ValueLocation::Reg(r) {
                    let n = self.stack.len() as int;
                    self.need(i < n).save_regs(SaveSet::One(r), n - 1 - i, n)
                } else {
                    self
                };
                s.need(r.valid()).mark_used(r)
            },
            CCLoc::Stack(_) => self,
        };
        s.pop_into(dst.as_value())
    }

    /// Passes the values on the stack as the last `count` of `args`, from the last one down.
    pub open spec fn pass_block_args(self, args: Seq<CCLoc>, count: nat) -> State
        decreases count,
    {
        if count == 0 || args.len() == 0 {
            self
        } else {
            self.pass_block_arg(args.last(), args.len() - 1).pass_block_args(
                args.drop_last(),
                (count - 1) as nat,
            )
        }
    }
}

pub proof fn lemma_free_all_ok(s: State, vals: Seq<ValueLocation>)
    ensures
        s.free_all(vals).ok ==> s.ok,
    decreases vals.len(),
{
    if vals.len() > 0 {
        lemma_free_all_ok(s.free_value(vals.last()), vals.drop_last());
    }
}

/// Giving registers back changes the usage counts only.
pub proof fn lemma_free_all_frame(s: State, vals: Seq<ValueLocation>, stack: Seq<ValueLocation>)
    ensures
        s.with_stack(stack).free_all(vals) == s.free_all(vals).with_stack(stack),
        s.free_all(vals).stack == s.stack,
    decreases vals.len(),
{
    if vals.len() > 0 {
        lemma_free_all_frame(s.free_value(vals.last()), vals.drop_last(), stack);
        assert(s.with_stack(stack).free_value(vals.last()) == s.free_value(
            vals.last(),
        ).with_stack(stack));
    }
}

pub proof fn lemma_mark_all_ok(s: State, vals: Seq<ValueLocation>, n: int)
    requires
        0 <= n <= vals.len(),
    ensures
        s.mark_all(vals).ok ==> s.mark_all(vals.take(n)).ok,
    decreases vals.len(),
{
    if n < vals.len() {
        lemma_mark_all_ok(s, vals.drop_last(), n);
        assert(vals.drop_last().take(n) =~= vals.take(n));
    } else {
        assert(vals.take(n) =~= vals);
    }
}

/// Marking registers changes the usage counts only.
pub proof fn lemma_mark_all_frame(s: State, vals: Seq<ValueLocation>)
    ensures
        s.mark_all(vals) == (State { regs: s.mark_all(vals).regs, ok: s.mark_all(vals).ok, ..s }),
    decreases vals.len(),
{
    if vals.len() > 0 {
        lemma_mark_all_frame(s, vals.drop_last());
    }
}

pub proof fn lemma_serialize_ok(s: State, count: nat)
    ensures
        s.serialize(count).0.ok ==> s.ok,
    decreases count,
{
    if count > 0 {
        let (s1, val) = s.pop();
        let (s2, reg) = s1.into_temp_reg(None, val);
        lemma_serialize_ok(s2, (count - 1) as nat);
    }
}

pub proof fn lemma_save_regs_ok(s: State, set: SaveSet, start: int, end: int)
    ensures
        s.save_regs(set, start, end).ok ==> s.ok,
    decreases end - start,
{
    if start < end {
        lemma_save_regs_ok(s.save_reg_at(set, start), set, start + 1, end);
    }
}

pub proof fn lemma_pass_block_arg_ok(s: State, dst: CCLoc, i: int)
    ensures
        s.pass_block_arg(dst, i).ok ==> s.ok,
{
    if let CCLoc::Reg(r) = dst {
        let n = s.stack.len() as int;
        lemma_save_regs_ok(s.need(i < n), SaveSet::One(r), n - 1 - i, n);
    }
}

pub proof fn lemma_pass_block_args_ok(s: State, args: Seq<CCLoc>, count: nat)
    ensures
        s.pass_block_args(args, count).ok ==> s.ok,
    decreases count,
{
    if count > 0 && args.len() > 0 {
        lemma_pass_block_arg_ok(s, args.last(), args.len() - 1);
        lemma_pass_block_args_ok(
            s.pass_block_arg(args.last(), args.len() - 1),
            args.drop_last(),
            (count - 1) as nat,
        );
    }
}

impl<'a, M: ModuleContext> Context<'a, M> {
    /// Where all values are at this point.
    pub fn virtual_calling_convention(&self) -> (cc: VirtualCallingConvention)
        ensures
            cc.stack@ == self@.stack,
            cc.depth.0 == self@.depth,
    {
        let mut stack: Vec<ValueLocation> = Vec::with_capacity(self.block_state.stack.len());
        let mut i: usize = 0;
        while i < self.block_state.stack.len()
            invariant
                i <= self.block_state.stack.len(),
                stack@ == self.block_state.stack@.take(i as int),
            decreases self.block_state.stack.len() - i,
        {
            stack.push(self.block_state.stack[i]);
            proof {
                assert(self.block_state.stack@.take(i + 1) =~= self.block_state.stack@.take(
                    i as int,
                ).push(self.block_state.stack@[i as int]));
            }
            i = i + 1;
        }
        proof {
            assert(self.block_state.stack@.take(i as int) =~= self.block_state.stack@);
        }
        VirtualCallingConvention { stack, depth: self.block_state.depth }
    }

    /// Goes on from a point at which the values are where `state` says.
    pub fn set_state(&mut self, state: VirtualCallingConvention)
        requires
            old(self)@.enter(state.stack@, state.depth.0).ok,
        ensures
            final(self)@ == old(self)@.enter(state.stack@, state.depth.0),
            final(self).same_function(*old(self)),
            *final(final(self).out) == *final(old(self).out),
    {
        let ghost start = State { regs: RegState::initial(), ..self@ };
        self.block_state.regs = Registers::new();
        let mut i: usize = 0;
        while i < state.stack.len()
            invariant
                i <= state.stack.len(),
                start.mark_all(state.stack@).ok,
                self@ == start.mark_all(state.stack@.take(i as int)),
                self.same_function(*old(self)),
                *final(self.out) == *final(old(self).out),
            decreases state.stack.len() - i,
        {
            proof {
                lemma_mark_all_ok(start, state.stack@, i + 1);
                assert(state.stack@.take(i + 1).drop_last() =~= state.stack@.take(i as int));
            }
            if let ValueLocation::Reg(r) = state.stack[i] {
                self.mark_used(r);
            }
            i = i + 1;
        }
        proof {
            assert(state.stack@.take(i as int) =~= state.stack@);
        }
        self.block_state.stack = state.stack;
        self.block_state.depth = state.depth;
    }

    /// Goes on from the start of a block to which values are passed as `cc` says.
    pub fn apply_cc(&mut self, cc: &CallingConvention)
        requires
            old(self)@.enter(as_values(cc.arguments@), cc.stack_depth.0).ok,
        ensures
            final(self)@ == old(self)@.enter(as_values(cc.arguments@), cc.stack_depth.0),
            final(self).same_function(*old(self)),
            *final(final(self).out) == *final(old(self).out),
    {
        let ghost start = State { regs: RegState::initial(), ..self@ };
        let ghost vals = as_values(cc.arguments@);
        self.block_state.stack = Vec::with_capacity(cc.arguments.len());
        self.block_state.regs = Registers::new();
        let mut i: usize = 0;
        proof {
            assert(vals.take(0) =~= Seq::empty());
            lemma_mark_all_frame(start, vals.take(0));
        }
        while i < cc.arguments.len()
            invariant
                i <= cc.arguments.len(),
                vals == as_values(cc.arguments@),
                start.mark_all(vals).ok,
                self@ == start.mark_all(vals.take(i as int)).with_stack(vals.take(i as int)),
                self.same_function(*old(self)),
                *final(self.out) == *final(old(self).out),
            decreases cc.arguments.len() - i,
        {
            let elem = cc.arguments[i];
            proof {
                lemma_mark_all_ok(start, vals, i + 1);
                assert(vals.take(i + 1).drop_last() =~= vals.take(i as int));
                assert(vals.take(i + 1) =~= vals.take(i as int).push(elem.as_value()));
            }
            if let CCLoc::Reg(r) = elem {
                self.mark_used(r);
            }
            self.block_state.stack.push(ValueLocation::from(elem));
            i = i + 1;
        }
        proof {
            assert(vals.take(i as int) =~= vals);
        }
        self.block_state.depth = cc.stack_depth;
    }

    /// Writes the function prologue and stores the arguments as locals
    pub fn start_function(&mut self, params: &[SignlessType])
        requires
            passable_args(params@),
            old(self)@.enter(as_values(arg_locs_of(params@)), 1).ok,
        ensures
            final(self)@ == old(self)@.enter(as_values(arg_locs_of(params@)), 1),
            final(self).same_function(*old(self)),
            *final(final(self).out) == *final(old(self).out),
    {
        let locs = arg_locs(params);
        self.apply_cc(&CallingConvention::function_start(locs));
    }

    /// Takes the values number `range`, counted from the top, from the stack.
    pub fn drop(&mut self, range: RangeInclusive<u32>)
        requires
            !range@.exhausted,
            old(self)@.drop_range(range@.start, range@.end).ok,
        ensures
            final(self)@ == old(self)@.drop_range(range@.start, range@.end),
            final(self).same_function(*old(self)),
            *final(final(self).out) == *final(old(self).out),
    {
        let start: u32 = *range.start();
        let end: u32 = *range.end();
        let ghost s = self@;
        let ghost n = s.stack.len() as int;
        let ghost removed = s.stack.subrange(n - 1 - end, n - start);
        let ghost kept = s.stack.take(n - 1 - end) + s.stack.skip(n - start);
        proof {
            if start <= end {
                lemma_free_all_ok(State { stack: kept, ok: s.ok && end < n, ..s }, removed);
                lemma_free_all_frame(State { ok: s.ok && end < n, ..s }, removed, kept);
            }
        }
        let mut repush: Vec<ValueLocation> = Vec::with_capacity(start as usize);
        let mut i: u32 = 0;
        while i < start
            invariant
                i <= start,
                start <= n,
                n == s.stack.len(),
                s.ok,
                repush@.len() == i,
                forall|j: int| 0 <= j < i ==> repush@[j] == s.stack[n - 1 - j],
                self@ == s.with_stack(s.stack.take(n - i)),
                self.same_function(*old(self)),
                *final(self.out) == *final(old(self).out),
            decreases start - i,
        {
            let val = self.pop();
            repush.push(val);
            proof {
                assert(s.stack.take(n - i).drop_last() =~= s.stack.take(n - i - 1));
            }
            i = i + 1;
        }
        if start <= end {
            let count: u64 = (end - start) as u64 + 1;
            let mut done: u64 = 0;
            proof {
                assert(removed.take(removed.len() as int) =~= removed);
            }
            while done < count
                invariant
                    done <= count,
                    count == end - start + 1,
                    start <= end < n,
                    n == s.stack.len(),
                    s.ok,
                    removed == s.stack.subrange(n - 1 - end, n - start),
                    s.free_all(removed).ok,
                    self@.stack == s.stack.take(n - start - done),
                    self@.with_stack(s.stack).free_all(removed.take(count - done)) == s.free_all(
                        removed,
                    ),
                    self.same_function(*old(self)),
                    *final(self.out) == *final(old(self).out),
                decreases count - done,
            {
                let ghost before = self@.with_stack(s.stack);
                let ghost rest = removed.take(count - done);
                proof {
                    assert(s.stack.take(n - start - done).drop_last() =~= s.stack.take(
                        n - start - done - 1,
                    ));
                    assert(rest.drop_last() =~= removed.take(count - done - 1));
                    assert(rest.last() == s.stack[n - start - done - 1]);
                    lemma_free_all_ok(before.free_value(rest.last()), rest.drop_last());
                }
                let val = self.pop();
                self.free_value(val);
                proof {
                    assert(self@.with_stack(s.stack) == before.free_value(rest.last()));
                }
                done = done + 1;
            }
            proof {
                assert(removed.take(0) =~= Seq::empty());
                assert(self@.with_stack(s.stack) == s.free_all(removed));
            }
        }
        let ghost mid = self@;
        let mut k: usize = repush.len();
        while k > 0
            invariant
                k <= repush@.len(),
                repush@.len() == start,
                start <= n,
                n == s.stack.len(),
                forall|j: int| 0 <= j < start ==> repush@[j] == s.stack[n - 1 - j],
                self@ == mid.with_stack(mid.stack + s.stack.subrange(n - start, n - k)),
                self.same_function(*old(self)),
                *final(self.out) == *final(old(self).out),
            decreases k,
        {
            k = k - 1;
            proof {
                assert(s.stack.subrange(n - start, n - k) =~= s.stack.subrange(
                    n - start,
                    n - k - 1,
                ).push(repush@[k as int]));
                assert(mid.stack + s.stack.subrange(n - start, n - k) =~= (mid.stack
                    + s.stack.subrange(n - start, n - k - 1)).push(repush@[k as int]));
            }
            self.push(repush[k]);
        }
        proof {
            assert(s.stack.subrange(n - start, n) =~= s.stack.skip(n - start));
            if start <= end {
                assert(self@.stack =~= kept);
            } else {
                assert(self@.stack =~= s.stack);
            }
        }
    }

    /// Pushes the value number `depth`, counted from the top of the stack, once more.
    pub fn pick(&mut self, depth: u32)
        requires
            old(self)@.pick(depth).ok,
        ensures
            final(self)@ == old(self)@.pick(depth),
            final(self).same_function(*old(self)),
            *final(final(self).out) == *final(old(self).out),
    {
        let idx: usize = self.block_state.stack.len() - 1 - depth as usize;
        let v = self.block_state.stack[idx];
        match v {
            ValueLocation::Reg(r) => {
                self.mark_used(r);
            },
            _ => {},
        }
        self.block_state.stack.push(v);
    }

    /// Pushes a constant.
    pub fn const_(&mut self, imm: Value)
        ensures
            final(self)@ == old(self)@.push(ValueLocation::Immediate(imm)),
            final(self).same_function(*old(self)),
            *final(final(self).out) == *final(old(self).out),
    {
        self.push(ValueLocation::Immediate(imm));
    }

    /// Exchanges the top of the stack with the value number `depth`, counted from the top.
    pub fn swap(&mut self, depth: u32)
        requires
            old(self)@.swap(depth).ok,
        ensures
            final(self)@ == old(self)@.swap(depth),
            final(self).same_function(*old(self)),
            *final(final(self).out) == *final(old(self).out),
    {
        let last: usize = self.block_state.stack.len() - 1;
        let other: usize = last - depth as usize;
        let top = self.block_state.stack[last];
        let below = self.block_state.stack[other];
        self.block_state.stack[last] = below;
        self.block_state.stack[other] = top;
    }

    fn emit_times(&mut self, insn: Insn, count: u32)
        ensures
            final(self)@ == old(self)@.emit_times(insn, count as nat),
            final(self).same_function(*old(self)),
            *final(final(self).out) == *final(old(self).out),
    {
        let mut i: u32 = 0;
        proof {
            assert(self@ =~= self@.emit_times(insn, 0));
        }
        while i < count
            invariant
                i <= count,
                self@ == old(self)@.emit_times(insn, i as nat),
                self.same_function(*old(self)),
                *final(self.out) == *final(old(self).out),
            decreases count - i,
        {
            self.emit(insn);
            proof {
                assert(old(self)@.emit_times(insn, (i + 1) as nat) =~= old(self)@.emit_times(
                    insn,
                    i as nat,
                ).emit(insn));
            }
            i = i + 1;
        }
    }

    /// Makes the machine's stack `depth` words deep without touching the flags, which a
    /// conditional branch may still need.
    pub(crate) fn set_stack_depth_preserve_flags(&mut self, depth: StackDepth)
        requires
            old(self)@.set_stack_depth_preserve_flags(depth.0).ok,
        ensures
            final(self)@ == old(self)@.set_stack_depth_preserve_flags(depth.0),
            final(self).same_function(*old(self)),
            *final(final(self).out) == *final(old(self).out),
    {
        let current: u32 = self.block_state.depth.0;
        if current < depth.0 {
            self.emit_times(Insn::Push(Operand::Gpr(GPR::Rq(rq::RAX))), depth.0 - current);
        } else if current > depth.0 {
            let trash = self.take(GPRType::Rq);
            let trash_id: RegId = trash.rq().unwrap();
            self.emit_times(Insn::Pop(trash_id), current - depth.0);
        }
        self.block_state.depth = depth;
    }

    /// Makes the machine's stack `depth` words deep.
    pub(crate) fn set_stack_depth(&mut self, depth: StackDepth)
        requires
            old(self)@.set_stack_depth(depth.0).ok,
        ensures
            final(self)@ == old(self)@.set_stack_depth(depth.0),
            final(self).same_function(*old(self)),
            *final(final(self).out) == *final(old(self).out),
    {
        let current: u32 = self.block_state.depth.0;
        if current != depth.0 {
            let diff: i64 = depth.0 as i32 as i64 - current as i32 as i64;
            if diff == 1 || diff == -1 {
                self.set_stack_depth_preserve_flags(depth);
            } else {
                let bytes: i64 = -diff * WORD_SIZE as i64;
                self.block_state.depth = depth;
                self.emit(
                    Insn::Alu {
                        op: AluOp::Add,
                        w: Width::Q,
                        dst: rq::RSP,
                        src: Operand::Imm(bytes),
                    },
                );
            }
        }
    }

    /// Pushes the values number `start` up to `end` of the stack that are in registers of `set`
    /// on the machine's stack.
    pub(crate) fn save_regs(&mut self, set: SaveSet, start: usize, end: usize)
        requires
            start <= end <= old(self)@.stack.len(),
            old(self)@.save_regs(set, start as int, end as int).ok,
        ensures
            final(self)@ == old(self)@.save_regs(set, start as int, end as int),
            final(self).same_function(*old(self)),
            *final(final(self).out) == *final(old(self).out),
    {
        let mut i: usize = start;
        let ghost goal = self@.save_regs(set, start as int, end as int);
        while i < end
            invariant
                i <= end <= self@.stack.len(),
                goal.ok,
                self@.save_regs(set, i as int, end as int) == goal,
                self.same_function(*old(self)),
                *final(self.out) == *final(old(self).out),
            decreases end - i,
        {
            let ghost before = self@;
            proof {
                lemma_save_regs_ok(before.save_reg_at(set, i as int), set, i + 1, end as int);
            }
            let val = self.block_state.stack[i];
            if let ValueLocation::Reg(vreg) = val {
                if set.contains(vreg) {
                    let loc = self.push_physical(val);
                    self.block_state.stack[i] = loc;
                }
            }
            proof {
                assert(self@ == before.save_reg_at(set, i as int));
            }
            i = i + 1;
        }
    }

    /// Passes values to a block: the top of the stack as the last argument, and so on down.
    pub fn pass_block_args(&mut self, cc: &CallingConvention)
        requires
            old(self)@.pass_block_args(cc.arguments@, old(self)@.stack.len()).set_stack_depth(
                cc.stack_depth.0,
            ).ok,
        ensures
            final(self)@ == old(self)@.pass_block_args(
                cc.arguments@,
                old(self)@.stack.len(),
            ).set_stack_depth(cc.stack_depth.0),
            final(self).same_function(*old(self)),
            *final(final(self).out) == *final(old(self).out),
    {
        let ghost args = cc.arguments@;
        let ghost goal = self@.pass_block_args(args, self@.stack.len());
        let mut remaining: usize = cc.arguments.len();
        let mut count: usize = self.block_state.stack.len();
        proof {
            assert(args.take(remaining as int) =~= args);
        }
        while remaining > 0 && count > 0
            invariant
                remaining <= args.len(),
                args == cc.arguments@,
                goal.ok,
                self@.pass_block_args(args.take(remaining as int), count as nat) == goal,
                self.same_function(*old(self)),
                *final(self.out) == *final(old(self).out),
            decreases remaining,
        {
            let ghost before = self@;
            let ghost rest = args.take(remaining as int);
            remaining = remaining - 1;
            count = count - 1;
            let dst = cc.arguments[remaining];
            proof {
                assert(rest.last() == dst);
                assert(rest.drop_last() =~= args.take(remaining as int));
                lemma_pass_block_args_ok(
                    before.pass_block_arg(dst, remaining as int),
                    args.take(remaining as int),
                    count as nat,
                );
                lemma_pass_block_arg_ok(before, dst, remaining as int);
                if let CCLoc::Reg(r) = dst {
                    let n = before.stack.len() as int;
                    lemma_save_regs_ok(
                        before.need(remaining < n),
                        SaveSet::One(r),
                        n - 1 - remaining,
                        n,
                    );
                }
            }
            self.pass_block_arg(dst, remaining);
        }
        self.set_stack_depth(cc.stack_depth);
    }

    fn pass_block_arg(&mut self, dst: CCLoc, i: usize)
        requires
            old(self)@.pass_block_arg(dst, i as int).ok,
        ensures
            final(self)@ == old(self)@.pass_block_arg(dst, i as int),
            final(self).same_function(*old(self)),
            *final(final(self).out) == *final(old(self).out),
    {
        let ghost before = self@;
        proof {
            lemma_pass_block_arg_ok(before, dst, i as int);
        }
        if let CCLoc::Reg(r) = dst {
            let len: usize = self.block_state.stack.len();
            proof {
                lemma_save_regs_ok(before.need(i < len), SaveSet::One(r), len - 1 - i, len as int);
            }
            if !self.block_state.regs.is_free(r) && self.block_state.stack[len - 1]
                != ValueLocation::Reg(r) {
                self.save_regs(SaveSet::One(r), len - 1 - i, len);
            }
            self.mark_used(r);
        }
        self.pop_into(ValueLocation::from(dst));
    }

    /// Puts all stack values into "real" locations so that they can i.e. be set to different
    /// values on different iterations of a loop
    pub fn serialize_args(&mut self, count: u32) -> (cc: CallingConvention)
        requires
            old(self)@.serialize(count as nat).0.ok,
        ensures
            (final(self)@, cc.arguments@) == old(self)@.serialize(count as nat),
            cc.stack_depth.0 == old(self)@.serialize(count as nat).0.depth,
            final(self).same_function(*old(self)),
            *final(final(self).out) == *final(old(self).out),
    {
        let ghost goal = self@.serialize(count as nat);
        let mut out: Vec<CCLoc> = Vec::with_capacity(count as usize);
        let mut left: u32 = count;
        proof {
            assert(goal.1 + out@ =~= goal.1);
        }
        while left > 0
            invariant
                left <= count,
                goal.0.ok,
                self@.serialize(left as nat).0 == goal.0,
                self@.serialize(left as nat).1 + out@ == goal.1,
                self.same_function(*old(self)),
                *final(self.out) == *final(old(self).out),
            decreases left,
        {
            let ghost before = self@;
            let ghost done = out@;
            left = left - 1;
            proof {
                let (s1, val) = before.pop();
                let (s2, reg) = s1.into_temp_reg(None, val);
                lemma_serialize_ok(s2, left as nat);
            }
            let val = self.pop();
            let loc = CCLoc::Reg(self.into_temp_reg(None, val));
            out.insert(0, loc);
            proof {
                let below = self@.serialize(left as nat).1;
                assert(below + out@ =~= below.push(loc) + done);
            }
        }
        proof {
            assert(goal.1 =~= out@);
        }
        CallingConvention { stack_depth: self.block_state.depth, arguments: out }
    }
}

} // verus!
