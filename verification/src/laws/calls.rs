//! How values are passed to functions.

use vstd::prelude::*;

use cranelift_codegen::ir;

use crate::assembly::Label;
use crate::bits::lemma_u64_views;
use crate::blocks::{as_values, lemma_save_regs_ok, SaveSet};
use crate::calls::{
    lemma_make_moves_ok, lemma_pass_all_outgoing_ok, lemma_pass_outgoing_args_ok,
    lemma_push_returns_ok, lemma_release_all_ok, memory_grow_args, memory_rets, memory_size_args,
    stack_space, Move, UNKNOWN_ADDRESS,
};
use crate::division::rax;
use crate::insn::{Insn, Operand, Width};
use crate::laws::arguments::{
    lemma_all_placed, lemma_make_moves, lemma_pass_all_outgoing, lemma_release_all_owns,
    lemma_stack_space, lemma_stacked, parameter_places, sources, stacked, Passing,
};
use crate::laws::arith::lemma_owns_code;
use crate::laws::blocks::{lemma_less_room, saving_registers, slot_limit};
use crate::laws::locations::{parameters_have_places, place_is_sound};
use crate::laws::passing::lemma_slot;
use crate::laws::{none, one};
use crate::location::{
    arg_locs_of, ints_before, lemma_ints_before, passable_args, ret_loc, CCLoc,
    ValueLocation,
};
use crate::machine::{load, store, Control, Machine};
use crate::microwasm::{SignlessType, Value};
use crate::ownership::{
    lemma_owns_free, lemma_owns_hold, lemma_owns_mark_used, lemma_owns_push, reserved,
    taken_is_unused, uses,
};
use crate::registers::{is_scratch, lemma_lowest_free, rq, GPRType, GPR};
use crate::simulation::{lemma_ran_nothing, lemma_ran_push, load_beside_store, ran};
use crate::state::State;

verus! {

/// Saving the volatile registers leaves no value but the arguments in one of them, and all values
/// as they were.
pub proof fn saving_volatile(
    s: State,
    m: Machine,
    from: Seq<Insn>,
    held: Seq<ValueLocation>,
    args: nat,
)
    requires
        s.reached(m, from),
        s.owns(held),
        s.save_volatile(args).ok,
        s.framed((s.stack.len() - args) as int),
    ensures
        ({
            let t = s.save_volatile(args);
            &&& args <= s.stack.len()
            &&& s.carries(t, m, from, held)
            &&& s.depth <= t.depth
            &&& forall|room: int|
                #[trigger] s.framed(room) ==> t.framed(room - (s.stack.len() - args))
            &&& forall|i: int|
                0 <= i < s.stack.len() - args && #[trigger] t.stack[i] is Reg ==> !is_scratch(
                    t.stack[i]->Reg_0,
                )
            &&& forall|i: int|
                s.stack.len() - args <= i < s.stack.len() ==> #[trigger] t.stack[i] == s.stack[i]
        }),
{
    let s0 = s.need(args <= s.stack.len());
    lemma_save_regs_ok(s0, SaveSet::Volatile, 0, s.stack.len() - args);
    assert(s0 == s);
    saving_registers(s, m, from, held, SaveSet::Volatile, 0, s.stack.len() - args);
}

/// The value of the parameter at `loc` when the machine is about to make the call.
pub open spec fn parameter_value(n: Machine, loc: CCLoc) -> u64 {
    match loc {
        CCLoc::Reg(r) => n.gpr(r),
        CCLoc::Stack(o) => load(n.mem, n.rsp + 8 * o),
    }
}

/// What was the value of a parameter to the caller is its value to the callee, which counts slots
/// from the return address.
pub proof fn parameters_on_entry(callee: State, n: Machine, loc: CCLoc, address: u64)
    requires
        callee.depth == 1,
        loc is Stack ==> 0 <= loc->Stack_0 && loc->Stack_0 + 1 < slot_limit(),
    ensures
        ({
            let entered = Machine {
                rsp: n.rsp - 8,
                mem: store(n.mem, Width::Q, n.rsp - 8, address),
                ..n
            };
            callee.value_of(entered, loc.as_value()) == parameter_value(n, loc)
        }),
{
    if let CCLoc::Stack(o) = loc {
        let entered = Machine {
            rsp: n.rsp - 8,
            mem: store(n.mem, Width::Q, n.rsp - 8, address),
            ..n
        };
        lemma_slot(callee, entered, o);
        load_beside_store(n.mem, Width::Q, n.rsp - 8, address, n.rsp + 8 * o);
    }
}

impl State {
    /// The call with parameters at `locs` that is about to be made: all other values are saved.
    pub open spec fn passing(
        self,
        m: Machine,
        from: Seq<Insn>,
        held: Seq<ValueLocation>,
        locs: Seq<CCLoc>,
    ) -> Passing {
        let s = self.save_volatile(locs.len());
        Passing { s, start: ran(m, from, s.code), locs, held }
    }

    /// Whether the code of the step from `self` to `t` passes the values on top of the stack to
    /// the parameters at `locs`: each parameter has its value, the values below are as they were
    /// and in no register that the callee may change, the memory from the stack pointer on is as
    /// it was, and so are the registers that are in hand or not for general use.
    pub open spec fn hands_over(
        self,
        t: State,
        m: Machine,
        from: Seq<Insn>,
        held: Seq<ValueLocation>,
        locs: Seq<CCLoc>,
    ) -> bool {
        let before = ran(m, from, self.code);
        let saved = self.passing(m, from, held, locs);
        let n = ran(m, from, t.code);
        let base = self.stack.len() - locs.len();
        &&& t.reached(m, from)
        &&& t.owns(held)
        &&& t.stack.len() == base
        &&& t.frame(n) == self.frame(before)
        &&& n.rsp == saved.start.rsp - 8 * stacked(locs, locs.len() as int)
        &&& forall|j: int|
            0 <= j < locs.len() ==> parameter_value(n, #[trigger] locs[j]) == self.value_at(
                before,
                base + j,
            )
        &&& forall|i: int|
            0 <= i < base ==> #[trigger] t.value_at(n, i) == self.value_at(before, i)
        &&& forall|i: int|
            0 <= i < base && #[trigger] t.stack[i] is Reg ==> !is_scratch(t.stack[i]->Reg_0)
        &&& forall|a: int| a >= before.rsp ==> #[trigger] (n.mem)(a) == (before.mem)(a)
        &&& forall|a: int| a >= saved.start.rsp ==> #[trigger] (n.mem)(a) == (saved.start.mem)(a)
        &&& forall|g: GPR|
            g.valid() && reserved(g) + uses(held, g) > 0 ==> #[trigger] n.gpr(g) == before.gpr(g)
    }
}

/// If the arguments could be passed, so could each part of it be done.
proof fn lemma_pass_outgoing_args_steps(s: State, locs: Seq<CCLoc>)
    requires
        s.pass_outgoing_args(locs).ok,
    ensures
        ({
            let s1 = s.save_volatile(locs.len());
            let depth = (s1.depth + stack_space(locs)) as u32;
            let s2 = s1.need(s1.depth + stack_space(locs) <= u32::MAX);
            let (s3, pending) = s2.pass_all_outgoing(locs, depth, Seq::empty());
            &&& s.ok
            &&& s1.ok
            &&& s2.ok
            &&& s3.ok
            &&& s3.make_moves(pending, 9).ok
        }),
{
    let s1 = s.save_volatile(locs.len());
    let depth = (s1.depth + stack_space(locs)) as u32;
    let s2 = s1.need(s1.depth + stack_space(locs) <= u32::MAX);
    let (s3, pending) = s2.pass_all_outgoing(locs, depth, Seq::empty());
    lemma_release_all_ok(s3.make_moves(pending, 9).set_stack_depth(depth), as_values(locs), 0);
    assert(as_values(locs).take(0) =~= Seq::empty());
    lemma_make_moves_ok(s3, pending, 9);
    lemma_pass_all_outgoing_ok(s2, locs, depth, Seq::empty());
    lemma_pass_outgoing_args_ok(s, locs);
}

/// When all other values are saved, no argument is in its place yet.
proof fn lemma_nothing_placed(p: Passing, m: Machine, from: Seq<Insn>)
    requires
        p.wf(),
        p.s.reached(m, from),
        p.s.owns(p.held),
        p.start == ran(m, from, p.s.code),
    ensures
        p.s.placing(p, m, from, Seq::empty(), none(), p.locs.len() as int),
{
    reveal(State::placing);
    assert(sources(Seq::<Move>::empty()) =~= none());
    assert(p.in_hand(Seq::empty(), none()) =~= p.held);
    assert(p.s.stack.take(p.base() + p.locs.len()) =~= p.s.stack);
}

/// Passing the values on top of the stack, with `held` in hand.
pub proof fn lemma_passing(
    s: State,
    m: Machine,
    from: Seq<Insn>,
    held: Seq<ValueLocation>,
    locs: Seq<CCLoc>,
)
    requires
        s.reached(m, from),
        s.owns(held),
        s.pass_outgoing_args(locs).ok,
        parameter_places(locs),
        s.framed(s.stack.len() - locs.len() + stacked(locs, locs.len() as int)),
    ensures
        s.hands_over(s.pass_outgoing_args(locs), m, from, held, locs),
{
    let p = s.passing(m, from, held, locs);
    let count = locs.len() as int;
    let base = s.stack.len() - count;
    let s1 = p.s;
    lemma_stack_space(locs, count);
    assert(locs.take(count) =~= locs);
    lemma_stacked(locs, 0, count);
    let depth = (s1.depth + stack_space(locs)) as u32;
    let s2 = s1.need(s1.depth + stack_space(locs) <= u32::MAX);
    let (s3, pending) = s2.pass_all_outgoing(locs, depth, Seq::empty());
    let s4 = s3.make_moves(pending, 9);
    let s5 = s4.set_stack_depth(depth);
    lemma_pass_outgoing_args_steps(s, locs);
    assert(s2 == s1);
    lemma_less_room(s, base + p.slots(), base);
    saving_volatile(s, m, from, held, count as nat);
    assert(s1.framed(base + p.slots() - base));
    assert(p.wf());
    lemma_nothing_placed(p, m, from);
    let done = lemma_pass_all_outgoing(s1, p, m, from, count, depth, Seq::empty(), none());
    let done = lemma_make_moves(s3, p, m, from, pending, done, 9);
    lemma_all_placed(s4, p, m, from, done);
    assert(s5 == s4);
    lemma_release_all_owns(s4, held, as_values(locs));
    let t = s.pass_outgoing_args(locs);
    assert(t == s4.release_all(as_values(locs)));
    lemma_passed(s, s4, t, m, from, held, locs);
}

/// What holds when all arguments are passed, in terms of the state before.
proof fn lemma_passed(
    s: State,
    u: State,
    t: State,
    m: Machine,
    from: Seq<Insn>,
    held: Seq<ValueLocation>,
    locs: Seq<CCLoc>,
)
    requires
        ({
            let p = s.passing(m, from, held, locs);
            let n = ran(m, from, u.code);
            &&& locs.len() <= s.stack.len()
            &&& s.carries(p.s, m, from, held)
            &&& forall|i: int|
                0 <= i < p.base() && #[trigger] p.s.stack[i] is Reg ==> !is_scratch(
                    p.s.stack[i]->Reg_0,
                )
            &&& u.reached(m, from)
            &&& u.stack == p.s.stack.take(p.base())
            &&& u.depth == p.s.depth + p.slots()
            &&& u.frame(n) == p.s.frame(p.start)
            &&& u.undisturbed(n, p)
            &&& forall|j: int|
                0 <= j < p.locs.len() ==> match #[trigger] p.locs[j] {
                    CCLoc::Stack(o) => load(n.mem, p.low() + 8 * o) == p.val(j),
                    CCLoc::Reg(r) => n.gpr(r) == p.val(j),
                }
            &&& s.depth <= p.s.depth
        }),
        t == (State { regs: t.regs, ok: t.ok, ..u }),
        t.owns(held),
    ensures
        s.hands_over(t, m, from, held, locs),
{
    let p = s.passing(m, from, held, locs);
    let n = ran(m, from, t.code);
    let before = ran(m, from, s.code);
    let base = p.base();
    assert forall|j: int| 0 <= j < locs.len() implies parameter_value(n, #[trigger] locs[j])
        == s.value_at(before, base + j) by {
        assert(p.s.value_at(p.start, base + j) == s.value_at(before, base + j));
    }
    assert forall|i: int| 0 <= i < base implies #[trigger] t.value_at(n, i) == s.value_at(
        before,
        i,
    ) by {
        assert(u.value_at(n, i) == p.s.value_at(p.start, i));
        assert(p.s.value_at(p.start, i) == s.value_at(before, i));
    }
    assert forall|i: int| 0 <= i < base && #[trigger] t.stack[i] is Reg implies !is_scratch(
        t.stack[i]->Reg_0,
    ) by {
        assert(t.stack[i] == p.s.stack[i]);
    }
    assert forall|a: int| a >= before.rsp implies #[trigger] (n.mem)(a) == (before.mem)(a) by {
        assert((p.start.mem)(a) == (before.mem)(a));
    }
    assert forall|g: GPR| g.valid() && reserved(g) + uses(held, g) > 0 implies #[trigger] n.gpr(g)
        == before.gpr(g) by {
        assert(p.start.gpr(g) == before.gpr(g));
    }
}

/// Passing the values on top of the stack to a function: each parameter has its value, the values
/// below are as they were and in no register that the callee may change, no word that was on the
/// machine's stack is overwritten, and the accounts are in order.
pub proof fn passing_to_function(s: State, m: Machine, locs: Seq<CCLoc>)
    requires
        s.at(m),
        s.pass_outgoing_args(locs).ok,
        parameter_places(locs),
        s.framed(s.stack.len() - locs.len() + stacked(locs, locs.len() as int)),
    ensures
        s.hands_over(s.pass_outgoing_args(locs), m, s.code, none(), locs),
{
    broadcast use lemma_ran_nothing;

    lemma_passing(s, m, s.code, none(), locs);
}

/// Pushing the results of a call: they are on the stack in their order, and each register that
/// has one is counted for it.
pub proof fn results_pushed(s: State, rets: Seq<CCLoc>)
    requires
        s.accounted(),
        forall|j: int|
            0 <= j < rets.len() ==> (#[trigger] rets[j]) is Reg && place_is_sound(rets[j]),
        s.push_returns(rets).ok,
    ensures
        s.push_returns(rets).accounted(),
        s.push_returns(rets).stack == s.stack + as_values(rets),
        s.push_returns(rets).code == s.code,
        s.push_returns(rets).depth == s.depth,
    decreases rets.len(),
{
    if rets.len() == 0 {
        assert(s.stack + as_values(rets) =~= s.stack);
    } else {
        let rest = rets.drop_last();
        let val = rets.last().as_value();
        lemma_push_returns_ok(s, rets, rest.len() as int);
        assert(rets.take(rest.len() as int) =~= rest);
        assert forall|j: int| 0 <= j < rest.len() implies (#[trigger] rest[j]) is Reg
            && place_is_sound(rest[j]) by {
            assert(rest[j] == rets[j]);
        }
        results_pushed(s, rest);
        let u = s.push_returns(rest);
        assert(rets[rets.len() - 1] is Reg && place_is_sound(rets[rets.len() - 1]));
        lemma_owns_mark_used(u, none(), val->Reg_0);
        lemma_owns_push(u.mark_value(val), none(), val);
        assert(s.push_returns(rets).stack =~= s.stack + as_values(rets));
    }
}

/// A direct call takes the arguments from the stack and pushes the results, and keeps the
/// accounts of registers.
pub proof fn call_accounts(s: State, label: Label, args: Seq<CCLoc>, rets: Seq<CCLoc>)
    requires
        s.accounted(),
        s.call_direct(label, args, rets).ok,
        parameter_places(args),
        forall|j: int|
            0 <= j < rets.len() ==> (#[trigger] rets[j]) is Reg && place_is_sound(rets[j]),
        s.framed(s.stack.len() - args.len() + stacked(args, args.len() as int)),
    ensures
        ({
            let t = s.call_direct(label, args, rets);
            let base = s.stack.len() - args.len();
            &&& t.accounted()
            &&& t.stack.len() == base + rets.len()
            &&& t.stack.skip(base as int) == as_values(rets)
        }),
{
    let u = s.pass_outgoing_args(args);
    let v = u.emit(Insn::Call(label));
    let base = s.stack.len() - args.len();
    lemma_push_returns_ok(v, rets, 0);
    assert(rets.take(0) =~= Seq::empty());
    lemma_pass_outgoing_args_steps(s, args);
    passing_to_function(s, Machine::some(), args);
    lemma_owns_code(u, v, none());
    results_pushed(v, rets);
    assert(s.call_direct(label, args, rets).stack.skip(base as int) =~= as_values(rets));
}

/// A direct call gets to the function at the label, with each parameter in its place and the stack
/// where the function expects it. Its results are on top of the stack afterwards, and no code
/// comes between.
pub proof fn calling_direct(
    s: State,
    m: Machine,
    label: Label,
    args: Seq<CCLoc>,
    rets: Seq<CCLoc>,
)
    requires
        s.at(m),
        s.call_direct(label, args, rets).ok,
        parameter_places(args),
        forall|j: int|
            0 <= j < rets.len() ==> (#[trigger] rets[j]) is Reg && place_is_sound(rets[j]),
        s.framed(s.stack.len() - args.len() + stacked(args, args.len() as int)),
    ensures
        ({
            let t = s.call_direct(label, args, rets);
            let n = ran(m, s.code, t.code);
            let base = s.stack.len() - args.len();
            &&& n.next == Control::CallLabel(label)
            &&& forall|j: int|
                0 <= j < args.len() ==> parameter_value(n, #[trigger] args[j]) == s.value_at(
                    m,
                    base + j,
                )
            &&& forall|i: int|
                0 <= i < base && #[trigger] t.stack[i] is Reg ==> !is_scratch(t.stack[i]->Reg_0)
            &&& forall|i: int| 0 <= i < base ==> #[trigger] t.value_at(n, i) == s.value_at(m, i)
            &&& t.stack.skip(base as int) == as_values(rets)
            &&& t.depth == s.pass_outgoing_args(args).depth
        }),
{
    broadcast use {lemma_ran_nothing, lemma_ran_push};

    let u = s.pass_outgoing_args(args);
    let v = u.emit(Insn::Call(label));
    let t = s.call_direct(label, args, rets);
    let base = s.stack.len() - args.len();
    lemma_push_returns_ok(v, rets, 0);
    assert(rets.take(0) =~= Seq::empty());
    lemma_pass_outgoing_args_steps(s, args);
    passing_to_function(s, m, args);
    lemma_owns_code(u, v, none());
    results_pushed(v, rets);
    assert(t.stack.skip(base as int) =~= as_values(rets));
    let n = ran(m, s.code, t.code);
    let passed = ran(m, s.code, u.code);
    assert forall|j: int| 0 <= j < args.len() implies parameter_value(n, #[trigger] args[j])
        == s.value_at(m, base + j) by {
        assert(parameter_value(passed, args[j]) == s.value_at(m, base + j));
    }
    assert forall|i: int| 0 <= i < base && #[trigger] t.stack[i] is Reg implies !is_scratch(
        t.stack[i]->Reg_0,
    ) by {
        assert(t.stack[i] == u.stack[i]);
    }
    assert forall|i: int| 0 <= i < base implies #[trigger] t.value_at(n, i) == s.value_at(m, i) by {
        assert(t.stack[i] == u.stack[i]);
        assert(u.value_at(passed, i) == s.value_at(m, i));
    }
}

/// A call of a function whose address is filled in later: before the call the arguments are
/// passed as to any other function, the address that stands for the unknown one is in a register,
/// and nothing else has changed since. Where `rax` is free that is the register, so that every
/// parameter still has its value, unless one is passed in `rax`. The results are on the stack
/// afterwards, and the accounts of registers are in order.
pub proof fn calling_unknown(s: State, m: Machine, args: Seq<CCLoc>, rets: Seq<CCLoc>)
    requires
        s.at(m),
        s.call_unknown(args, rets).ok,
        parameter_places(args),
        forall|j: int|
            0 <= j < rets.len() ==> (#[trigger] rets[j]) is Reg && place_is_sound(rets[j]),
        s.framed(s.stack.len() - args.len() + stacked(args, args.len() as int)),
    ensures
        ({
            let u = s.pass_outgoing_args(args);
            let (v, temp) = u.take(GPRType::Rq);
            let loading = Insn::Mov {
                w: Width::Q,
                dst: Operand::rq(temp.id()),
                src: Operand::Imm(UNKNOWN_ADDRESS as i64),
            };
            let loaded = v.emit(loading);
            let n = ran(m, s.code, loaded.code);
            let t = s.call_unknown(args, rets);
            let base = s.stack.len() - args.len();
            &&& s.hands_over(u, m, s.code, none(), args)
            &&& n == ran(m, s.code, u.code).with_gpr(temp, UNKNOWN_ADDRESS)
            &&& ran(m, s.code, loaded.emit(Insn::CallReg(temp.id())).code).next == Control::Call(
                UNKNOWN_ADDRESS,
            )
            &&& u.regs.is_free(rax()) ==> temp == rax()
            &&& u.regs.is_free(rax()) && !args.contains(CCLoc::Reg(rax())) ==> forall|j: int|
                0 <= j < args.len() ==> parameter_value(n, #[trigger] args[j]) == s.value_at(
                    m,
                    base + j,
                )
            &&& t.accounted()
            &&& t.stack == u.stack + as_values(rets)
            &&& t.depth == u.depth
        }),
{
    broadcast use {lemma_ran_nothing, lemma_ran_push};

    let u = s.pass_outgoing_args(args);
    let (v, temp) = u.take(GPRType::Rq);
    let loading = Insn::Mov {
        w: Width::Q,
        dst: Operand::rq(temp.id()),
        src: Operand::Imm(UNKNOWN_ADDRESS as i64),
    };
    let loaded = v.emit(loading);
    let w = loaded.emit(Insn::CallReg(temp.id()));
    let base = s.stack.len() - args.len();
    lemma_push_returns_ok(w.release(temp), rets, 0);
    assert(rets.take(0) =~= Seq::empty());
    lemma_pass_outgoing_args_steps(s, args);
    passing_to_function(s, m, args);
    taken_is_unused(u, none(), GPRType::Rq);
    lemma_owns_code(v, w, one(ValueLocation::Reg(temp)));
    lemma_owns_free(w, none(), ValueLocation::Reg(temp));
    results_pushed(w.release(temp), rets);
    lemma_u64_views(UNKNOWN_ADDRESS);
    let n = ran(m, s.code, loaded.code);
    let passed = ran(m, s.code, u.code);
    assert(n == passed.with_gpr(temp, UNKNOWN_ADDRESS));
    if u.regs.is_free(rax()) {
        lemma_lowest_free(u.regs, GPRType::Rq);
        assert(GPR::make(GPRType::Rq, rq::RAX) == rax());
        if !args.contains(CCLoc::Reg(rax())) {
            assert forall|j: int| 0 <= j < args.len() implies parameter_value(n, #[trigger] args[j])
                == s.value_at(m, base + j) by {
                assert(args[j] != CCLoc::Reg(rax()));
                assert(place_is_sound(args[j]));
                assert(parameter_value(passed, args[j]) == s.value_at(m, base + j));
            }
        }
    }
}

proof fn lemma_push_returns_frame(s: State, rets: Seq<CCLoc>)
    ensures
        s.push_returns(rets).code == s.code,
        s.push_returns(rets).relocs == s.relocs,
    decreases rets.len(),
{
    if rets.len() > 0 {
        lemma_push_returns_frame(s, rets.drop_last());
    }
}

/// A call of a function whose address is filled in later is recorded once, for the function that
/// is being compiled, with the name and the place of the instruction that loads the address. The
/// call through that register follows at once. The record is the only one added once the arguments
/// are passed.
pub proof fn calls_are_recorded(
    s: State,
    function: u32,
    name: ir::ExternalName,
    args: Seq<CCLoc>,
    rets: Seq<CCLoc>,
)
    requires
        s.pass_outgoing_args(args).code.len() <= usize::MAX,
    ensures
        ({
            let t = s.call_relocated(function, name, args, rets);
            let reloc = t.relocs.last();
            let at = reloc.at as int;
            &&& t.relocs.drop_last() == s.pass_outgoing_args(args).relocs
            &&& reloc.function == function
            &&& reloc.name == name
            &&& at + 1 < t.code.len()
            &&& t.code[at] is Mov
            &&& t.code[at]->Mov_w is Q
            &&& t.code[at]->Mov_src == Operand::Imm(UNKNOWN_ADDRESS as i64)
            &&& t.code[at + 1] is CallReg
            &&& t.code[at]->Mov_dst == Operand::rq(t.code[at + 1]->CallReg_0)
        }),
{
    let u = s.pass_outgoing_args(args);
    let (v, temp) = u.take(GPRType::Rq);
    let loading = Insn::Mov {
        w: Width::Q,
        dst: Operand::rq(temp.id()),
        src: Operand::Imm(UNKNOWN_ADDRESS as i64),
    };
    let w = v.emit(loading).emit(Insn::CallReg(temp.id())).release(temp);
    lemma_push_returns_frame(w, rets);
    let t = s.call_relocated(function, name, args, rets);
    assert(t.relocs.drop_last() =~= u.relocs);
}

/// No argument is passed in `rax`.
pub proof fn no_argument_in_rax(types: Seq<SignlessType>)
    requires
        passable_args(types),
    ensures
        !arg_locs_of(types).contains(CCLoc::Reg(rax())),
{
    let locs = arg_locs_of(types);
    assert forall|i: int| 0 <= i < locs.len() implies locs[i] != CCLoc::Reg(rax()) by {
        let n = types.len() as int;
        lemma_ints_before(types, i, i + 1);
        lemma_ints_before(types, i + 1, n);
        lemma_ints_before(types, 0, i);
    }
}

/// The parameters of the function that grows the memory, or of that which tells its size.
pub open spec fn memory_args(grow: bool) -> Seq<CCLoc> {
    if grow {
        memory_grow_args()
    } else {
        memory_size_args()
    }
}

/// Asking for the size of the memory and growing it are calls of functions whose address is not
/// known: all that is said of `calling_unknown` holds of them, with the number of the memory as
/// the last argument. The size is on the stack afterwards, and the accounts of registers are in
/// order.
pub proof fn calling_memory_functions(
    s: State,
    m: Machine,
    function: u32,
    name: ir::ExternalName,
    grow: bool,
)
    requires
        s.at(m),
        s.push(ValueLocation::Immediate(Value::I32(0))).call_unknown(
            memory_args(grow),
            memory_rets(),
        ).ok,
        s.framed(s.stack.len() + 1 - memory_args(grow).len()),
    ensures
        ({
            let pushed = s.push(ValueLocation::Immediate(Value::I32(0)));
            let args = memory_args(grow);
            let u = pushed.pass_outgoing_args(args);
            let t = pushed.call_relocated(function, name, args, memory_rets());
            let at_call = ran(m, s.code, u.code).with_gpr(rax(), UNKNOWN_ADDRESS);
            let base = pushed.stack.len() - args.len();
            &&& t.accounted()
            &&& t.stack == u.stack.push(ValueLocation::Reg(rax()))
            &&& t.stack.len() == base + 1
            &&& pushed.hands_over(u, m, s.code, none(), args)
            &&& u.regs.is_free(rax()) ==> forall|j: int|
                0 <= j < args.len() ==> parameter_value(at_call, #[trigger] args[j])
                    == pushed.value_at(m, base + j)
        }),
{
    let zero = ValueLocation::Immediate(Value::I32(0));
    let pushed = s.push(zero);
    let args = memory_args(grow);
    let rets = memory_rets();
    lemma_memory_places(grow);
    assert(pushed.accounted()) by {
        lemma_owns_hold(s, none(), zero);
        lemma_owns_push(s, none(), zero);
    }
    assert(pushed.framed(pushed.stack.len() - args.len()));
    calling_unknown(pushed, m, args, rets);
    let u = pushed.pass_outgoing_args(args);
    assert(as_values(rets) =~= seq![ValueLocation::Reg(rax())]);
    assert(u.stack + as_values(rets) =~= u.stack.push(ValueLocation::Reg(rax())));
    lemma_owns_code(
        pushed.call_unknown(args, rets),
        pushed.call_relocated(function, name, args, rets),
        none(),
    );
}

/// Where these functions take their parameters and give their result.
proof fn lemma_memory_places(grow: bool)
    ensures
        parameter_places(memory_args(grow)),
        stacked(memory_args(grow), memory_args(grow).len() as int) == 0,
        !memory_args(grow).contains(CCLoc::Reg(rax())),
        memory_rets() == seq![CCLoc::Reg(rax())],
{
    let result = seq![SignlessType::I32];
    let types = if grow {
        seq![SignlessType::I32, SignlessType::I32]
    } else {
        result
    };
    lemma_few_integers(types);
    lemma_few_integers(result);
    parameters_have_places(types);
    no_argument_in_rax(types);
    assert(memory_rets() =~= seq![CCLoc::Reg(rax())]);
    reveal_with_fuel(stacked, 3);
    reveal_with_fuel(ints_before, 3);
}

/// One or two integers can be passed.
proof fn lemma_few_integers(types: Seq<SignlessType>)
    requires
        types.len() <= 2,
        forall|i: int| 0 <= i < types.len() ==> #[trigger] types[i] == SignlessType::I32,
    ensures
        passable_args(types),
        types.len() > 0 ==> ret_loc(types, 0) == CCLoc::Reg(rax()),
{
    reveal_with_fuel(ints_before, 3);
}

} // verus!
