//! How values are passed to blocks.

use vstd::prelude::*;

use crate::blocks::{as_values, lemma_pass_block_args_ok, lemma_save_regs_ok, SaveSet};
use crate::insn::{Insn, Operand, Width};
use crate::laws::blocks::{
    changing_depth, lemma_less_room, lemma_load_above, saving_registers, slot_limit,
};
use crate::laws::none;
use crate::location::{CCLoc, ValueLocation, WORD_SIZE};
use crate::machine::{load, trunc, Machine};
use crate::ownership::{
    lemma_owns_free, lemma_owns_mark_used, lemma_owns_pop, lemma_uses_at, lemma_uses_push, reserved,
    uses,
};
use crate::registers::{rq, GPRType, GPR};
use crate::simulation::{copy_to_register, copy_to_slot, lemma_ran_nothing, ran};
use crate::state::State;

verus! {

/// What is in hand after a value was passed in `dst`.
pub open spec fn passed_in(held: Seq<ValueLocation>, dst: CCLoc) -> Seq<ValueLocation> {
    match dst {
        CCLoc::Reg(r) => held.push(ValueLocation::Reg(r)),
        CCLoc::Stack(_) => held,
    }
}

/// What is in hand after values were passed in all of `args`, the last one first.
pub open spec fn passed(held: Seq<ValueLocation>, args: Seq<CCLoc>) -> Seq<ValueLocation>
    decreases args.len(),
{
    if args.len() == 0 {
        held
    } else {
        passed(passed_in(held, args.last()), args.drop_last())
    }
}

impl State {
    /// Whether a value can be passed in `dst` when the machine's stack may grow by `room` words:
    /// a register must not be in hand already, and a slot must be on the stack.
    pub open spec fn can_pass(self, held: Seq<ValueLocation>, dst: CCLoc, room: int) -> bool {
        match dst {
            CCLoc::Reg(r) => {
                &&& ValueLocation::Reg(r).valid()
                &&& reserved(r) + uses(held, r) == 0
            },
            CCLoc::Stack(o) => 0 <= self.depth + o && self.depth + o + room < slot_limit(),
        }
    }

    /// Whether `dst` has the value `v` that came from `loc`. Of a small constant in a slot only
    /// the lower half is known.
    pub open spec fn has_arg(self, m: Machine, dst: CCLoc, loc: ValueLocation, v: u64) -> bool {
        let got = self.value_of(m, dst.as_value());
        &&& trunc(Width::D, got) == trunc(Width::D, v)
        &&& !(dst is Stack && loc.is_small()) ==> got == v
    }

    /// Whether `a` is the address of a byte of the slot `dst`, counted from the given frame.
    pub open spec fn in_slot(frame: int, dst: CCLoc, a: int) -> bool {
        dst is Stack && frame + 8 * dst->Stack_0 <= a < frame + 8 * dst->Stack_0 + 8
    }

    /// Whether the step from `self` to `t` took the top of the stack, passed it in `dst`, and
    /// kept the values from `lo` up, what is in hand, and the memory but for the slot `dst`.
    pub open spec fn passes(
        self,
        t: State,
        m: Machine,
        from: Seq<Insn>,
        held: Seq<ValueLocation>,
        dst: CCLoc,
        lo: int,
    ) -> bool {
        let before = ran(m, from, self.code);
        let n = ran(m, from, t.code);
        let last = self.stack.len() - 1;
        &&& t.reached(m, from)
        &&& t.stack.len() == last
        &&& self.depth <= t.depth <= self.depth + (last + 1 - lo)
        &&& t.owns(passed_in(held, dst))
        &&& forall|room: int| #[trigger] self.framed(room) ==> t.framed(room - (last + 1 - lo))
        &&& t.frame(n) == self.frame(before)
        &&& forall|k: int|
            lo <= k < last ==> #[trigger] t.value_at(n, k) == self.value_at(before, k)
        &&& forall|k: int|
            lo <= k < last ==> #[trigger] t.stack[k] == self.stack[k] || t.stack[k] is Stack
                && self.depth + t.stack[k]->Stack_0 < 0
        &&& t.has_arg(n, dst, self.stack[last], self.value_at(before, last))
        &&& forall|g: GPR|
            g.valid() && reserved(g) + uses(held, g) > 0 ==> #[trigger] n.gpr(g) == before.gpr(g)
        &&& forall|a: int|
            a >= before.rsp && !State::in_slot(self.frame(before), dst, a) ==> #[trigger] (n.mem)(a)
                == (before.mem)(a)
    }
}

/// The address of a slot.
pub proof fn lemma_slot(s: State, m: Machine, offset: i32)
    requires
        s.depth < slot_limit(),
        0 <= s.depth + offset < slot_limit(),
    ensures
        m.rsp + s.slot_disp(offset) == s.frame(m) + 8 * offset,
{
    let words = s.depth as i32 + offset;
    let size = WORD_SIZE as i32;
    assert(words * size == 8 * words) by (nonlinear_arith)
        requires
            size == 8,
    ;
}

proof fn lemma_framed_popped(s: State, t: State, room: int, less: int)
    requires
        s.framed(room),
        s.stack.len() > 0,
        t.stack == s.stack.drop_last(),
        t.depth == s.depth,
        less >= 0,
    ensures
        t.framed(room - less),
{
    assert forall|i: int| 0 <= i < t.stack.len() && #[trigger] t.stack[i] is Stack implies 0
        <= t.depth + t.stack[i]->Stack_0 && t.depth + t.stack[i]->Stack_0 + (room - less)
        < slot_limit() by {
        assert(s.stack[i] is Stack);
    }
}

/// Passing the top of the stack in a register, once nothing else that is to be passed is in it.
proof fn lemma_pass_in_reg(
    s: State,
    m: Machine,
    from: Seq<Insn>,
    held: Seq<ValueLocation>,
    r: GPR,
    lo: int,
)
    requires
        s.reached(m, from),
        s.owns(held),
        0 <= lo < s.stack.len(),
        ValueLocation::Reg(r).valid(),
        reserved(r) + uses(held, r) == 0,
        s.stack.last() == ValueLocation::Reg(r) || forall|k: int|
            lo <= k < s.stack.len() - 1 ==> #[trigger] s.stack[k] != ValueLocation::Reg(r),
        s.mark_used(r).pop_into(ValueLocation::Reg(r)).ok,
    ensures
        s.passes(
            s.mark_used(r).pop_into(ValueLocation::Reg(r)),
            m,
            from,
            held,
            CCLoc::Reg(r),
            lo,
        ),
{
    broadcast use lemma_uses_push;

    let dst = ValueLocation::Reg(r);
    let before = ran(m, from, s.code);
    let last = s.stack.len() - 1;
    let s2 = s.mark_used(r);
    let (s3, val) = s2.pop();
    let s4 = s3.copy_value(val, dst);
    let t = s4.free_value(val);
    assert(s2.ok && s3.ok && s4.ok);
    lemma_owns_mark_used(s, held, r);
    lemma_owns_pop(s2, held.push(dst));
    assert(s.stack[last].valid());
    let rsp = GPR::Rq(rq::RSP);
    assert(s3.regs.count(rsp) >= s3.known_uses(held.push(dst).push(val), rsp));
    copy_to_register(s3, m, from, val, r);
    lemma_owns_free(s4, held.push(dst), val);
    let n = ran(m, from, t.code);
    assert forall|k: int| lo <= k < last implies #[trigger] t.value_at(n, k) == s.value_at(
        before,
        k,
    ) by {
        assert(s.stack[k].valid());
        if s.stack[k] is Reg {
            let g = s.stack[k]->Reg_0;
            lemma_uses_at(s3.stack, k, g);
            assert(s3.regs.count(g) >= s3.known_uses(held.push(dst).push(val), g));
            if g == r {
                assert(val == dst);
                assert(t.code == s.code);
            }
        }
    }
    assert forall|g: GPR| g.valid() && reserved(g) + uses(held, g) > 0 implies #[trigger] n.gpr(g)
        == before.gpr(g) by {
        assert(s3.regs.count(g) >= s3.known_uses(held.push(dst).push(val), g));
    }
    assert forall|room: int| #[trigger] s.framed(room) implies t.framed(
        room - (last + 1 - lo),
    ) by {
        lemma_framed_popped(s, t, room, last + 1 - lo);
    }
}

/// Passing the top of the stack in a slot.
proof fn lemma_pass_in_slot(
    s: State,
    m: Machine,
    from: Seq<Insn>,
    held: Seq<ValueLocation>,
    o: i32,
    lo: int,
)
    requires
        s.reached(m, from),
        s.owns(held),
        s.framed(0),
        0 <= lo < s.stack.len(),
        0 <= s.depth + o < slot_limit(),
        forall|k: int|
            lo <= k < s.stack.len() - 1 ==> #[trigger] s.stack[k] != ValueLocation::Stack(o),
        s.pop_into(ValueLocation::Stack(o)).ok,
    ensures
        s.passes(s.pop_into(ValueLocation::Stack(o)), m, from, held, CCLoc::Stack(o), lo),
{
    broadcast use lemma_uses_push;

    let before = ran(m, from, s.code);
    let last = s.stack.len() - 1;
    let (s3, val) = s.pop();
    let s4 = s3.copy_value(val, ValueLocation::Stack(o));
    let t = s4.free_value(val);
    assert(s3.ok && s4.ok);
    lemma_owns_pop(s, held);
    assert(s.stack[last].valid());
    let rsp = GPR::Rq(rq::RSP);
    assert(s3.regs.count(rsp) >= s3.known_uses(held.push(val), rsp));
    copy_to_slot(s3, m, from, val, o);
    lemma_owns_free(s4, held, val);
    let n = ran(m, from, t.code);
    lemma_slot(s, before, o);
    let addr = s.frame(before) + 8 * o;
    assert forall|k: int| lo <= k < last implies #[trigger] t.value_at(n, k) == s.value_at(
        before,
        k,
    ) by {
        assert(s.stack[k].valid());
        if s.stack[k] is Reg {
            let g = s.stack[k]->Reg_0;
            lemma_uses_at(s3.stack, k, g);
            assert(s3.regs.count(g) >= s3.known_uses(held.push(val), g));
        } else if s.stack[k] is Stack {
            let other = s.stack[k]->Stack_0;
            lemma_slot(s, before, other);
            assert(other != o);
            lemma_load_beside(before, n, addr, s.frame(before) + 8 * other);
        }
    }
    assert forall|g: GPR| g.valid() && reserved(g) + uses(held, g) > 0 implies #[trigger] n.gpr(g)
        == before.gpr(g) by {
        assert(s3.regs.count(g) >= s3.known_uses(held.push(val), g));
    }
    assert forall|room: int| #[trigger] s.framed(room) implies t.framed(
        room - (last + 1 - lo),
    ) by {
        lemma_framed_popped(s, t, room, last + 1 - lo);
    }
}

/// A word that does not share a byte with what changed.
proof fn lemma_load_beside(m: Machine, n: Machine, changed: int, addr: int)
    requires
        forall|a: int|
            !(changed <= a < changed + 8) ==> #[trigger] (n.mem)(a) == (m.mem)(a),
        addr + 8 <= changed || changed + 8 <= addr,
    ensures
        load(n.mem, addr) == load(m.mem, addr),
{
}

/// Passing the top of the stack: whatever else is to be passed is moved out of the way first.
proof fn lemma_pass_block_arg(
    s: State,
    m: Machine,
    from: Seq<Insn>,
    held: Seq<ValueLocation>,
    dst: CCLoc,
    i: int,
)
    requires
        s.reached(m, from),
        s.owns(held),
        0 <= i < s.stack.len(),
        s.framed(i + 1),
        s.can_pass(held, dst, 0),
        dst is Stack ==> forall|k: int|
            s.stack.len() - 1 - i <= k < s.stack.len() - 1 ==> #[trigger] s.stack[k]
                != dst.as_value(),
        s.pass_block_arg(dst, i).ok,
    ensures
        s.passes(s.pass_block_arg(dst, i), m, from, held, dst, s.stack.len() - 1 - i),
{
    let lo = s.stack.len() - 1 - i;
    let last = s.stack.len() - 1;
    match dst {
        CCLoc::Stack(o) => {
            assert(s.framed(0));
            lemma_pass_in_slot(s, m, from, held, o, lo);
        },
        CCLoc::Reg(r) => {
            if !s.regs.is_free(r) && s.stack.last() != ValueLocation::Reg(r) {
                let s0 = s.need(i < s.stack.len());
                let s1 = s0.save_regs(SaveSet::One(r), lo, last + 1);
                let t = s.pass_block_arg(dst, i);
                assert(s1.ok);
                lemma_save_regs_ok(s0, SaveSet::One(r), lo, last + 1);
                assert(s0 == s);
                saving_registers(s, m, from, held, SaveSet::One(r), lo, last + 1);
                assert(s1.stack[last] == s.stack[last] || s1.stack[last] is Stack);
                lemma_pass_in_reg(s1, m, from, held, r, lo);
                assert(s1.need(r.valid()) == s1);
                lemma_passes_after_saving(s, s1, t, m, from, held, r, lo);
            } else {
                assert(s.stack.last() == ValueLocation::Reg(r) || forall|k: int|
                    lo <= k < last ==> #[trigger] s.stack[k] != ValueLocation::Reg(r)) by {
                    if s.regs.is_free(r) {
                        assert forall|k: int| lo <= k < last implies #[trigger] s.stack[k]
                            != ValueLocation::Reg(r) by {
                            if s.stack[k] == ValueLocation::Reg(r) {
                                lemma_uses_at(s.stack, k, r);
                                assert(s.regs.count(r) >= s.known_uses(held, r));
                            }
                        }
                    }
                }
                assert(s.need(r.valid()) == s);
                lemma_pass_in_reg(s, m, from, held, r, lo);
            }
        },
    }
}

/// Saving registers first changes nothing of what passing a value does.
proof fn lemma_passes_after_saving(
    s: State,
    u: State,
    t: State,
    m: Machine,
    from: Seq<Insn>,
    held: Seq<ValueLocation>,
    r: GPR,
    lo: int,
)
    requires
        s.carries(u, m, from, held),
        0 <= lo < s.stack.len(),
        s.depth <= u.depth <= s.depth + (s.stack.len() - lo),
        forall|room: int| #[trigger] s.framed(room) ==> u.framed(room - (s.stack.len() - lo)),
        forall|k: int|
            lo <= k < s.stack.len() ==> #[trigger] u.stack[k] == s.stack[k] || u.stack[k] is Stack
                && s.depth + u.stack[k]->Stack_0 < 0,
        u.passes(t, m, from, held, CCLoc::Reg(r), lo),
        t.depth == u.depth,
        forall|room: int| #[trigger] u.framed(room) ==> t.framed(room),
    ensures
        s.passes(t, m, from, held, CCLoc::Reg(r), lo),
{
    let before = ran(m, from, s.code);
    let mid = ran(m, from, u.code);
    let n = ran(m, from, t.code);
    let last = s.stack.len() - 1;
    assert(u.value_at(mid, last) == s.value_at(before, last));
    assert forall|k: int| lo <= k < last implies #[trigger] t.value_at(n, k) == s.value_at(
        before,
        k,
    ) by {
        assert(u.value_at(mid, k) == s.value_at(before, k));
    }
    assert forall|k: int| lo <= k < last implies #[trigger] t.stack[k] == s.stack[k]
        || t.stack[k] is Stack && s.depth + t.stack[k]->Stack_0 < 0 by {
        let loc = u.stack[k];
        assert(loc == s.stack[k] || loc is Stack && s.depth + loc->Stack_0 < 0);
    }
    assert forall|g: GPR| g.valid() && reserved(g) + uses(held, g) > 0 implies #[trigger] n.gpr(g)
        == before.gpr(g) by {
        assert(mid.gpr(g) == before.gpr(g));
    }
    assert forall|a: int| a >= before.rsp implies #[trigger] (n.mem)(a) == (before.mem)(a) by {
        assert((mid.mem)(a) == (before.mem)(a));
    }
    assert forall|room: int| #[trigger] s.framed(room) implies t.framed(
        room - (last + 1 - lo),
    ) by {
        assert(u.framed(room - (s.stack.len() - lo)));
    }
}

/// How many words passing `count` values may push: every value that is still to be passed, each
/// time.
#[verifier::opaque]
pub open spec fn pushes(count: nat) -> nat {
    count * count
}

proof fn lemma_pushes(count: nat)
    ensures
        pushes(0) == 0,
        count > 0 ==> pushes((count - 1) as nat) + count <= pushes(count),
{
    reveal(pushes);
    if count > 0 {
        assert((count - 1) * (count - 1) + count <= count * count) by (nonlinear_arith)
            requires
                count > 0,
        ;
    }
}

/// Whether `a` is in none of the slots among `args`.
pub open spec fn outside(frame: int, args: Seq<CCLoc>, a: int) -> bool {
    forall|j: int| 0 <= j < args.len() ==> !State::in_slot(frame, #[trigger] args[j], a)
}

impl State {
    /// Whether the value for `args[i]` is not in the slot `args[j]`.
    pub open spec fn clear_of(self, args: Seq<CCLoc>, i: int, j: int) -> bool {
        args[j] is Stack ==> self.stack[self.stack.len() - args.len() + i] != args[j].as_value()
    }

    /// Whether the values on top of the stack can be passed in `args`: the places are all
    /// different, none is in hand already, and no slot is written before the value in it was
    /// passed.
    pub open spec fn can_pass_all(self, held: Seq<ValueLocation>, args: Seq<CCLoc>) -> bool {
        let room = pushes(args.len()) as int;
        &&& args.len() <= self.stack.len()
        &&& self.framed(room)
        &&& forall|j: int| 0 <= j < args.len() ==> self.can_pass(held, #[trigger] args[j], room)
        &&& forall|i: int, j: int|
            0 <= i < j < args.len() ==> #[trigger] args[i] != #[trigger] args[j]
        &&& forall|i: int, j: int| 0 <= i < j < args.len() ==> #[trigger] self.clear_of(args, i, j)
    }

    /// Whether the step from `self` to `t` took the top values from the stack, passed them in
    /// `args`, and kept what is in hand, and the memory but for the slots among `args`.
    pub open spec fn passes_all(
        self,
        t: State,
        m: Machine,
        from: Seq<Insn>,
        held: Seq<ValueLocation>,
        args: Seq<CCLoc>,
    ) -> bool {
        let before = ran(m, from, self.code);
        let n = ran(m, from, t.code);
        let base = self.stack.len() - args.len();
        &&& t.reached(m, from)
        &&& t.stack.len() == base
        &&& t.owns(passed(held, args))
        &&& t.frame(n) == self.frame(before)
        &&& self.depth <= t.depth <= self.depth + pushes(args.len())
        &&& forall|j: int|
            0 <= j < args.len() ==> t.has_arg(
                n,
                #[trigger] args[j],
                self.stack[base + j],
                self.value_at(before, base + j),
            )
        &&& forall|g: GPR|
            g.valid() && reserved(g) + uses(held, g) > 0 ==> #[trigger] n.gpr(g) == before.gpr(g)
        &&& forall|a: int|
            a >= before.rsp && outside(self.frame(before), args, a) ==> #[trigger] (n.mem)(a) == (
            before.mem)(a)
    }
}

/// Passing the last argument leaves the others to be passed.
proof fn lemma_can_pass_rest(
    s: State,
    u: State,
    m: Machine,
    from: Seq<Insn>,
    held: Seq<ValueLocation>,
    args: Seq<CCLoc>,
)
    requires
        args.len() > 0,
        s.can_pass_all(held, args),
        s.passes(u, m, from, held, args.last(), s.stack.len() - args.len()),
    ensures
        u.can_pass_all(passed_in(held, args.last()), args.drop_last()),
{
    broadcast use lemma_uses_push;

    let count = args.len() as int;
    let rest = args.drop_last();
    let all = pushes(args.len()) as int;
    let room = pushes(rest.len()) as int;
    lemma_pushes(args.len());
    assert(u.framed(all - count));
    assert(u.framed(room)) by {
        lemma_less_room(u, all - count, room);
    }
    let base = s.stack.len() - count;
    assert forall|j: int| 0 <= j < rest.len() implies u.can_pass(
        passed_in(held, args.last()),
        #[trigger] rest[j],
        room,
    ) by {
        assert(rest[j] == args[j]);
        assert(s.can_pass(held, args[j], all));
        assert(args[j] != args[count - 1]);
    }
    assert forall|i: int, j: int| 0 <= i < j < rest.len() implies #[trigger] rest[i]
        != #[trigger] rest[j] by {
        assert(args[i] != args[j]);
    }
    assert forall|i: int, j: int| 0 <= i < j < rest.len() implies #[trigger] u.clear_of(
        rest,
        i,
        j,
    ) by {
        assert(rest[j] == args[j]);
        assert(s.clear_of(args, i, j));
        assert(s.can_pass(held, args[j], all));
        assert(u.stack[base + i] == s.stack[base + i] || u.stack[base + i] is Stack && s.depth
            + u.stack[base + i]->Stack_0 < 0);
    }
}

/// A place that has its value keeps it while the others get theirs.
proof fn lemma_arg_stays(
    u: State,
    t: State,
    m: Machine,
    from: Seq<Insn>,
    held: Seq<ValueLocation>,
    rest: Seq<CCLoc>,
    dst: CCLoc,
    loc: ValueLocation,
    v: u64,
)
    requires
        u.passes_all(t, m, from, passed_in(held, dst), rest),
        u.has_arg(ran(m, from, u.code), dst, loc, v),
        dst is Reg ==> ValueLocation::Reg(dst->Reg_0).valid(),
        dst is Stack ==> 0 <= u.depth + dst->Stack_0 && u.depth + dst->Stack_0 + pushes(rest.len())
            < slot_limit() && u.depth + pushes(rest.len()) < slot_limit(),
        forall|j: int| 0 <= j < rest.len() ==> #[trigger] rest[j] != dst,
    ensures
        t.has_arg(ran(m, from, t.code), dst, loc, v),
{
    broadcast use lemma_uses_push;

    let before = ran(m, from, u.code);
    let n = ran(m, from, t.code);
    match dst {
        CCLoc::Reg(r) => {
            assert(uses(passed_in(held, dst), r) > 0);
            assert(n.gpr(r) == before.gpr(r));
        },
        CCLoc::Stack(o) => {
            lemma_slot(u, before, o);
            lemma_slot(t, n, o);
            let addr = u.frame(before) + 8 * o;
            assert forall|a: int| addr <= a < addr + 8 implies #[trigger] (n.mem)(a) == (
            before.mem)(a) by {
                lemma_outside(u.frame(before), rest, o, a);
            }
            lemma_load_same(before, n, addr);
        },
    }
}

proof fn lemma_load_same(m: Machine, n: Machine, addr: int)
    requires
        forall|a: int| addr <= a < addr + 8 ==> #[trigger] (n.mem)(a) == (m.mem)(a),
    ensures
        load(n.mem, addr) == load(m.mem, addr),
{
}

proof fn lemma_outside(frame: int, rest: Seq<CCLoc>, o: i32, a: int)
    requires
        frame + 8 * o <= a < frame + 8 * o + 8,
        forall|j: int| 0 <= j < rest.len() ==> #[trigger] rest[j] != CCLoc::Stack(o),
    ensures
        outside(frame, rest, a),
{
    assert forall|j: int| 0 <= j < rest.len() implies !State::in_slot(
        frame,
        #[trigger] rest[j],
        a,
    ) by {
        assert(rest[j] != CCLoc::Stack(o));
    }
}

/// Passing all arguments with `held` in hand.
proof fn lemma_pass_block_args(
    s: State,
    m: Machine,
    from: Seq<Insn>,
    held: Seq<ValueLocation>,
    args: Seq<CCLoc>,
)
    requires
        s.reached(m, from),
        s.owns(held),
        s.can_pass_all(held, args),
        s.pass_block_args(args, args.len()).ok,
    ensures
        s.passes_all(s.pass_block_args(args, args.len()), m, from, held, args),
    decreases args.len(),
{
    let count = args.len() as int;
    let before = ran(m, from, s.code);
    let base = s.stack.len() - count;
    lemma_pushes(args.len());
    if args.len() > 0 {
        let dst = args.last();
        let rest = args.drop_last();
        let u = s.pass_block_arg(dst, count - 1);
        let t = u.pass_block_args(rest, rest.len());
        let all = pushes(args.len()) as int;
        assert(t == s.pass_block_args(args, args.len()));
        lemma_pass_block_args_ok(u, rest, rest.len());
        assert(args[count - 1] == dst);
        assert(s.can_pass(held, args[count - 1], all));
        lemma_less_room(s, all, count);
        assert(dst is Stack ==> forall|k: int|
            base <= k < s.stack.len() - 1 ==> #[trigger] s.stack[k] != dst.as_value()) by {
            if dst is Stack {
                assert forall|k: int| base <= k < s.stack.len() - 1 implies #[trigger] s.stack[k]
                    != dst.as_value() by {
                    assert(s.clear_of(args, k - base, count - 1));
                }
            }
        }
        lemma_pass_block_arg(s, m, from, held, dst, count - 1);
        lemma_can_pass_rest(s, u, m, from, held, args);
        lemma_pass_block_args(u, m, from, passed_in(held, dst), rest);
        let last = s.stack.len() - 1;
        assert forall|j: int| 0 <= j < rest.len() implies #[trigger] rest[j] != dst by {
            assert(rest[j] == args[j]);
            assert(args[j] != args[count - 1]);
        }
        lemma_arg_stays(
            u,
            t,
            m,
            from,
            held,
            rest,
            dst,
            s.stack[last],
            s.value_at(before, last),
        );
        assert forall|j: int|
            0 <= j < count - 1 && #[trigger] args[j] is Stack implies 0 <= s.depth
            + args[j]->Stack_0 by {
            assert(s.can_pass(held, args[j], all));
        }
        lemma_passes_composed(s, u, t, m, from, held, args);
    }
}

proof fn lemma_passes_composed(
    s: State,
    u: State,
    t: State,
    m: Machine,
    from: Seq<Insn>,
    held: Seq<ValueLocation>,
    args: Seq<CCLoc>,
)
    requires
        args.len() > 0,
        args.len() <= s.stack.len(),
        s.passes(u, m, from, held, args.last(), s.stack.len() - args.len()),
        u.passes_all(t, m, from, passed_in(held, args.last()), args.drop_last()),
        t.has_arg(
            ran(m, from, t.code),
            args.last(),
            s.stack[s.stack.len() - 1],
            s.value_at(ran(m, from, s.code), s.stack.len() - 1),
        ),
    ensures
        s.passes_all(t, m, from, held, args),
{
    let count = args.len() as int;
    let before = ran(m, from, s.code);
    let mid = ran(m, from, u.code);
    let n = ran(m, from, t.code);
    let base = s.stack.len() - count;
    let rest = args.drop_last();
    lemma_pushes(args.len());
    assert forall|j: int| 0 <= j < count implies t.has_arg(
        n,
        #[trigger] args[j],
        s.stack[base + j],
        s.value_at(before, base + j),
    ) by {
        if j < count - 1 {
            assert(rest[j] == args[j]);
            assert(u.value_at(mid, base + j) == s.value_at(before, base + j));
            assert(t.has_arg(n, rest[j], u.stack[base + j], u.value_at(mid, base + j)));
            assert(u.stack[base + j] == s.stack[base + j] || u.stack[base + j] is Stack && s.depth
                + u.stack[base + j]->Stack_0 < 0);
        }
    }
    assert forall|g: GPR| g.valid() && reserved(g) + uses(held, g) > 0 implies #[trigger] n.gpr(g)
        == before.gpr(g) by {
        assert(mid.gpr(g) == before.gpr(g));
        lemma_passed_in_uses(held, args.last(), g);
    }
    assert forall|a: int|
        a >= before.rsp && outside(s.frame(before), args, a) implies #[trigger] (n.mem)(a) == (
    before.mem)(a) by {
        assert(!State::in_slot(s.frame(before), args[count - 1], a));
        assert((mid.mem)(a) == (before.mem)(a));
        assert(outside(u.frame(mid), rest, a)) by {
            assert forall|j: int| 0 <= j < rest.len() implies !State::in_slot(
                u.frame(mid),
                #[trigger] rest[j],
                a,
            ) by {
                assert(rest[j] == args[j]);
            }
        }
        assert((n.mem)(a) == (mid.mem)(a));
    }
}

proof fn lemma_passed_in_uses(held: Seq<ValueLocation>, dst: CCLoc, gpr: GPR)
    ensures
        uses(passed_in(held, dst), gpr) >= uses(held, gpr),
{
    broadcast use lemma_uses_push;

}

/// Passing the values on top of the stack to a block: each of the block's places has its value
/// afterwards, and the values are off the stack.
///
/// The places must all be different, and no slot may be written while a value that is passed
/// later is still in it. Of a small constant that is passed in a slot only the lower half is
/// written.
pub proof fn passing_to_block(s: State, m: Machine, args: Seq<CCLoc>)
    requires
        s.at(m),
        s.can_pass_all(none(), args),
        s.pass_block_args(args, args.len()).ok,
    ensures
        s.passes_all(s.pass_block_args(args, args.len()), m, s.code, none(), args),
{
    broadcast use lemma_ran_nothing;

    lemma_pass_block_args(s, m, s.code, none(), args);
}

/// More values on the stack than the block has places for make no difference.
proof fn lemma_pass_all_places(s: State, args: Seq<CCLoc>, count: nat)
    requires
        count >= args.len(),
    ensures
        s.pass_block_args(args, count) == s.pass_block_args(args, args.len()),
    decreases args.len(),
{
    if args.len() > 0 {
        let u = s.pass_block_arg(args.last(), args.len() - 1);
        lemma_pass_all_places(u, args.drop_last(), (count - 1) as nat);
    }
}

proof fn lemma_passed_uses(held: Seq<ValueLocation>, args: Seq<CCLoc>, j: int)
    requires
        0 <= j < args.len(),
        args[j] is Reg,
    ensures
        uses(passed(held, args), args[j]->Reg_0) > 0,
    decreases args.len(),
{
    broadcast use lemma_uses_push;

    let rest = args.drop_last();
    let gpr = args[j]->Reg_0;
    if j == args.len() - 1 {
        lemma_passed_more(passed_in(held, args.last()), rest, gpr);
    } else {
        assert(rest[j] == args[j]);
        lemma_passed_uses(passed_in(held, args.last()), rest, j);
    }
}

proof fn lemma_passed_more(held: Seq<ValueLocation>, args: Seq<CCLoc>, gpr: GPR)
    ensures
        uses(passed(held, args), gpr) >= uses(held, gpr),
    decreases args.len(),
{
    if args.len() > 0 {
        lemma_passed_in_uses(held, args.last(), gpr);
        lemma_passed_more(passed_in(held, args.last()), args.drop_last(), gpr);
    }
}

/// Whether the machine's stack reaches to all slots among `args` when it is `depth` words deep.
pub open spec fn reaches(depth: u32, args: Seq<CCLoc>) -> bool {
    &&& depth < slot_limit()
    &&& forall|j: int|
        0 <= j < args.len() && #[trigger] args[j] is Stack ==> 0 <= depth + args[j]->Stack_0
            < slot_limit()
}

/// Going on at the start of a block to which values were passed: the values are on the stack
/// there.
///
/// What `passing_to_block` leaves out is left out here too, and slots among the places must be on
/// the machine's stack as deep as it is in the block.
pub proof fn block_entered(s: State, m: Machine, args: Seq<CCLoc>, depth: u32)
    requires
        s.at(m),
        s.can_pass_all(none(), args),
        s.pass_block_args(args, s.stack.len()).set_stack_depth(depth).ok,
        reaches(depth, args),
    ensures
        ({
            let t = s.pass_block_args(args, s.stack.len()).set_stack_depth(depth);
            let n = ran(m, s.code, t.code);
            let block = t.enter(as_values(args), depth);
            let base = s.stack.len() - args.len();
            &&& t.reached(m, s.code)
            &&& block.frame(n) == s.frame(m)
            &&& forall|j: int|
                0 <= j < args.len() ==> block.has_arg(
                    n,
                    #[trigger] args[j],
                    s.stack[base + j],
                    s.value_at(m, base + j),
                )
        }),
{
    let u = s.pass_block_args(args, s.stack.len());
    let t = u.set_stack_depth(depth);
    let held = passed(none(), args);
    let base = s.stack.len() - args.len();
    lemma_pass_all_places(s, args, s.stack.len());
    assert(u.ok);
    passing_to_block(s, m, args);
    // The values that are left on the stack do not matter here.
    let e = u.with_stack(Seq::empty());
    assert(e.owns(held)) by {
        assert forall|g: GPR| g.valid() implies #[trigger] e.regs.count(g) >= e.known_uses(
            held,
            g,
        ) by {
            assert(u.regs.count(g) >= u.known_uses(held, g));
        }
    }
    let f = e.set_stack_depth(depth);
    lemma_set_depth_frame(u, Seq::empty(), depth);
    assert(f == t.with_stack(Seq::empty()));
    changing_depth(e, m, s.code, held, depth);
    let mid = ran(m, s.code, u.code);
    let n = ran(m, s.code, t.code);
    let block = t.enter(as_values(args), depth);
    assert(block.depth == depth);
    assert forall|j: int| 0 <= j < args.len() implies block.has_arg(
        n,
        #[trigger] args[j],
        s.stack[base + j],
        s.value_at(m, base + j),
    ) by {
        assert(u.has_arg(mid, args[j], s.stack[base + j], s.value_at(m, base + j)));
        assert(s.can_pass(none(), args[j], pushes(args.len()) as int));
        match args[j] {
            CCLoc::Reg(r) => {
                lemma_passed_uses(none(), args, j);
                assert(n.gpr(r) == mid.gpr(r));
            },
            CCLoc::Stack(o) => {
                lemma_slot(u, mid, o);
                lemma_slot(block, n, o);
                lemma_load_above(mid, n, mid.rsp + u.slot_disp(o));
            },
        }
    }
}

/// Changing the depth does not depend on the value stack.
proof fn lemma_set_depth_frame(s: State, stack: Seq<ValueLocation>, depth: u32)
    ensures
        s.with_stack(stack).set_stack_depth(depth) == s.set_stack_depth(depth).with_stack(stack),
{
    if s.depth < depth {
        let insn = Insn::Push(Operand::rq(rq::RAX));
        lemma_emit_times_frame(s, stack, insn, (depth - s.depth) as nat);
    } else if s.depth > depth {
        let (u, trash) = s.take(GPRType::Rq);
        lemma_emit_times_frame(u, stack, Insn::Pop(trash.id()), (s.depth - depth) as nat);
    }
}

proof fn lemma_emit_times_frame(s: State, stack: Seq<ValueLocation>, insn: Insn, n: nat)
    ensures
        s.with_stack(stack).emit_times(insn, n) == s.emit_times(insn, n).with_stack(stack),
    decreases n,
{
    if n > 0 {
        lemma_emit_times_frame(s, stack, insn, (n - 1) as nat);
    }
}

} // verus!
