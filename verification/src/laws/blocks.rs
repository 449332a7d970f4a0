//! The value stack and the machine's stack.

use vstd::prelude::*;

use crate::blocks::{as_values, lemma_save_regs_ok, lemma_serialize_ok, SaveSet};
use crate::insn::{Insn, Operand, Width};
use crate::laws::arith::lemma_owns_code;
use crate::laws::{none, one};
use crate::location::{CCLoc, ValueLocation};
use crate::machine::{load, store, Machine};
use crate::ownership::{
    initial_registers, lemma_count_mark_used, lemma_owns_forget, lemma_owns_free, lemma_owns_hold,
    lemma_owns_mark_used, lemma_owns_pop, lemma_owns_reorder, lemma_uses_at, lemma_uses_push,
    lemma_uses_update, reserved, taken_is_unused, use_then_release, uses,
};
use crate::registers::{is_scratch, lemma_lowest_free, rq, GPRType, RegState, GPR};
use crate::simulation::{
    lemma_into_temp_reg, lemma_ran_nothing, lemma_ran_push, load_after_store, ran,
};
use crate::state::State;

verus! {

/// How many slots a displacement of 32 bits reaches.
pub open spec fn slot_limit() -> int {
    0x1000_0000
}

impl State {
    /// Whether the slots of all values on the stack are on the machine's stack and can be
    /// addressed even when it grows by `room` words.
    pub open spec fn framed(self, room: int) -> bool {
        &&& self.depth + room < slot_limit()
        &&& forall|i: int|
            0 <= i < self.stack.len() && #[trigger] self.stack[i] is Stack ==> 0 <= self.depth
                + self.stack[i]->Stack_0 && self.depth + self.stack[i]->Stack_0 + room
                < slot_limit()
    }

    /// Where the function's frame starts: slots are counted from there.
    pub open spec fn frame(self, m: Machine) -> int {
        m.rsp + 8 * self.depth
    }

    /// Whether the code of the step from `self` to `t`, run from `m`, runs to its end with every
    /// value on the stack as it was, though it may be elsewhere. What is above the stack pointer
    /// stays as it is, and so do the registers that are in hand or not for general use.
    pub open spec fn carries(
        self,
        t: State,
        m: Machine,
        from: Seq<Insn>,
        held: Seq<ValueLocation>,
    ) -> bool {
        let before = ran(m, from, self.code);
        let n = ran(m, from, t.code);
        &&& t.reached(m, from)
        &&& t.owns(held)
        &&& t.stack.len() == self.stack.len()
        &&& forall|i: int|
            0 <= i < self.stack.len() ==> #[trigger] t.value_at(n, i) == self.value_at(before, i)
        &&& t.frame(n) == self.frame(before)
        &&& forall|a: int| a >= before.rsp ==> #[trigger] (n.mem)(a) == (before.mem)(a)
        &&& forall|g: GPR|
            g.valid() && reserved(g) + uses(held, g) > 0 ==> #[trigger] n.gpr(g) == before.gpr(g)
    }
}

/// Words above the stack pointer stay as they are when the memory below it changes.
pub proof fn lemma_load_above(m: Machine, n: Machine, addr: int)
    requires
        forall|a: int| a >= m.rsp ==> #[trigger] (n.mem)(a) == (m.mem)(a),
        addr >= m.rsp,
    ensures
        load(n.mem, addr) == load(m.mem, addr),
{
}

/// What pushing a value does to the machine: the word on top of the stack has it, the words above
/// stay as they are, and no register in use is written.
pub proof fn lemma_push_physical(
    s: State,
    m: Machine,
    from: Seq<Insn>,
    held: Seq<ValueLocation>,
    val: ValueLocation,
)
    requires
        s.reached(m, from),
        s.owns(held.push(val)),
        s.push_physical(val).0.ok,
    ensures
        ({
            let t = s.push_physical(val).0;
            let before = ran(m, from, s.code);
            let n = ran(m, from, t.code);
            &&& t.reached(m, from)
            &&& t.owns(held)
            &&& t.stack == s.stack
            &&& t.depth == s.depth + 1
            &&& n.rsp == before.rsp - 8
            &&& load(n.mem, n.rsp) == s.value_of(before, val)
            &&& forall|a: int| a >= before.rsp ==> #[trigger] (n.mem)(a) == (before.mem)(a)
            &&& s.same_registers(held, before, n)
        }),
{
    broadcast use {lemma_ran_push, lemma_uses_push};

    let t = s.push_physical(val).0;
    let before = ran(m, from, s.code);
    let v = s.value_of(before, val);
    let top = before.rsp - 8;
    assert(held.push(val)[held.len() as int].valid());
    load_after_store(before.mem, top, v);
    match val {
        ValueLocation::Reg(GPR::Rq(_)) => {
            lemma_owns_free(s, held, val);
            lemma_owns_code(s.free_value(val), t, held);
        },
        ValueLocation::Reg(GPR::Rx(_)) => {
            load_after_store(store(before.mem, Width::Q, top, before.rq[0]), top, v);
            lemma_owns_free(s, held, val);
            lemma_owns_code(s.free_value(val), t, held);
        },
        ValueLocation::Stack(_) => {
            lemma_owns_forget(s, held, val);
            lemma_owns_code(s, t, held);
        },
        ValueLocation::Immediate(_) => {
            let temp = s.regs.lowest_free(GPRType::Rq);
            lemma_lowest_free(s.regs, GPRType::Rq);
            use_then_release(s.regs, temp);
            lemma_owns_forget(s, held, val);
            lemma_owns_code(s, t, held);
            assert(s.regs.count(temp) >= s.known_uses(held.push(val), temp));
            let rsp = GPR::Rq(rq::RSP);
            assert(s.regs.count(rsp) >= s.known_uses(held.push(val), rsp));
        },
    }
}

/// Pushing a value on the machine's stack, wherever it is, puts it into the slot that was pushed.
pub proof fn pushing(
    s: State,
    m: Machine,
    from: Seq<Insn>,
    held: Seq<ValueLocation>,
    val: ValueLocation,
)
    requires
        s.reached(m, from),
        s.owns(held.push(val)),
        s.framed(1),
        s.push_physical(val).0.ok,
    ensures
        ({
            let (t, loc) = s.push_physical(val);
            let before = ran(m, from, s.code);
            let n = ran(m, from, t.code);
            &&& s.carries(t, m, from, held)
            &&& t.stack == s.stack
            &&& t.depth == s.depth + 1
            &&& loc is Stack
            &&& t.depth + loc->Stack_0 == 0
            &&& t.value_of(n, loc) == s.value_of(before, val)
        }),
{
    let (t, loc) = s.push_physical(val);
    let before = ran(m, from, s.code);
    let n = ran(m, from, t.code);
    lemma_push_physical(s, m, from, held, val);
    assert forall|i: int| 0 <= i < s.stack.len() implies #[trigger] t.value_at(n, i) == s.value_at(
        before,
        i,
    ) by {
        assert(s.stack[i].valid());
        if s.stack[i] is Reg {
            let g = s.stack[i]->Reg_0;
            lemma_uses_at(s.stack, i, g);
            assert(n.gpr(g) == before.gpr(g));
        } else if s.stack[i] is Stack {
            lemma_load_above(before, n, before.rsp + s.slot_disp(s.stack[i]->Stack_0));
        }
    }
    assert forall|g: GPR| g.valid() && reserved(g) + uses(held, g) > 0 implies #[trigger] n.gpr(g)
        == before.gpr(g) by {
        assert(s.known_uses(held, g) > 0);
    }
}

/// Moving one value of the stack from a register to the machine's stack.
proof fn lemma_save_reg_at(
    s: State,
    m: Machine,
    from: Seq<Insn>,
    held: Seq<ValueLocation>,
    set: SaveSet,
    i: int,
)
    requires
        s.reached(m, from),
        s.owns(held),
        s.framed(1),
        0 <= i < s.stack.len(),
        s.save_reg_at(set, i).ok,
    ensures
        ({
            let t = s.save_reg_at(set, i);
            &&& s.carries(t, m, from, held)
            &&& s.depth <= t.depth <= s.depth + 1
            &&& t.framed(0)
            &&& forall|k: int|
                0 <= k < s.stack.len() && k != i ==> #[trigger] t.stack[k] == s.stack[k]
            &&& t.stack[i] is Reg ==> !set.has(t.stack[i]->Reg_0)
            &&& t.stack[i] == s.stack[i] || t.stack[i] is Stack && s.depth + t.stack[i]->Stack_0 < 0
            &&& forall|room: int| #[trigger] s.framed(room) ==> t.framed(room - 1)
        }),
{
    broadcast use lemma_uses_push;

    let val = s.stack[i];
    if val is Reg && set.has(val->Reg_0) {
        let gpr = val->Reg_0;
        assert(s.stack[i].valid());
        // The value leaves the stack for a moment.
        let zero = ValueLocation::Immediate(crate::microwasm::Value::I32(0));
        let u = s.with_stack(s.stack.update(i, zero));
        lemma_stack_to_hand(s, held, i);
        lemma_framed_without(s, i);
        pushing(u, m, from, held, val);
        let (s1, loc) = s.push_physical(val);
        let (u1, loc1) = u.push_physical(val);
        let t = s.save_reg_at(set, i);
        assert(loc1 == loc);
        assert(t.stack =~= u1.stack.update(i, loc));
        let n = ran(m, from, t.code);
        let before = ran(m, from, s.code);
        assert(t.code == u1.code);
        assert(t.owns(held)) by {
            lemma_hand_to_stack(u1, held, i, loc);
            lemma_owns_code(u1.with_stack(u1.stack.update(i, loc)), t, held);
        }
        assert forall|k: int| 0 <= k < s.stack.len() implies #[trigger] t.value_at(n, k)
            == s.value_at(before, k) by {
            if k != i {
                assert(u1.value_at(n, k) == u.value_at(before, k));
            }
        }
        assert forall|room: int| #[trigger] s.framed(room) implies t.framed(room - 1) by {}
    } else {
        assert(s.save_reg_at(set, i) == s);
    }
}

/// A value on the stack is taken in hand; a constant stands in its place.
proof fn lemma_stack_to_hand(s: State, held: Seq<ValueLocation>, i: int)
    requires
        s.owns(held),
        0 <= i < s.stack.len(),
    ensures
        s.with_stack(
            s.stack.update(i, ValueLocation::Immediate(crate::microwasm::Value::I32(0))),
        ).owns(held.push(s.stack[i])),
{
    broadcast use lemma_uses_push;

    let zero = ValueLocation::Immediate(crate::microwasm::Value::I32(0));
    let u = s.with_stack(s.stack.update(i, zero));
    let v = s.stack[i];
    assert forall|g: GPR| g.valid() implies #[trigger] u.regs.count(g) >= u.known_uses(
        held.push(v),
        g,
    ) by {
        assert(s.regs.count(g) >= s.known_uses(held, g));
        lemma_uses_update(s.stack, i, zero, g);
    }
    assert(v.valid());
    assert forall|k: int| 0 <= k < u.stack.len() implies #[trigger] u.stack[k].valid() by {
        assert(s.stack[k].valid());
    }
}

/// A value that is in no register takes the place of a constant.
proof fn lemma_hand_to_stack(s: State, held: Seq<ValueLocation>, i: int, val: ValueLocation)
    requires
        s.owns(held),
        0 <= i < s.stack.len(),
        !(s.stack[i] is Reg),
        !(val is Reg),
    ensures
        s.with_stack(s.stack.update(i, val)).owns(held),
{
    let u = s.with_stack(s.stack.update(i, val));
    assert forall|g: GPR| g.valid() implies #[trigger] u.regs.count(g) >= u.known_uses(held, g) by {
        assert(s.regs.count(g) >= s.known_uses(held, g));
        lemma_uses_update(s.stack, i, val, g);
    }
    assert forall|k: int| 0 <= k < u.stack.len() implies #[trigger] u.stack[k].valid() by {
        assert(s.stack[k].valid());
    }
}

proof fn lemma_framed_without(s: State, i: int)
    requires
        s.framed(1),
        0 <= i < s.stack.len(),
    ensures
        s.with_stack(
            s.stack.update(i, ValueLocation::Immediate(crate::microwasm::Value::I32(0))),
        ).framed(1),
{
}

/// One step that carries all values after another.
proof fn lemma_carries_on(
    s: State,
    u: State,
    t: State,
    m: Machine,
    from: Seq<Insn>,
    held: Seq<ValueLocation>,
)
    requires
        s.carries(u, m, from, held),
        u.carries(t, m, from, held),
        u.depth >= s.depth,
    ensures
        s.carries(t, m, from, held),
{
    let before = ran(m, from, s.code);
    let mid = ran(m, from, u.code);
    let n = ran(m, from, t.code);
    assert forall|i: int| 0 <= i < s.stack.len() implies #[trigger] t.value_at(n, i) == s.value_at(
        before,
        i,
    ) by {
        assert(u.value_at(mid, i) == s.value_at(before, i));
    }
    assert forall|a: int| a >= before.rsp implies #[trigger] (n.mem)(a) == (before.mem)(a) by {
        assert((mid.mem)(a) == (before.mem)(a));
    }
    assert forall|g: GPR| g.valid() && reserved(g) + uses(held, g) > 0 implies #[trigger] n.gpr(g)
        == before.gpr(g) by {
        assert(mid.gpr(g) == before.gpr(g));
    }
}

/// Saving registers moves the values that are in them to the machine's stack: no value in the
/// range is in one of these registers then, and every value is what it was.
pub proof fn saving_registers(
    s: State,
    m: Machine,
    from: Seq<Insn>,
    held: Seq<ValueLocation>,
    set: SaveSet,
    start: int,
    end: int,
)
    requires
        s.reached(m, from),
        s.owns(held),
        0 <= start <= end <= s.stack.len(),
        s.framed(end - start),
        s.save_regs(set, start, end).ok,
    ensures
        ({
            let t = s.save_regs(set, start, end);
            &&& s.carries(t, m, from, held)
            &&& s.depth <= t.depth <= s.depth + (end - start)
            &&& forall|room: int| #[trigger] s.framed(room) ==> t.framed(room - (end - start))
            &&& forall|k: int|
                0 <= k < s.stack.len() && !(start <= k < end) ==> #[trigger] t.stack[k]
                    == s.stack[k]
            &&& forall|k: int|
                start <= k < end && #[trigger] t.stack[k] is Reg ==> !set.has(t.stack[k]->Reg_0)
            &&& forall|k: int|
                start <= k < end ==> #[trigger] t.stack[k] == s.stack[k] || t.stack[k] is Stack
                    && s.depth + t.stack[k]->Stack_0 < 0
        }),
    decreases end - start,
{
    if start < end {
        let u = s.save_reg_at(set, start);
        lemma_save_regs_ok(u, set, start + 1, end);
        assert(s.framed(1)) by {
            lemma_less_room(s, end - start, 1);
        }
        lemma_save_reg_at(s, m, from, held, set, start);
        assert(u.framed(end - start - 1));
        saving_registers(u, m, from, held, set, start + 1, end);
        let t = s.save_regs(set, start, end);
        lemma_carries_on(s, u, t, m, from, held);
        assert forall|room: int| #[trigger] s.framed(room) implies t.framed(
            room - (end - start),
        ) by {
            assert(u.framed(room - 1));
        }
        assert(t.stack[start] == u.stack[start]);
        assert forall|k: int| start <= k < end && #[trigger] t.stack[k] is Reg implies !set.has(
            t.stack[k]->Reg_0,
        ) by {}
        assert forall|k: int| start <= k < end implies #[trigger] t.stack[k] == s.stack[k]
            || t.stack[k] is Stack && s.depth + t.stack[k]->Stack_0 < 0 by {
            if k > start {
                assert(u.stack[k] == s.stack[k]);
            }
        }
    }
}

pub proof fn lemma_less_room(s: State, room: int, less: int)
    requires
        s.framed(room),
        less <= room,
    ensures
        s.framed(less),
{
}

/// The same instruction several times.
proof fn lemma_ran_times(m: Machine, from: Seq<Insn>, s: State, insn: Insn, n: nat)
    requires
        from.len() <= s.code.len(),
    ensures
        n > 0 ==> ran(m, from, s.emit_times(insn, n).code) == ({
            let before = ran(m, from, s.emit_times(insn, (n - 1) as nat).code);
            if before.next is Next {
                before.step(insn)
            } else {
                before
            }
        }),
        n == 0 ==> s.emit_times(insn, n).code == s.code,
{
    if n > 0 {
        let shorter = s.emit_times(insn, (n - 1) as nat).code;
        lemma_ran_push(m, from, shorter, insn);
        assert(shorter.push(insn) =~= s.emit_times(insn, n).code);
    } else {
        assert(s.emit_times(insn, n).code =~= s.code);
    }
}

/// Pushing `n` words.
proof fn lemma_pushes(s: State, m: Machine, from: Seq<Insn>, n: nat)
    requires
        s.reached(m, from),
    ensures
        ({
            let t = s.emit_times(Insn::Push(Operand::rq(rq::RAX)), n);
            let before = ran(m, from, s.code);
            let after = ran(m, from, t.code);
            &&& t.reached(m, from)
            &&& after == (Machine { rsp: before.rsp - 8 * n, mem: after.mem, ..before })
            &&& forall|a: int| a >= before.rsp ==> #[trigger] (after.mem)(a) == (before.mem)(a)
        }),
    decreases n,
{
    let insn = Insn::Push(Operand::rq(rq::RAX));
    lemma_ran_times(m, from, s, insn, n);
    if n > 0 {
        lemma_pushes(s, m, from, (n - 1) as nat);
    }
}

/// Popping `n` words into a register.
proof fn lemma_pops(s: State, m: Machine, from: Seq<Insn>, r: u8, n: nat)
    requires
        s.reached(m, from),
        r < 16,
    ensures
        ({
            let t = s.emit_times(Insn::Pop(r), n);
            let before = ran(m, from, s.code);
            let after = ran(m, from, t.code);
            &&& t.reached(m, from)
            &&& after == (Machine {
                rsp: before.rsp + 8 * n,
                rq: before.rq.update(r as int, after.rq[r as int]),
                ..before
            })
        }),
    decreases n,
{
    let insn = Insn::Pop(r);
    lemma_ran_times(m, from, s, insn, n);
    let before = ran(m, from, s.code);
    if n > 0 {
        lemma_pops(s, m, from, r, (n - 1) as nat);
        let t = s.emit_times(insn, n);
        let after = ran(m, from, t.code);
        assert(after.rq =~= before.rq.update(r as int, after.rq[r as int]));
    } else {
        assert(before.rq =~= before.rq.update(r as int, before.rq[r as int]));
    }
}

impl State {
    /// Whether all values on the stack stay on the machine's stack when it is `depth` words
    /// deep.
    pub open spec fn framed_at(self, depth: u32) -> bool {
        &&& self.framed(0)
        &&& State { depth, ..self }.framed(0)
    }
}

/// Changing the depth of the machine's stack without touching the flags moves no value, and the
/// flags are as before.
pub proof fn changing_depth_with_flags(
    s: State,
    m: Machine,
    from: Seq<Insn>,
    held: Seq<ValueLocation>,
    depth: u32,
)
    requires
        s.reached(m, from),
        s.owns(held),
        s.framed_at(depth),
        s.set_stack_depth_preserve_flags(depth).ok,
    ensures
        ({
            let t = s.set_stack_depth_preserve_flags(depth);
            &&& s.carries(t, m, from, held)
            &&& t.depth == depth
            &&& t.stack == s.stack
            &&& ran(m, from, t.code).flags == ran(m, from, s.code).flags
        }),
{
    let t = s.set_stack_depth_preserve_flags(depth);
    let before = ran(m, from, s.code);
    let n = ran(m, from, t.code);
    if s.depth < depth {
        lemma_pushes(s, m, from, (depth - s.depth) as nat);
        lemma_owns_code(s, t, held);
    } else if s.depth > depth {
        let (u, trash) = s.take(GPRType::Rq);
        taken_is_unused(s, held, GPRType::Rq);
        lemma_pops(u, m, from, trash.id(), (s.depth - depth) as nat);
        lemma_owns_forget(u, held, ValueLocation::Reg(trash));
        lemma_owns_code(u, t, held);
    }
    assert forall|i: int| 0 <= i < s.stack.len() implies #[trigger] t.value_at(n, i) == s.value_at(
        before,
        i,
    ) by {
        assert(s.stack[i].valid());
        if s.stack[i] is Reg {
            lemma_uses_at(s.stack, i, s.stack[i]->Reg_0);
        } else if s.stack[i] is Stack {
            assert(State { depth, ..s }.stack[i] is Stack);
            lemma_load_above(before, n, before.rsp + s.slot_disp(s.stack[i]->Stack_0));
        }
    }
}

/// Changing the depth of the machine's stack moves no value.
pub proof fn changing_depth(
    s: State,
    m: Machine,
    from: Seq<Insn>,
    held: Seq<ValueLocation>,
    depth: u32,
)
    requires
        s.reached(m, from),
        s.owns(held),
        s.framed_at(depth),
        s.set_stack_depth(depth).ok,
    ensures
        ({
            let t = s.set_stack_depth(depth);
            &&& s.carries(t, m, from, held)
            &&& t.depth == depth
            &&& t.stack == s.stack
        }),
{
    broadcast use lemma_ran_push;

    let diff = depth as i32 - s.depth as i32;
    if s.depth == depth {
    } else if diff == 1 || diff == -1 {
        changing_depth_with_flags(s, m, from, held, depth);
    } else {
        let t = s.set_stack_depth(depth);
        let before = ran(m, from, s.code);
        let n = ran(m, from, t.code);
        lemma_owns_code(s, t, held);
        assert(n.rsp == before.rsp - 8 * (depth - s.depth));
        assert forall|i: int| 0 <= i < s.stack.len() implies #[trigger] t.value_at(n, i)
            == s.value_at(before, i) by {
            if s.stack[i] is Stack {
                assert(State { depth, ..s }.stack[i] is Stack);
            }
        }
    }
}

/// Setting the depth and setting it back leaves the depth, the stack and every slot as they were.
pub proof fn depth_there_and_back(s: State, depth: u32)
    ensures
        ({
            let t = s.set_stack_depth(depth).set_stack_depth(s.depth);
            &&& t.depth == s.depth
            &&& t.stack == s.stack
        }),
{
}

/// Marking the registers of some values adds to each register as many uses as it holds of them.
proof fn lemma_mark_all_counts(s: State, vals: Seq<ValueLocation>, gpr: GPR)
    requires
        s.regs.wf(),
        gpr.valid(),
        s.mark_all(vals).ok,
    ensures
        s.mark_all(vals).regs.wf(),
        s.mark_all(vals).regs.count(gpr) == s.regs.count(gpr) + uses(vals, gpr),
    decreases vals.len(),
{
    broadcast use lemma_count_mark_used;

    if vals.len() > 0 {
        lemma_mark_all_counts(s, vals.drop_last(), gpr);
        if vals.last() is Reg {
            lemma_mark_all_counts(s, vals.drop_last(), vals.last()->Reg_0);
        }
    }
}

/// Counting uses of registers changes nothing else.
pub proof fn lemma_mark_all_only(s: State, vals: Seq<ValueLocation>)
    ensures
        s.mark_all(vals) == (State {
            regs: s.mark_all(vals).regs,
            ok: s.mark_all(vals).ok,
            ..s
        }),
        s.mark_all(vals).ok ==> s.ok,
    decreases vals.len(),
{
    if vals.len() > 0 {
        lemma_mark_all_only(s, vals.drop_last());
    }
}

/// At the start of a function or of a block the values are where they were taken to be, and every
/// register is in use as often as it is at first and once more for each value that is in it.
/// Registers that are for general use are free at first, and the others are used once. No code is
/// emitted and no label created.
pub proof fn entering(s: State, stack: Seq<ValueLocation>, depth: u32, gpr: GPR)
    requires
        s.enter(stack, depth).ok,
        gpr.valid(),
    ensures
        s.enter(stack, depth).regs.count(gpr) == RegState::initial().count(gpr) + uses(stack, gpr),
        RegState::initial().count(gpr) == reserved(gpr),
        s.enter(stack, depth) == (State {
            stack,
            depth,
            regs: s.enter(stack, depth).regs,
            ..s
        }),
{
    initial_registers(gpr);
    lemma_mark_all_only(State { regs: RegState::initial(), ..s }, stack);
    lemma_mark_all_counts(State { regs: RegState::initial(), ..s }, stack, gpr);
}

/// Nothing but the width of the counts limits how many values a register can hold at the start
/// of a block.
pub proof fn entering_succeeds(s: State, stack: Seq<ValueLocation>, depth: u32)
    requires
        s.ok,
        forall|i: int|
            0 <= i < stack.len() && #[trigger] stack[i] is Reg ==> stack[i]->Reg_0.valid(),
        forall|g: GPR| #[trigger] uses(stack, g) + reserved(g) <= u8::MAX,
    ensures
        s.enter(stack, depth).ok,
{
    lemma_mark_all_succeeds(State { regs: RegState::initial(), ..s }, stack);
}

proof fn lemma_mark_all_succeeds(s: State, vals: Seq<ValueLocation>)
    requires
        s.ok,
        s.regs == RegState::initial(),
        forall|i: int| 0 <= i < vals.len() && #[trigger] vals[i] is Reg ==> vals[i]->Reg_0.valid(),
        forall|g: GPR| #[trigger] uses(vals, g) + reserved(g) <= u8::MAX,
    ensures
        s.mark_all(vals).ok,
    decreases vals.len(),
{
    if vals.len() > 0 {
        let rest = vals.drop_last();
        assert forall|i: int| 0 <= i < rest.len() && #[trigger] rest[i] is Reg implies
            rest[i]->Reg_0.valid() by {
            assert(rest[i] == vals[i]);
        }
        assert forall|g: GPR| #[trigger] uses(rest, g) + reserved(g) <= u8::MAX by {
            assert(uses(vals, g) + reserved(g) <= u8::MAX);
        }
        lemma_mark_all_succeeds(s, rest);
        if vals.last() is Reg {
            let g = vals.last()->Reg_0;
            assert(vals[vals.len() - 1] is Reg);
            initial_registers(g);
            lemma_mark_all_counts(s, rest, g);
            assert(uses(vals, g) + reserved(g) <= u8::MAX);
        }
    }
}

/// At the start of a function or of a block the accounts are in order.
pub proof fn entering_accounted(s: State, stack: Seq<ValueLocation>, depth: u32)
    requires
        s.enter(stack, depth).ok,
        forall|i: int| 0 <= i < stack.len() ==> #[trigger] stack[i].valid(),
    ensures
        s.enter(stack, depth).accounted(),
{
    let t = s.enter(stack, depth);
    assert forall|g: GPR|
        g.valid() implies #[trigger] t.regs.count(g) >= t.known_uses(none(), g) by {
        entering(s, stack, depth, g);
    }
    assert(t.regs.wf()) by {
        initial_registers(GPR::Rq(0));
        lemma_mark_all_counts(State { regs: RegState::initial(), ..s }, stack, GPR::Rq(0));
    }
}

/// Picking a value leaves it on top of the stack once more, and emits no code.
pub proof fn picking(s: State, m: Machine, depth: u32)
    requires
        s.at(m),
        s.pick(depth).ok,
    ensures
        s.computes(s.pick(depth), m, 0, Width::Q, s.top(m, depth as int)),
        s.pick(depth).code == s.code,
        s.pick(depth).stack.last() == s.stack[s.stack.len() - 1 - depth],
{
    broadcast use {lemma_ran_nothing, lemma_uses_push};

    let v = s.stack[s.stack.len() - 1 - depth];
    assert(v.valid());
    let u = s.need(depth < s.stack.len()).mark_value(v);
    assert(u.owns(one(v))) by {
        if v is Reg {
            lemma_owns_mark_used(s.need(depth < s.stack.len()), none(), v->Reg_0);
        } else {
            lemma_owns_hold(s, none(), v);
            lemma_owns_code(s, u, one(v));
        }
    }
    assert(u.stack =~= s.stack.take(s.stack.len() - 0));
    crate::laws::lemma_push_result(s, u, m, 0, v);
}

/// A constant leaves its value on top of the stack, and emits no code.
pub proof fn constant(s: State, m: Machine, val: crate::microwasm::Value)
    requires
        s.at(m),
    ensures
        s.computes(s.push(ValueLocation::Immediate(val)), m, 0, Width::Q, val.as_bytes() as u64),
{
    assert(s.stack =~= s.stack.take(s.stack.len() - 0));
    crate::laws::arith::lemma_push_folded(
        s,
        m,
        0,
        s.push(ValueLocation::Immediate(val)),
        val,
    );
}

/// Swapping exchanges two values, emits no code, and leaves the accounts in order.
pub proof fn swapping(s: State, depth: u32)
    requires
        s.accounted(),
        s.swap(depth).ok,
    ensures
        ({
            let t = s.swap(depth);
            let last = s.stack.len() - 1;
            &&& t.accounted()
            &&& t == s.with_stack(t.stack)
            &&& t.stack.len() == s.stack.len()
            &&& t.stack[last] == s.stack[last - depth]
            &&& t.stack[last - depth] == s.stack[last]
            &&& forall|i: int|
                0 <= i < last && i != last - depth ==> #[trigger] t.stack[i] == s.stack[i]
        }),
{
    let t = s.swap(depth);
    let last = s.stack.len() - 1;
    let once = s.stack.update(last, s.stack[last - depth]);
    assert forall|g: GPR|
        g.valid() implies #[trigger] t.regs.count(g) >= t.known_uses(none(), g) by {
        assert(s.regs.count(g) >= s.known_uses(none(), g));
        lemma_uses_update(s.stack, last, s.stack[last - depth], g);
        lemma_uses_update(once, last - depth, s.stack[last], g);
    }
    assert forall|i: int| 0 <= i < t.stack.len() implies #[trigger] t.stack[i].valid() by {
        assert(s.stack[i].valid());
        assert(s.stack[last].valid());
        assert(s.stack[last - depth].valid());
    }
}

/// Swapping twice changes nothing.
pub proof fn swapping_twice(s: State, depth: u32)
    requires
        s.swap(depth).ok,
    ensures
        s.swap(depth).swap(depth) == s,
{
    assert(s.swap(depth).swap(depth).stack =~= s.stack);
}

/// Picking a value and dropping it again changes nothing.
pub proof fn picking_and_dropping(s: State, depth: u32)
    requires
        s.regs.wf(),
        s.pick(depth).ok,
    ensures
        s.pick(depth).drop_range(0, 0) == s,
{
    let v = s.stack[s.stack.len() - 1 - depth];
    let t = s.pick(depth);
    let n = t.stack.len() as int;
    let vals = t.stack.subrange(n - 1, n);
    assert(vals.drop_last() =~= Seq::empty());
    assert(vals.last() == v);
    let u = State { stack: t.stack.take(n - 1) + t.stack.skip(n), ok: t.ok && 0 < n, ..t };
    assert(u.stack =~= s.stack);
    assert(u.free_all(vals) == u.free_value(v).free_all(vals.drop_last()));
    assert(u.free_value(v).free_all(vals.drop_last()) == u.free_value(v));
    if v is Reg {
        crate::ownership::use_then_release(s.regs, v->Reg_0);
    }
}

/// Giving back values that are in hand.
proof fn lemma_owns_free_all(s: State, held: Seq<ValueLocation>, vals: Seq<ValueLocation>)
    requires
        s.owns(held + vals),
    ensures
        s.free_all(vals).owns(held),
        s.ok ==> s.free_all(vals).ok,
        s.free_all(vals).code == s.code,
        s.free_all(vals).stack == s.stack,
        s.free_all(vals).depth == s.depth,
    decreases vals.len(),
{
    if vals.len() == 0 {
        assert(held + vals =~= held);
    } else {
        assert(held + vals =~= (held + vals.drop_last()).push(vals.last()));
        lemma_owns_free(s, held + vals.drop_last(), vals.last());
        lemma_owns_free_all(s.free_value(vals.last()), held, vals.drop_last());
    }
}

pub proof fn lemma_uses_add(a: Seq<ValueLocation>, b: Seq<ValueLocation>, gpr: GPR)
    ensures
        uses(a + b, gpr) == uses(a, gpr) + uses(b, gpr),
    decreases b.len(),
{
    if b.len() == 0 {
        assert(a + b =~= a);
    } else {
        lemma_uses_add(a, b.drop_last(), gpr);
        assert((a + b).drop_last() =~= a + b.drop_last());
    }
}

/// Dropping values takes them from the stack and leaves all others as they are; it emits no code.
pub proof fn dropping(s: State, start: u32, end: u32)
    requires
        s.accounted(),
        s.ok,
        start <= end < s.stack.len(),
    ensures
        ({
            let t = s.drop_range(start, end);
            let n = s.stack.len() as int;
            &&& t.ok
            &&& t.accounted()
            &&& t.code == s.code
            &&& t.depth == s.depth
            &&& t.stack == s.stack.take(n - 1 - end) + s.stack.skip(n - start)
        }),
{
    let n = s.stack.len() as int;
    let low = s.stack.take(n - 1 - end);
    let mid = s.stack.subrange(n - 1 - end, n - start);
    let high = s.stack.skip(n - start);
    let u = s.with_stack(low + high);
    assert(s.stack =~= low + mid + high);
    assert(none() + mid =~= mid);
    assert forall|g: GPR| g.valid() implies #[trigger] u.regs.count(g) >= u.known_uses(mid, g) by {
        assert(s.regs.count(g) >= s.known_uses(none(), g));
        lemma_uses_add(low + mid, high, g);
        lemma_uses_add(low, mid, g);
        lemma_uses_add(low, high, g);
    }
    assert forall|i: int| 0 <= i < u.stack.len() implies #[trigger] u.stack[i].valid() by {
        if i < low.len() {
            assert(s.stack[i].valid());
        } else {
            assert(s.stack[i - low.len() + n - start].valid());
        }
    }
    assert forall|i: int| 0 <= i < mid.len() implies #[trigger] mid[i].valid() by {
        assert(s.stack[i + n - 1 - end].valid());
    }
    lemma_owns_free_all(u, none(), mid);
}

impl State {
    /// Whether the step from `self` to `t` took the top `count` values from the stack and left
    /// each in one of `regs`, with `held` in hand all the time.
    pub open spec fn serialized(
        self,
        t: State,
        regs: Seq<CCLoc>,
        m: Machine,
        from: Seq<Insn>,
        held: Seq<ValueLocation>,
        count: nat,
    ) -> bool {
        let before = ran(m, from, self.code);
        let n = ran(m, from, t.code);
        let len = self.stack.len() as int;
        &&& count <= self.stack.len()
        &&& regs.len() == count
        &&& t.reached(m, from)
        &&& t.stack == self.stack.take(len - count)
        &&& t.depth == self.depth
        &&& t.owns(held + as_values(regs))
        &&& t.same_values(held, before, n)
        &&& forall|i: int|
            0 <= i < count ==> #[trigger] regs[i] is Reg && t.value_of(n, regs[i].as_value())
                == self.value_at(before, len - count + i)
        &&& forall|i: int|
            0 <= i < count ==> t.known_uses(held, (#[trigger] regs[i])->Reg_0) == 0
        &&& forall|i: int, j: int|
            0 <= i < j < count ==> #[trigger] regs[i] != #[trigger] regs[j]
    }
}

/// Moving the top `count` values into temporary registers, with `held` in hand.
proof fn lemma_serialize(
    s: State,
    m: Machine,
    from: Seq<Insn>,
    held: Seq<ValueLocation>,
    count: nat,
)
    requires
        s.reached(m, from),
        s.owns(held),
        s.serialize(count).0.ok,
    ensures
        s.serialized(s.serialize(count).0, s.serialize(count).1, m, from, held, count),
    decreases count,
{
    let len = s.stack.len() as int;
    if count == 0 {
        assert(held + as_values(Seq::empty()) =~= held);
        assert(s.stack.take(len) =~= s.stack);
    } else {
        let (s1, val) = s.pop();
        let (s2, reg) = s1.into_temp_reg(None, val);
        let (t, below) = s2.serialize((count - 1) as nat);
        lemma_serialize_ok(s2, (count - 1) as nat);
        assert(s1.ok);
        lemma_owns_pop(s, held);
        lemma_into_temp_reg(s1, m, from, held, None, val);
        lemma_serialize(s2, m, from, held.push(ValueLocation::Reg(reg)), (count - 1) as nat);
        lemma_serialized_one_more(s, s1, s2, t, reg, below, m, from, held, count);
    }
}

/// Moving the top value and then those below it.
proof fn lemma_serialized_one_more(
    s: State,
    s1: State,
    s2: State,
    t: State,
    reg: GPR,
    below: Seq<CCLoc>,
    m: Machine,
    from: Seq<Insn>,
    held: Seq<ValueLocation>,
    count: nat,
)
    requires
        count > 0,
        s.stack.len() > 0,
        s.owns(held),
        s1 == s.pop().0,
        s1.brought(s2, reg, m, from, held, s.stack.last()),
        s1.known_uses(held, reg) == 0,
        s2.serialized(
            t,
            below,
            m,
            from,
            held.push(ValueLocation::Reg(reg)),
            (count - 1) as nat,
        ),
    ensures
        s.serialized(t, below.push(CCLoc::Reg(reg)), m, from, held, count),
{
    broadcast use lemma_uses_push;

    let before = ran(m, from, s.code);
    let n2 = ran(m, from, s2.code);
    let n = ran(m, from, t.code);
    let len = s.stack.len() as int;
    let r = ValueLocation::Reg(reg);
    let regs = below.push(CCLoc::Reg(reg));
    assert(t.stack =~= s.stack.take(len - count));
    assert forall|g: GPR| #[trigger] uses(held + as_values(regs), g) <= uses(
        held.push(r) + as_values(below),
        g,
    ) by {
        assert(as_values(regs) =~= as_values(below).push(r));
        lemma_uses_add(held, as_values(regs), g);
        lemma_uses_add(held.push(r), as_values(below), g);
    }
    lemma_owns_reorder(t, held.push(r) + as_values(below), held + as_values(regs));
    assert(t.known_uses(held.push(r), reg) > 0);
    assert(n.gpr(reg) == n2.gpr(reg));
    assert forall|g: GPR| g.valid() && t.known_uses(held, g) > 0 implies #[trigger] n.gpr(g)
        == before.gpr(g) by {
        lemma_uses_take(s2.stack, (len - count) as int, g);
        assert(s1.known_uses(held, g) > 0);
        assert(n2.gpr(g) == before.gpr(g));
        assert(t.known_uses(held.push(r), g) > 0);
        assert(n.gpr(g) == n2.gpr(g));
    }
    assert forall|i: int| 0 <= i < count implies #[trigger] regs[i] is Reg && t.value_of(
        n,
        regs[i].as_value(),
    ) == s.value_at(before, len - count + i) by {
        if i < count - 1 {
            assert(regs[i] == below[i]);
            let k = len - count + i;
            assert(s2.value_at(n2, k) == s.value_at(before, k)) by {
                assert(s.stack[k].valid());
                if s.stack[k] is Reg {
                    lemma_uses_at(s1.stack, k, s.stack[k]->Reg_0);
                    assert(s1.known_uses(held, s.stack[k]->Reg_0) > 0);
                    assert(n2.gpr(s.stack[k]->Reg_0) == before.gpr(s.stack[k]->Reg_0));
                }
            }
        }
    }
    assert forall|i: int| 0 <= i < count implies t.known_uses(held, (#[trigger] regs[i])->Reg_0)
        == 0 by {
        if i < count - 1 {
            assert(regs[i] == below[i]);
        } else {
            lemma_uses_take(s2.stack, (len - count) as int, reg);
        }
    }
    assert forall|i: int, j: int| 0 <= i < j < count implies #[trigger] regs[i]
        != #[trigger] regs[j] by {
        assert(regs[i] == below[i]);
        if j < count - 1 {
            assert(regs[j] == below[j]);
        }
    }
}

/// The lower part of the stack uses no register more often than the whole.
proof fn lemma_uses_take(vals: Seq<ValueLocation>, n: int, gpr: GPR)
    requires
        0 <= n <= vals.len(),
    ensures
        uses(vals.take(n), gpr) <= uses(vals, gpr),
{
    assert(vals =~= vals.take(n) + vals.skip(n));
    lemma_uses_add(vals.take(n), vals.skip(n), gpr);
}

/// Serializing arguments takes them from the stack and leaves each in a register of its own, in
/// the same order and unchanged. The values below them stay where they are.
pub proof fn serializing(s: State, m: Machine, count: nat)
    requires
        s.at(m),
        s.serialize(count).0.ok,
    ensures
        ({
            let (t, regs) = s.serialize(count);
            let n = ran(m, s.code, t.code);
            let len = s.stack.len() as int;
            &&& count <= s.stack.len()
            &&& regs.len() == count
            &&& t.owns(as_values(regs))
            &&& s.preserves(t, m, len - count)
            &&& t.stack.len() == len - count
            &&& forall|i: int|
                0 <= i < count ==> #[trigger] regs[i] is Reg && t.value_of(n, regs[i].as_value())
                    == s.value_at(m, len - count + i)
            &&& forall|i: int, j: int|
                0 <= i < j < count ==> #[trigger] regs[i] != #[trigger] regs[j]
        }),
{
    broadcast use lemma_ran_nothing;

    let (t, regs) = s.serialize(count);
    let n = ran(m, s.code, t.code);
    let len = s.stack.len() as int;
    lemma_serialize(s, m, s.code, none(), count);
    assert(none() + as_values(regs) =~= as_values(regs));
    assert(t.accounted()) by {
        assert forall|g: GPR| #[trigger] uses(none(), g) <= uses(as_values(regs), g) by {}
        lemma_owns_reorder(t, as_values(regs), none());
    }
    assert forall|i: int| 0 <= i < len - count implies #[trigger] t.stack[i] == s.stack[i]
        && t.value_at(n, i) == s.value_at(m, i) by {
        assert(s.stack[i].valid());
        if t.stack[i] is Reg {
            lemma_uses_at(t.stack, i, t.stack[i]->Reg_0);
            assert(t.known_uses(none(), t.stack[i]->Reg_0) > 0);
            assert(n.gpr(t.stack[i]->Reg_0) == m.gpr(t.stack[i]->Reg_0));
        }
    }
    assert forall|g: GPR| g.valid() && !is_scratch(g) implies #[trigger] n.gpr(g) == m.gpr(g) by {
        assert(t.known_uses(none(), g) > 0);
    }
}

} // verus!
