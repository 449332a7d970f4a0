//! The linear memory and globals.

use vstd::prelude::*;

use crate::insn::{Insn, Mem, Operand, Width};
use crate::laws::arith::lemma_owns_code;
use crate::laws::{lemma_push_result, lemma_result_in, none, one, two};
use crate::location::{ValueLocation, VMCTX};
use crate::machine::{load, size, signed, store, trunc, Machine};
use crate::memory::{
    is_narrow, lemma_store_at_ok, lemma_store_from_reg_ok, store_insn, LoadOp,
};
use crate::ownership::{
    lemma_owns_forget, lemma_owns_free, lemma_owns_pop, lemma_owns_reorder, lemma_uses_push,
    taken_is_unused,
};
use crate::registers::{rq, GPRType, RegId, GPR};
use crate::simulation::{
    grown, lemma_into_reg, lemma_into_temp_reg, lemma_ran_nothing, lemma_ran_push,
    load_after_narrow_store, load_after_store, load_beside_store, ran,
};
use crate::state::State;

verus! {

/// What a load leaves in the register when it finds `word`.
pub open spec fn loaded(op: LoadOp, word: u64) -> u64 {
    match op {
        LoadOp::Int(w) => trunc(w, word),
        LoadOp::Float(w) => match w {
            Width::Q => word,
            _ => trunc(Width::D, word),
        },
        LoadOp::ZeroExtend { w, src_w } => trunc(w, trunc(src_w, word)),
        LoadOp::SignExtend { w, src_w } => trunc(w, signed(src_w, trunc(src_w, word)) as u64),
    }
}

/// Whether the register that a load fills has 32 or 64 bits.
pub open spec fn fills(op: LoadOp) -> bool {
    match op {
        LoadOp::Int(w) => w is D || w is Q,
        LoadOp::Float(w) => w is D || w is Q,
        LoadOp::ZeroExtend { w, src_w } => w is D || w is Q,
        LoadOp::SignExtend { w, src_w } => w is D || w is Q,
    }
}

/// What an access with `loc` as its address operand adds to the start of the memory.
pub open spec fn address_operand(s: State, m: Machine, loc: ValueLocation) -> int {
    match loc {
        ValueLocation::Immediate(imm) => imm.as_i32()->0 as int,
        _ => s.value_of(m, loc) as int,
    }
}

/// The address that an access with `loc` as its address operand touches.
pub open spec fn effective(
    s: State,
    m: Machine,
    memory: u32,
    loc: ValueLocation,
    offset: u32,
) -> int {
    let base = load(m.mem, m.rq[VMCTX as int] + memory as i32) as int;
    base + address_operand(s, m, loc) + offset as i32
}

/// The address of the memory is loaded into an unused register.
proof fn lemma_memory_base(
    s: State,
    m: Machine,
    from: Seq<Insn>,
    held: Seq<ValueLocation>,
    memory: u32,
)
    requires
        s.reached(m, from),
        s.owns(held),
        s.load_memory_base(memory).0.ok,
    ensures
        ({
            let (t, ptr) = s.load_memory_base(memory);
            let before = ran(m, from, s.code);
            let n = ran(m, from, t.code);
            &&& s.ok
            &&& ptr is Rq
            &&& ptr.valid()
            &&& ptr != GPR::Rq(rq::RSP)
            &&& s.known_uses(held, ptr) == 0
            &&& t.reached(m, from)
            &&& t == (State { code: t.code, regs: t.regs, ..s })
            &&& t.owns(held.push(ValueLocation::Reg(ptr)))
            &&& n == before.with_gpr(
                ptr,
                load(before.mem, before.rq[VMCTX as int] + memory as i32),
            )
        }),
{
    broadcast use lemma_ran_push;

    let (s1, ptr) = s.take(GPRType::Rq);
    taken_is_unused(s, held, GPRType::Rq);
    let t = s.load_memory_base(memory).0;
    lemma_owns_code(s1, t, held.push(ValueLocation::Reg(ptr)));
}

/// Loading from an address into a register that is in hand.
proof fn lemma_load_to_reg(
    s: State,
    m: Machine,
    from: Seq<Insn>,
    held: Seq<ValueLocation>,
    memory: u32,
    op: LoadOp,
    dst: GPR,
    index: Option<RegId>,
    disp: i32,
)
    requires
        s.reached(m, from),
        fills(op),
        s.owns(held.push(ValueLocation::Reg(dst))),
        dst.type_() == op.file(),
        index is Some ==> index->0 < 16 && index->0 != rq::RSP && s.known_uses(
            held,
            GPR::Rq(index->0),
        ) > 0,
        s.load_to_reg(memory, op, dst, index, disp).ok,
    ensures
        ({
            let t = s.load_to_reg(memory, op, dst, index, disp);
            let before = ran(m, from, s.code);
            let n = ran(m, from, t.code);
            let base = load(before.mem, before.rq[VMCTX as int] + memory as i32) as int;
            let addr = base + disp + (match index {
                Some(r) => before.rq[r as int] as int,
                None => 0,
            });
            &&& s.ok
            &&& t.reached(m, from)
            &&& t == (State { code: t.code, regs: t.regs, ..s })
            &&& t.owns(held.push(ValueLocation::Reg(dst)))
            &&& n.mem == before.mem
            &&& n.rsp == before.rsp
            &&& n.gpr(dst) == loaded(op, load(before.mem, addr))
            &&& forall|g: GPR|
                g.valid() && g != dst && s.known_uses(held, g) > 0 ==> #[trigger] n.gpr(g)
                    == before.gpr(g)
        }),
{
    broadcast use {lemma_ran_push, lemma_uses_push};

    let d = ValueLocation::Reg(dst);
    let (s1, ptr) = s.load_memory_base(memory);
    let p = ValueLocation::Reg(ptr);
    assert(s1.ok);
    assert(held.push(d)[held.len() as int].valid());
    lemma_memory_base(s, m, from, held.push(d), memory);
    let mem = Mem { base: ptr.id(), index, disp };
    let s2 = s1.emit(op.insn(dst, mem));
    lemma_owns_code(s1, s2, held.push(d).push(p));
    lemma_owns_free(s2, held.push(d), p);
    let before = ran(m, from, s.code);
    let n1 = ran(m, from, s1.code);
    let n2 = ran(m, from, s2.code);
    if index is Some {
        let i = GPR::Rq(index->0);
        assert(s.known_uses(held.push(d), i) > 0);
        assert(n1.gpr(i) == before.gpr(i));
    }
    assert(n2 == n1.with_gpr(dst, loaded(op, load(n1.mem, n1.addr(mem)))));
    assert forall|g: GPR|
        g.valid() && g != dst && s.known_uses(held, g) > 0 implies #[trigger] n2.gpr(
        g,
    ) == before.gpr(g) by {
        assert(s.known_uses(held.push(d), g) > 0);
        assert(n1.gpr(g) == before.gpr(g));
    }
}

proof fn lemma_load_constant(s: State, m: Machine, memory: u32, op: LoadOp, offset: u32)
    requires
        s.at(m),
        s.load(memory, op, offset).ok,
        fills(op),
        s.stack.len() > 0,
        s.stack.last() is Immediate,
    ensures
        s.computes(
            s.load(memory, op, offset),
            m,
            1,
            Width::Q,
            loaded(op, load(m.mem, effective(s, m, memory, s.stack.last(), offset))),
        ),
{
    broadcast use {lemma_ran_nothing, lemma_uses_push};

    let (s1, base) = s.pop();
    let (s2, temp) = s1.take(op.file());
    let r = ValueLocation::Reg(temp);
    lemma_owns_pop(s, none());
    assert(s1.stack =~= s.stack.take(s.stack.len() - 1));
    let imm = base->Immediate_0;
    let disp = (offset as i32 + imm.as_i32()->0) as i32;
    lemma_owns_forget(s1, none(), base);
    taken_is_unused(s1, none(), op.file());
    let s3 = s2.load_to_reg(memory, op, temp, None, disp);
    assert(s3.ok && s2.ok);
    lemma_load_to_reg(s2, m, s.code, none(), memory, op, temp, None, disp);
    let n3 = ran(m, s.code, s3.code);
    assert(s3.same_values(none(), m, n3)) by {
        assert forall|g: GPR| g.valid() && s3.known_uses(none(), g) > 0 implies #[trigger] n3.gpr(g)
            == m.gpr(g) by {
            assert(s2.known_uses(none(), g) > 0);
        }
    }
    lemma_push_result(s, s3, m, 1, r);
    assert(s.load(memory, op, offset) == s3.push(r));
}

/// Loading from the address in hand. The values below are those of `s`.
proof fn lemma_load_indexed(
    s: State,
    u: State,
    m: Machine,
    memory: u32,
    op: LoadOp,
    temp: GPR,
    base: ValueLocation,
    disp: i32,
)
    requires
        s.at(m),
        fills(op),
        s.stack.len() > 0,
        u.reached(m, s.code),
        ran(m, s.code, u.code) == m,
        u.stack == s.stack.take(s.stack.len() - 1),
        u.depth == s.depth,
        u.owns(two(ValueLocation::Reg(temp), base)),
        u.known_uses(one(base), temp) == 0,
        temp.type_() == op.file(),
        ({
            let (s3, gpr) = u.into_reg(Some(GPRType::Rq), base);
            s3.load_to_reg(memory, op, temp, Some(gpr.id()), disp).release(gpr).ok
        }),
    ensures
        ({
            let (s3, gpr) = u.into_reg(Some(GPRType::Rq), base);
            let t = s3.load_to_reg(memory, op, temp, Some(gpr.id()), disp).release(gpr);
            let start = load(m.mem, m.rq[VMCTX as int] + memory as i32) as int;
            s.computes(
                t.push(ValueLocation::Reg(temp)),
                m,
                1,
                Width::Q,
                loaded(op, load(m.mem, start + disp + u.value_of(m, base) as int)),
            )
        }),
{
    broadcast use lemma_uses_push;

    let r = ValueLocation::Reg(temp);
    let (s3, gpr) = u.into_reg(Some(GPRType::Rq), base);
    let i = ValueLocation::Reg(gpr);
    let s4 = s3.load_to_reg(memory, op, temp, Some(gpr.id()), disp);
    assert(s3.ok && s4.ok) by {
        assert(s3.load_to_reg(memory, op, temp, Some(gpr.id()), disp).ok);
    }
    lemma_into_reg(u, m, s.code, one(r), Some(GPRType::Rq), base);
    lemma_owns_reorder(s3, two(r, i), two(i, r));
    assert(two(i, r)[0].valid());
    assert(s3.known_uses(one(i), gpr) > 0);
    lemma_load_to_reg(s3, m, s.code, one(i), memory, op, temp, Some(gpr.id()), disp);
    lemma_owns_reorder(s4, two(i, r), two(r, i));
    lemma_owns_free(s4, one(r), i);
    let s5 = s4.release(gpr);
    let n3 = ran(m, s.code, s3.code);
    let n5 = ran(m, s.code, s5.code);
    assert(n3.gpr(GPR::Rq(VMCTX)) == m.gpr(GPR::Rq(VMCTX))) by {
        assert(u.known_uses(one(r), GPR::Rq(VMCTX)) > 0);
    }
    assert(s5.same_values(none(), m, n5)) by {
        assert forall|g: GPR| g.valid() && s5.known_uses(none(), g) > 0 implies #[trigger] n5.gpr(g)
            == m.gpr(g) by {
            assert(u.known_uses(one(r), g) > 0);
            assert(n3.gpr(g) == m.gpr(g));
            assert(s3.known_uses(one(i), g) > 0);
            assert(n5.gpr(g) == n3.gpr(g));
        }
    }
    lemma_push_result(s, s5, m, 1, r);
}

/// The loads leave on the stack what stands in the memory at the address on top of the stack.
pub proof fn loading(s: State, m: Machine, memory: u32, op: LoadOp, offset: u32)
    requires
        s.at(m),
        s.load(memory, op, offset).ok,
        fills(op),
    ensures
        s.computes(
            s.load(memory, op, offset),
            m,
            1,
            Width::Q,
            loaded(op, load(m.mem, effective(s, m, memory, s.stack.last(), offset))),
        ),
{
    broadcast use {lemma_ran_nothing, lemma_uses_push};

    let (s1, base) = s.pop();
    if base is Immediate {
        lemma_load_constant(s, m, memory, op, offset);
    } else {
        let (s2, temp) = s1.take(op.file());
        let r = ValueLocation::Reg(temp);
        lemma_owns_pop(s, none());
        assert(s1.stack =~= s.stack.take(s.stack.len() - 1));
        let (s3, gpr) = s2.into_reg(Some(GPRType::Rq), base);
        assert(s2.ok);
        taken_is_unused(s1, one(base), op.file());
        lemma_owns_reorder(s2, two(base, r), two(r, base));
        lemma_load_indexed(s, s2, m, memory, op, temp, base, offset as i32);
    }
}

impl State {
    /// Whether the step from `self` to `t`, whatever machine runs its code, replaces the address on
    /// top of the stack by the number of the given width that stands there in the memory.
    pub open spec fn reads(self, t: State, memory: u32, w: Width, offset: u32) -> bool {
        forall|m: Machine| #[trigger]
            self.at(m) ==> self.computes(
                t,
                m,
                1,
                Width::Q,
                trunc(w, load(m.mem, effective(self, m, memory, self.stack.last(), offset))),
            )
    }
}

pub proof fn lemma_reads(s: State, memory: u32, op: LoadOp, w: Width, offset: u32)
    requires
        s.load(memory, op, offset).ok,
        w is D || w is Q,
        op == LoadOp::Int(w) || op == LoadOp::Float(w),
    ensures
        s.reads(s.load(memory, op, offset), memory, w, offset),
{
    assert forall|m: Machine| #[trigger] s.at(m) implies s.computes(
        s.load(memory, op, offset),
        m,
        1,
        Width::Q,
        trunc(w, load(m.mem, effective(s, m, memory, s.stack.last(), offset))),
    ) by {
        loading(s, m, memory, op, offset);
    }
}

/// Storing a value that is in hand in a register.
proof fn lemma_store_from_reg(
    s: State,
    m: Machine,
    from: Seq<Insn>,
    held: Seq<ValueLocation>,
    memory: u32,
    w: Width,
    src: GPR,
    index: Option<RegId>,
    disp: i32,
)
    requires
        s.reached(m, from),
        s.owns(held.push(ValueLocation::Reg(src))),
        index is Some ==> index->0 < 16 && index->0 != rq::RSP && s.known_uses(
            held,
            GPR::Rq(index->0),
        ) > 0,
        s.store_from_reg(memory, w, src, index, disp).ok,
    ensures
        ({
            let t = s.store_from_reg(memory, w, src, index, disp);
            let before = ran(m, from, s.code);
            let n = ran(m, from, t.code);
            let base = load(before.mem, before.rq[VMCTX as int] + memory as i32) as int;
            let addr = base + disp + (match index {
                Some(r) => before.rq[r as int] as int,
                None => 0,
            });
            &&& s.ok
            &&& t.reached(m, from)
            &&& t == (State { code: t.code, regs: t.regs, ..s })
            &&& t.owns(held)
            &&& n.mem == store(before.mem, w, addr, trunc(w, before.gpr(src)))
            &&& n.rsp == before.rsp
            &&& s.same_registers(held, before, n)
        }),
{
    broadcast use {lemma_ran_push, lemma_uses_push};

    reveal(State::store_from_reg);
    let r = ValueLocation::Reg(src);
    let before = ran(m, from, s.code);
    let (s1, ptr) = s.load_memory_base(memory);
    let p = ValueLocation::Reg(ptr);
    let (s2, from_reg) = if is_narrow(w) {
        s1.into_temp_reg(Some(GPRType::Rq), r)
    } else {
        (s1, src)
    };
    let f = ValueLocation::Reg(from_reg);
    assert(s1.ok && s2.ok);
    assert(held.push(r)[held.len() as int].valid());
    lemma_memory_base(s, m, from, held.push(r), memory);
    lemma_owns_reorder(s1, held.push(r).push(p), held.push(p).push(r));
    if is_narrow(w) {
        lemma_into_temp_reg(s1, m, from, held.push(p), Some(GPRType::Rq), r);
    }
    assert(s2.owns(held.push(p).push(f)));
    let n1 = ran(m, from, s1.code);
    let n2 = ran(m, from, s2.code);
    assert(s.known_uses(held.push(r), src) > 0);
    assert(n1.gpr(src) == before.gpr(src));
    assert(n2.gpr(from_reg) == before.gpr(src));
    assert(s1.known_uses(held.push(p), ptr) > 0);
    assert(n2.gpr(ptr) == n1.gpr(ptr));
    if index is Some {
        let i = GPR::Rq(index->0);
        assert(s.known_uses(held.push(r), i) > 0);
        assert(n1.gpr(i) == before.gpr(i));
        assert(s1.known_uses(held.push(p), i) > 0);
        assert(n2.gpr(i) == n1.gpr(i));
    }
    let mem = Mem { base: ptr.id(), index, disp };
    let s3 = s2.emit(store_insn(w, mem, from_reg));
    lemma_owns_code(s2, s3, held.push(p).push(f));
    lemma_owns_reorder(s3, held.push(p).push(f), held.push(f).push(p));
    lemma_owns_free(s3, held.push(f), p);
    let s4 = s3.release(ptr);
    lemma_owns_free(s4, held, f);
    let n3 = ran(m, from, s3.code);
    assert(n3.mem == store(n2.mem, w, n2.addr(mem), trunc(w, n2.gpr(from_reg))));
    assert forall|g: GPR| g.valid() && s.known_uses(held, g) > 0 implies #[trigger] n3.gpr(g)
        == before.gpr(g) by {
        assert(s.known_uses(held.push(r), g) > 0);
        assert(n1.gpr(g) == before.gpr(g));
        assert(s1.known_uses(held.push(p), g) > 0);
        assert(n2.gpr(g) == n1.gpr(g));
    }
}

impl State {
    /// Whether the code of the step from `self` to `t`, run from `m`, takes the topmost `count`
    /// values from the stack, makes the memory `mem`, and leaves all else as it was.
    pub open spec fn writes(
        self,
        t: State,
        m: Machine,
        count: int,
        mem: spec_fn(int) -> u8,
    ) -> bool {
        let n = ran(m, self.code, t.code);
        &&& grown(self.code, t.code)
        &&& n.wf()
        &&& n.next is Next
        &&& n.mem == mem
        &&& n.rsp == m.rsp
        &&& t.depth == self.depth
        &&& t.stack == self.stack.take(self.stack.len() - count)
        &&& t.accounted()
        &&& t.same_registers(none(), m, n)
    }
}

impl State {
    /// Whether the value of the address operand `base` and the value to store, which is in
    /// `src`, are in hand, and all else is as it was in `before`.
    pub open spec fn about_to_store(
        self,
        before: State,
        m: Machine,
        base: ValueLocation,
        val: ValueLocation,
        src: GPR,
    ) -> bool {
        let n = ran(m, before.code, self.code);
        &&& self.reached(m, before.code)
        &&& self.stack == before.stack.take(before.stack.len() - 2)
        &&& self.depth == before.depth
        &&& self.owns(two(base, ValueLocation::Reg(src)))
        &&& n.gpr(src) == before.value_of(m, val)
        &&& self.value_of(n, base) == before.value_of(m, base)
        &&& n.mem == m.mem
        &&& n.rsp == m.rsp
        &&& self.same_registers(none(), m, n)
    }
}

proof fn lemma_store_started(s: State, m: Machine, offset: u32)
    requires
        s.at(m),
        s.stack.len() >= 2,
        ({
            let (s1, src) = s.need(offset <= i32::MAX).pop();
            let (s2, base) = s1.pop();
            s2.into_reg(None, src).0.ok
        }),
    ensures
        ({
            let (s1, src) = s.need(offset <= i32::MAX).pop();
            let (s2, base) = s1.pop();
            let (u, src_reg) = s2.into_reg(None, src);
            u.about_to_store(s, m, base, src, src_reg)
        }),
{
    broadcast use {lemma_ran_nothing, lemma_uses_push};

    let s0 = s.need(offset <= i32::MAX);
    let (s1, src) = s0.pop();
    let (s2, base) = s1.pop();
    lemma_owns_code(s, s0, none());
    lemma_owns_pop(s0, none());
    lemma_owns_pop(s1, one(src));
    assert(s2.stack =~= s.stack.take(s.stack.len() - 2));
    lemma_owns_reorder(s2, two(src, base), two(base, src));
    let (s3, src_reg) = s2.into_reg(None, src);
    lemma_into_reg(s2, m, s.code, one(base), None, src);
    assert(two(base, src)[0].valid());
    let n3 = ran(m, s.code, s3.code);
    assert(s3.value_of(n3, base) == s.value_of(m, base)) by {
        if base is Reg {
            assert(s2.known_uses(one(base), base->Reg_0) > 0);
            assert(n3.gpr(base->Reg_0) == m.gpr(base->Reg_0));
        }
    }
    assert forall|g: GPR| g.valid() && s3.known_uses(none(), g) > 0 implies #[trigger] n3.gpr(g)
        == m.gpr(g) by {
        assert(s2.known_uses(one(base), g) > 0);
    }
}

proof fn lemma_store_constant(
    s: State,
    u: State,
    m: Machine,
    memory: u32,
    w: Width,
    base: ValueLocation,
    val: ValueLocation,
    src: GPR,
    disp: i32,
)
    requires
        u.about_to_store(s, m, base, val, src),
        u.store_from_reg(memory, w, src, None, disp).ok,
    ensures
        ({
            let start = load(m.mem, m.rq[VMCTX as int] + memory as i32) as int;
            s.writes(
                u.store_from_reg(memory, w, src, None, disp),
                m,
                2,
                store(m.mem, w, start + disp, trunc(w, s.value_of(m, val))),
            )
        }),
{
    broadcast use lemma_uses_push;

    let r = ValueLocation::Reg(src);
    let vm = GPR::Rq(VMCTX);
    let before = ran(m, s.code, u.code);
    assert(before.gpr(vm) == m.gpr(vm)) by {
        assert(u.known_uses(none(), vm) > 0);
    }
    lemma_owns_reorder(u, two(base, r), one(r));
    lemma_store_from_reg(u, m, s.code, none(), memory, w, src, None, disp);
    let t = u.store_from_reg(memory, w, src, None, disp);
    let n = ran(m, s.code, t.code);
    assert forall|g: GPR| g.valid() && t.known_uses(none(), g) > 0 implies #[trigger] n.gpr(g)
        == m.gpr(g) by {
        assert(u.known_uses(none(), g) > 0);
        assert(before.gpr(g) == m.gpr(g));
        assert(n.gpr(g) == before.gpr(g));
    }
}

/// Storing the value in `src` at the address in `base`.
proof fn lemma_store_at(
    s: State,
    u: State,
    m: Machine,
    memory: u32,
    w: Width,
    base: ValueLocation,
    val: ValueLocation,
    src: GPR,
    offset: u32,
)
    requires
        u.about_to_store(s, m, base, val, src),
        u.store_at(memory, w, base, src, offset).ok,
    ensures
        s.writes(
            u.store_at(memory, w, base, src, offset),
            m,
            2,
            store(
                m.mem,
                w,
                effective(s, m, memory, base, offset),
                trunc(w, s.value_of(m, val)),
            ),
        ),
        u.ok,
{
    lemma_store_at_ok(u, memory, w, base, src, offset);
    let t = u.store_at(memory, w, base, src, offset);
    let start = load(m.mem, m.rq[VMCTX as int] + memory as i32) as int;
    let val_bits = trunc(w, s.value_of(m, val));
    let addr = effective(s, m, memory, base, offset);
    if base is Immediate {
        let imm = base->Immediate_0;
        let disp = (offset as i32 + imm.as_i32()->0) as i32;
        assert(u.need(
            imm.as_i32() is Some && i32::MIN <= offset as i32 + imm.as_i32()->0 <= i32::MAX,
        ) == u);
        assert(t == u.store_from_reg(memory, w, src, None, disp));
        lemma_store_constant(s, u, m, memory, w, base, val, src, disp);
        assert(addr == start + disp);
        assert(s.writes(t, m, 2, store(m.mem, w, addr, val_bits)));
    } else {
        let (s4, gpr) = u.into_reg(Some(GPRType::Rq), base);
        assert(t == s4.store_from_reg(memory, w, src, Some(gpr.id()), offset as i32).release(gpr));
        lemma_store_indexed(s, u, m, memory, w, base, val, src, offset as i32);
        assert(addr == start + offset as i32 + s.value_of(m, base) as int);
        assert(s.writes(t, m, 2, store(m.mem, w, addr, val_bits)));
    }
}

/// The stores write the lowest bits of the top of the stack to the memory at the address below
/// it, and take both from the stack.
pub proof fn storing(s: State, m: Machine, memory: u32, w: Width, offset: u32)
    requires
        s.at(m),
        s.store(memory, w, offset).ok,
    ensures
        s.writes(
            s.store(memory, w, offset),
            m,
            2,
            store(
                m.mem,
                w,
                effective(s, m, memory, s.stack[s.stack.len() - 2], offset),
                trunc(w, s.top(m, 0)),
            ),
        ),
{
    let (s1, src) = s.need(offset <= i32::MAX).pop();
    let (s2, base) = s1.pop();
    let (s3, src_reg) = s2.into_reg(None, src);
    lemma_store_at_ok(s3, memory, w, base, src_reg, offset);
    assert(s2.ok && s1.ok);
    lemma_store_started(s, m, offset);
    lemma_store_at(s, s3, m, memory, w, base, src, src_reg, offset);
}

/// Storing the value in `src` at the address in hand.
proof fn lemma_store_indexed(
    s: State,
    u: State,
    m: Machine,
    memory: u32,
    w: Width,
    base: ValueLocation,
    val: ValueLocation,
    src: GPR,
    disp: i32,
)
    requires
        u.about_to_store(s, m, base, val, src),
        ({
            let (s4, gpr) = u.into_reg(Some(GPRType::Rq), base);
            s4.store_from_reg(memory, w, src, Some(gpr.id()), disp).release(gpr).ok
        }),
    ensures
        ({
            let (s4, gpr) = u.into_reg(Some(GPRType::Rq), base);
            let t = s4.store_from_reg(memory, w, src, Some(gpr.id()), disp).release(gpr);
            let start = load(m.mem, m.rq[VMCTX as int] + memory as i32) as int;
            s.writes(
                t,
                m,
                2,
                store(
                    m.mem,
                    w,
                    start + disp + s.value_of(m, base) as int,
                    trunc(w, s.value_of(m, val)),
                ),
            )
        }),
{
    broadcast use lemma_uses_push;

    let r = ValueLocation::Reg(src);
    let vm = GPR::Rq(VMCTX);
    let before = ran(m, s.code, u.code);
    lemma_owns_reorder(u, two(base, r), two(r, base));
    let (s4, gpr) = u.into_reg(Some(GPRType::Rq), base);
    let i = ValueLocation::Reg(gpr);
    let s5 = s4.store_from_reg(memory, w, src, Some(gpr.id()), disp);
    assert(s5.ok);
    lemma_store_from_reg_ok(s4, memory, w, src, Some(gpr.id()), disp);
    assert(two(r, base)[0].valid());
    lemma_into_reg(u, m, s.code, one(r), Some(GPRType::Rq), base);
    lemma_owns_reorder(s4, two(r, i), two(i, r));
    assert(two(i, r)[0].valid());
    assert(s4.known_uses(one(i), gpr) > 0);
    lemma_store_from_reg(s4, m, s.code, one(i), memory, w, src, Some(gpr.id()), disp);
    lemma_owns_free(s5, none(), i);
    let t = s5.release(gpr);
    let n4 = ran(m, s.code, s4.code);
    let n = ran(m, s.code, t.code);
    assert(n4.gpr(vm) == m.gpr(vm)) by {
        assert(u.known_uses(one(r), vm) > 0);
        assert(u.known_uses(none(), vm) > 0);
        assert(before.gpr(vm) == m.gpr(vm));
    }
    assert(n4.gpr(src) == before.gpr(src)) by {
        assert(u.known_uses(one(r), src) > 0);
    }
    assert forall|g: GPR| g.valid() && t.known_uses(none(), g) > 0 implies #[trigger] n.gpr(g)
        == m.gpr(g) by {
        assert(u.known_uses(none(), g) > 0);
        assert(before.gpr(g) == m.gpr(g));
        assert(u.known_uses(one(r), g) > 0);
        assert(n4.gpr(g) == before.gpr(g));
        assert(s4.known_uses(one(i), g) > 0);
        assert(n.gpr(g) == n4.gpr(g));
    }
}

/// The address of the global that stands `offset` bytes from the start of the VM context.
pub open spec fn global_address(m: Machine, offset: u32) -> int {
    m.rq[VMCTX as int] + offset as i32
}

/// `global.get` leaves on the stack what the global holds.
pub proof fn reading_global(s: State, m: Machine, offset: u32)
    requires
        s.at(m),
        s.get_global(offset).ok,
    ensures
        s.computes(
            s.get_global(offset),
            m,
            0,
            Width::Q,
            load(m.mem, global_address(m, offset)),
        ),
{
    broadcast use {lemma_ran_push, lemma_ran_nothing, lemma_uses_push};

    let (s1, out) = s.take(GPRType::Rq);
    taken_is_unused(s, none(), GPRType::Rq);
    let s2 = s1.emit(
        Insn::Mov {
            w: Width::Q,
            dst: Operand::Gpr(out),
            src: Operand::at(VMCTX, offset as i32),
        },
    );
    lemma_owns_code(s1, s2, one(ValueLocation::Reg(out)));
    assert(s2.stack =~= s.stack.take(s.stack.len() - 0));
    lemma_result_in(s, s2, m, 0, out);
}

/// `global.set` writes the top of the stack to the global.
pub proof fn writing_global(s: State, m: Machine, offset: u32)
    requires
        s.at(m),
        s.set_global(offset).ok,
    ensures
        s.writes(
            s.set_global(offset),
            m,
            1,
            store(m.mem, Width::Q, global_address(m, offset), s.top(m, 0)),
        ),
{
    broadcast use {lemma_ran_push, lemma_ran_nothing, lemma_uses_push};

    let (s1, val) = s.pop();
    let (s2, reg) = s1.into_reg(Some(GPRType::Rq), val);
    let r = ValueLocation::Reg(reg);
    lemma_owns_pop(s, none());
    assert(s1.stack =~= s.stack.take(s.stack.len() - 1));
    assert(s2.ok);
    lemma_into_reg(s1, m, s.code, none(), Some(GPRType::Rq), val);
    let s3 = s2.emit(
        Insn::Mov {
            w: Width::Q,
            dst: Operand::at(VMCTX, offset as i32),
            src: Operand::Gpr(reg),
        },
    );
    lemma_owns_code(s2, s3, one(r));
    lemma_owns_free(s3, none(), r);
    let n2 = ran(m, s.code, s2.code);
    assert(n2.gpr(GPR::Rq(VMCTX)) == m.gpr(GPR::Rq(VMCTX))) by {
        assert(s1.known_uses(none(), GPR::Rq(VMCTX)) > 0);
    }
    let t = s3.release(reg);
    let n = ran(m, s.code, t.code);
    assert forall|g: GPR| g.valid() && t.known_uses(none(), g) > 0 implies #[trigger] n.gpr(g)
        == m.gpr(g) by {
        assert(s1.known_uses(none(), g) > 0);
        assert(n2.gpr(g) == m.gpr(g));
    }
}

/// A global that was written is read as it was written: `global.set` followed by `global.get`
/// leaves on the stack the value that was there before.
pub proof fn global_written_and_read(s: State, m: Machine, offset: u32)
    requires
        s.at(m),
        s.set_global(offset).get_global(offset).ok,
    ensures
        ({
            let t = s.set_global(offset).get_global(offset);
            let n1 = ran(m, s.code, s.set_global(offset).code);
            let n = ran(n1, s.set_global(offset).code, t.code);
            t.top(n, 0) == s.top(m, 0)
        }),
{
    let t = s.set_global(offset);
    assert(t.ok);
    writing_global(s, m, offset);
    let n = ran(m, s.code, t.code);
    let vm = GPR::Rq(VMCTX);
    assert(n.gpr(vm) == m.gpr(vm)) by {
        assert(t.known_uses(none(), vm) > 0);
    }
    load_after_store(m.mem, global_address(m, offset), s.top(m, 0));
    reading_global(t, n, offset);
}

/// The load that reads back what a store of this width wrote.
pub open spec fn load_of(w: Width) -> LoadOp {
    match w {
        Width::D => LoadOp::Int(Width::D),
        Width::Q => LoadOp::Int(Width::Q),
        _ => LoadOp::ZeroExtend { w: Width::D, src_w: w },
    }
}

/// What was stored is loaded again: a store followed by a load from the same address, which is at
/// `loc` then, leaves on the stack the lowest bits of the value that was stored, if the store did
/// not hit the VM context.
pub proof fn memory_written_and_read(
    s: State,
    m: Machine,
    memory: u32,
    w: Width,
    offset: u32,
    loc: ValueLocation,
)
    requires
        s.at(m),
        s.store(memory, w, offset).ok,
        ({
            let t = s.store(memory, w, offset);
            let n = ran(m, s.code, t.code);
            let u = t.push(loc);
            &&& u.accounted()
            &&& u.load(memory, load_of(w), offset).ok
            &&& address_operand(u, n, loc) == address_operand(s, m, s.stack[s.stack.len() - 2])
        }),
        ({
            let addr = effective(s, m, memory, s.stack[s.stack.len() - 2], offset);
            let base = m.rq[VMCTX as int] + memory as i32;
            base + 8 <= addr || addr + size(w) <= base
        }),
    ensures
        ({
            let t = s.store(memory, w, offset);
            let u = t.push(loc);
            let v = u.load(memory, load_of(w), offset);
            let n = ran(ran(m, s.code, t.code), u.code, v.code);
            trunc(w, v.top(n, 0)) == trunc(w, s.top(m, 0))
        }),
{
    let t = s.store(memory, w, offset);
    storing(s, m, memory, w, offset);
    let n = ran(m, s.code, t.code);
    let u = t.push(loc);
    let addr = effective(s, m, memory, s.stack[s.stack.len() - 2], offset);
    let base = m.rq[VMCTX as int] + memory as i32;
    let val = trunc(w, s.top(m, 0));
    assert(n.gpr(GPR::Rq(VMCTX)) == m.gpr(GPR::Rq(VMCTX))) by {
        assert(t.known_uses(none(), GPR::Rq(VMCTX)) > 0);
    }
    load_beside_store(m.mem, w, addr, val, base);
    assert(u.stack.last() == loc);
    assert(effective(u, n, memory, loc, offset) == addr);
    load_after_narrow_store(m.mem, w, addr, val);
    loading(u, n, memory, load_of(w), offset);
    lemma_trunc_twice(w, s.top(m, 0));
    lemma_trunc_twice(w, load(n.mem, addr));
}

proof fn lemma_trunc_twice(w: Width, v: u64)
    ensures
        trunc(w, trunc(w, v)) == trunc(w, v),
        !(w is Q) ==> trunc(w, trunc(Width::D, trunc(w, v))) == trunc(w, v),
{
    assert(((v as u8) as u64) as u8 == v as u8
        && (((v as u8) as u64) as u32 as u64) as u8 == v as u8
        && ((v as u16) as u64) as u16 == v as u16 && (((v as u16) as u64) as u32 as u64) as u16
        == v as u16 && ((v as u32) as u64) as u32 == v as u32) by (bit_vector);
}

} // verus!
