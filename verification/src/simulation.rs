//! What the steps of code generation mean for the machine: running the code that a step emits
//! moves values to where the step says they are, and disturbs no value that is in use.

use vstd::prelude::*;

use crate::bits::{lemma_i64_views, lemma_u64_views};
use crate::insn::{Insn, Width};
use crate::location::ValueLocation;
use crate::machine::{byte_of, load, run, size, store, trunc, Machine};
use crate::microwasm::Value;
use crate::ownership::{
    lemma_owns_free, lemma_owns_swap, lemma_uses_push, taken_is_unused, use_then_release,
};
use crate::registers::{lemma_lowest_free, rq, GPRType, RegId, GPR};
use crate::state::{file_or_rq, State};

verus! {

/// The machine after the code that `to` has beyond `from`, run from `m`.
pub open spec fn ran(m: Machine, from: Seq<Insn>, to: Seq<Insn>) -> Machine {
    run(m, to.skip(from.len() as int))
}

/// Whether `to` is `from` with code appended.
pub open spec fn grown(from: Seq<Insn>, to: Seq<Insn>) -> bool {
    &&& from.len() <= to.len()
    &&& forall|i: int| 0 <= i < from.len() ==> #[trigger] to[i] == from[i]
}

pub broadcast proof fn lemma_ran_push(m: Machine, from: Seq<Insn>, to: Seq<Insn>, insn: Insn)
    requires
        from.len() <= to.len(),
    ensures
        #[trigger] ran(m, from, to.push(insn)) == ({
            let n = ran(m, from, to);
            if n.next is Next {
                n.step(insn)
            } else {
                n
            }
        }),
{
    let all = to.push(insn).skip(from.len() as int);
    assert(all.drop_last() =~= to.skip(from.len() as int));
}

pub broadcast proof fn lemma_ran_nothing(m: Machine, code: Seq<Insn>)
    ensures
        #[trigger] ran(m, code, code) == m,
{
}

/// Running code in two parts.
pub proof fn lemma_ran_on(m: Machine, from: Seq<Insn>, mid: Seq<Insn>, to: Seq<Insn>)
    requires
        grown(from, mid),
        grown(mid, to),
    ensures
        ran(m, from, to) == (if ran(m, from, mid).next is Next {
            ran(ran(m, from, mid), mid, to)
        } else {
            ran(m, from, mid)
        }),
    decreases to.len(),
{
    if to.len() == mid.len() {
        assert(to =~= mid);
        lemma_ran_nothing(ran(m, from, mid), mid);
    } else {
        let rest = to.drop_last();
        assert(rest.push(to.last()) =~= to);
        lemma_ran_on(m, from, mid, rest);
        lemma_ran_push(m, from, rest, to.last());
        lemma_ran_push(ran(m, from, mid), mid, rest, to.last());
    }
}

/// No instruction moves the jump table.
pub proof fn lemma_same_table(m: Machine, from: Seq<Insn>, to: Seq<Insn>)
    ensures
        ran(m, from, to).table == m.table,
{
    lemma_run_same_table(m, to.skip(from.len() as int));
}

proof fn lemma_run_same_table(m: Machine, code: Seq<Insn>)
    ensures
        run(m, code).table == m.table,
    decreases code.len(),
{
    if code.len() > 0 {
        lemma_run_same_table(m, code.drop_last());
    }
}

impl ValueLocation {
    /// Whether this is the constant zero, which is loaded by an instruction that changes the
    /// flags.
    pub open spec fn is_zero(self) -> bool {
        self is Immediate && self->Immediate_0.as_bytes() == 0
    }

    /// Whether the flags are as they were in `m`, or such as loading the constant zero leaves
    /// them.
    pub open spec fn leaves_flags(self, m: Machine, n: Machine) -> bool {
        n.flags == m.flags || self.is_zero() && n.flags is Some && n.flags->0.zero
    }
}

impl State {
    /// The value at `loc`: in a register, in a slot of the machine's stack, or a constant.
    pub open spec fn value_of(self, m: Machine, loc: ValueLocation) -> u64 {
        match loc {
            ValueLocation::Reg(gpr) => m.gpr(gpr),
            ValueLocation::Stack(o) => load(m.mem, m.rsp + self.slot_disp(o)),
            ValueLocation::Immediate(val) => val.as_bytes() as u64,
        }
    }

    /// Whether the machine is about to run what comes after the code emitted so far, if it was
    /// at `from` with the registers and the memory of `m`.
    pub open spec fn reached(self, m: Machine, from: Seq<Insn>) -> bool {
        &&& grown(from, self.code)
        &&& ran(m, from, self.code).wf()
        &&& ran(m, from, self.code).next is Next
    }

    /// Whether all registers that have a known use hold the same in `m` and `n`.
    pub open spec fn same_registers(
        self,
        held: Seq<ValueLocation>,
        m: Machine,
        n: Machine,
    ) -> bool {
        forall|g: GPR| g.valid() && self.known_uses(held, g) > 0 ==> #[trigger] n.gpr(g) == m.gpr(g)
    }

    /// Whether the machines `m` and `n` agree on all that is in use: the registers, the memory
    /// and the stack pointer.
    pub open spec fn same_values(self, held: Seq<ValueLocation>, m: Machine, n: Machine) -> bool {
        &&& n.mem == m.mem
        &&& n.rsp == m.rsp
        &&& self.same_registers(held, m, n)
    }
}

pub proof fn lemma_small_immediate(bytes: i64)
    requires
        bytes as u64 <= 0xffff_ffff,
    ensures
        ((bytes as i32) as i64) as u64 as u32 as u64 == bytes as u64,
{
    lemma_i64_views(bytes);
}

pub proof fn lemma_xor_self(v: u64)
    ensures
        v ^ v == 0,
{
    lemma_u64_views(v);
}

proof fn lemma_bytes(v: u64)
    by (bit_vector)
    ensures
        (((v >> 0u64) as u8) as u64) | (((v >> 8u64) as u8) as u64) << 8u64 | (((v
            >> 16u64) as u8) as u64) << 16u64 | (((v >> 24u64) as u8) as u64) << 24u64 | (((v
            >> 32u64) as u8) as u64) << 32u64 | (((v >> 40u64) as u8) as u64) << 40u64 | (((v
            >> 48u64) as u8) as u64) << 48u64 | (((v >> 56u64) as u8) as u64) << 56u64 == v,
{
}

/// A word that was stored is loaded again.
pub proof fn load_after_store(mem: spec_fn(int) -> u8, addr: int, val: u64)
    ensures
        load(store(mem, Width::Q, addr, val), addr) == val,
{
    lemma_bytes(val);
    let now = store(mem, Width::Q, addr, val);
    assert(now(addr) == byte_of(val, 0));
    assert(now(addr + 1) == byte_of(val, 1));
    assert(now(addr + 2) == byte_of(val, 2));
    assert(now(addr + 3) == byte_of(val, 3));
    assert(now(addr + 4) == byte_of(val, 4));
    assert(now(addr + 5) == byte_of(val, 5));
    assert(now(addr + 6) == byte_of(val, 6));
    assert(now(addr + 7) == byte_of(val, 7));
}

proof fn lemma_low_bytes(v: u64, b1: u8, b2: u8, b3: u8, b4: u8, b5: u8, b6: u8, b7: u8)
    by (bit_vector)
    ensures
        ((((v >> 0u64) as u8) as u64) | (((v >> 8u64) as u8) as u64) << 8u64 | (((v
            >> 16u64) as u8) as u64) << 16u64 | (((v >> 24u64) as u8) as u64) << 24u64 | (b4 as u64)
            << 32u64 | (b5 as u64) << 40u64 | (b6 as u64) << 48u64 | (b7 as u64)
            << 56u64) as u32 == v as u32,
        ((((v >> 0u64) as u8) as u64) | (((v >> 8u64) as u8) as u64) << 8u64 | (b2 as u64) << 16u64
            | (b3 as u64) << 24u64 | (b4 as u64) << 32u64 | (b5 as u64) << 40u64 | (b6 as u64)
            << 48u64 | (b7 as u64) << 56u64) as u16 == v as u16,
        ((((v >> 0u64) as u8) as u64) | (b1 as u64) << 8u64 | (b2 as u64) << 16u64 | (b3 as u64)
            << 24u64 | (b4 as u64) << 32u64 | (b5 as u64) << 40u64 | (b6 as u64) << 48u64 | (
        b7 as u64) << 56u64) as u8 == v as u8,
{
}

/// What was stored with a certain width is loaded again with that width.
pub proof fn load_after_narrow_store(mem: spec_fn(int) -> u8, w: Width, addr: int, val: u64)
    ensures
        trunc(w, load(store(mem, w, addr, val), addr)) == trunc(w, val),
{
    let now = store(mem, w, addr, val);
    load_after_store(mem, addr, val);
    lemma_low_bytes(
        val,
        now(addr + 1),
        now(addr + 2),
        now(addr + 3),
        now(addr + 4),
        now(addr + 5),
        now(addr + 6),
        now(addr + 7),
    );
    assert(now(addr) == byte_of(val, 0));
    if !(w is B) {
        assert(now(addr + 1) == byte_of(val, 1));
    }
    if w is D {
        assert(now(addr + 2) == byte_of(val, 2));
        assert(now(addr + 3) == byte_of(val, 3));
    }
}

/// Storing leaves words elsewhere as they are.
pub proof fn load_beside_store(
    mem: spec_fn(int) -> u8,
    w: Width,
    addr: int,
    val: u64,
    other: int,
)
    requires
        other + 8 <= addr || addr + size(w) <= other,
    ensures
        load(store(mem, w, addr, val), other) == load(mem, other),
{
}

/// Loading a constant into a general-purpose register.
pub proof fn lemma_immediate_to_rq(s: State, m: Machine, from: Seq<Insn>, r: RegId, val: Value)
    requires
        s.reached(m, from),
        r < 16,
        r != rq::RSP,
    ensures
        ({
            let t = s.immediate_to_rq(r, val);
            let n = ran(m, from, t.code);
            let before = ran(m, from, s.code);
            &&& t.reached(m, from)
            &&& t == (State { code: t.code, ..s })
            &&& n == (Machine {
                rq: before.rq.update(r as int, val.as_bytes() as u64),
                flags: n.flags,
                ..before
            })
            &&& val.as_bytes() != 0 ==> n.flags == before.flags
            &&& val.as_bytes() == 0 ==> n.flags is Some && n.flags->0.zero
        }),
{
    broadcast use lemma_ran_push;

    let bytes = val.as_bytes();
    let before = ran(m, from, s.code);
    lemma_xor_self(before.rq[r as int]);
    if bytes as u64 <= u32::MAX {
        lemma_small_immediate(bytes);
    }
}

/// Moving a value into a register: the register has it then, and every other register that is
/// in use, the memory and the stack pointer stay as they were.
pub proof fn copy_to_register(
    s: State,
    m: Machine,
    from: Seq<Insn>,
    val: ValueLocation,
    gpr: GPR,
)
    requires
        s.reached(m, from),
        s.regs.wf(),
        val.valid(),
        gpr.valid(),
        gpr != GPR::Rq(rq::RSP),
        !s.regs.is_free(GPR::Rq(rq::RSP)),
        s.copy_value(val, ValueLocation::Reg(gpr)).ok,
    ensures
        ({
            let t = s.copy_value(val, ValueLocation::Reg(gpr));
            let n = ran(m, from, t.code);
            let before = ran(m, from, s.code);
            &&& t.reached(m, from)
            &&& s.ok
            &&& t == (State { code: t.code, ..s })
            &&& n.gpr(gpr) == s.value_of(before, val)
            &&& n.mem == before.mem
            &&& n.rsp == before.rsp
            &&& forall|g: GPR|
                g.valid() && g != gpr && !s.regs.is_free(g) ==> #[trigger] n.gpr(g) == before.gpr(g)
            &&& val.leaves_flags(before, n)
        }),
{
    broadcast use lemma_ran_push;

    let before = ran(m, from, s.code);
    match (val, gpr) {
        (ValueLocation::Immediate(imm), GPR::Rq(r)) => {
            lemma_immediate_to_rq(s, m, from, r, imm);
        },
        (ValueLocation::Immediate(imm), GPR::Rx(r)) => {
            if imm.as_bytes() == 0 {
                lemma_xor_self(before.rx[r as int]);
            } else {
                let (s1, temp) = s.take(GPRType::Rq);
                lemma_lowest_free(s.regs, GPRType::Rq);
                use_then_release(s.regs, temp);
                lemma_immediate_to_rq(s1, m, from, temp.id(), imm);
            }
        },
        _ => {},
    }
}

impl ValueLocation {
    /// Whether this is a constant of which only the lower half is written to a slot.
    pub open spec fn is_small(self) -> bool {
        self is Immediate && self->Immediate_0.as_bytes() as u64 <= u32::MAX
    }
}

/// Moving a value to a slot of the machine's stack: the slot has it then, or its lower half if it
/// is a small constant. Every register that is in use, and all memory but the slot, stay as they
/// were.
pub proof fn copy_to_slot(s: State, m: Machine, from: Seq<Insn>, val: ValueLocation, offset: i32)
    requires
        s.reached(m, from),
        s.regs.wf(),
        val.valid(),
        !s.regs.is_free(GPR::Rq(rq::RSP)),
        s.copy_value(val, ValueLocation::Stack(offset)).ok,
    ensures
        ({
            let t = s.copy_value(val, ValueLocation::Stack(offset));
            let n = ran(m, from, t.code);
            let before = ran(m, from, s.code);
            let addr = before.rsp + s.slot_disp(offset);
            &&& t.reached(m, from)
            &&& s.ok
            &&& t == (State { code: t.code, ..s })
            &&& n.rsp == before.rsp
            &&& trunc(Width::D, load(n.mem, addr)) == trunc(Width::D, s.value_of(before, val))
            &&& !val.is_small() ==> load(n.mem, addr) == s.value_of(before, val)
            &&& forall|a: int|
                !(addr <= a < addr + 8) ==> #[trigger] (n.mem)(a) == (before.mem)(a)
            &&& forall|g: GPR|
                g.valid() && !s.regs.is_free(g) ==> #[trigger] n.gpr(g) == before.gpr(g)
        }),
{
    broadcast use lemma_ran_push;

    let before = ran(m, from, s.code);
    let addr = before.rsp + s.slot_disp(offset);
    let v = s.value_of(before, val);
    load_after_store(before.mem, addr, v);
    match val {
        ValueLocation::Stack(i) => {
            if s.slot_disp(i) != s.slot_disp(offset) {
                lemma_lowest_free(s.regs, GPRType::Rq);
                use_then_release(s.regs, s.regs.lowest_free(GPRType::Rq));
            }
        },
        ValueLocation::Reg(_) => {},
        ValueLocation::Immediate(imm) => {
            let bytes = imm.as_bytes();
            if bytes as u64 <= u32::MAX {
                lemma_small_immediate(bytes);
                let low = trunc(Width::D, ((bytes as i32) as i64) as u64);
                load_after_narrow_store(before.mem, Width::D, addr, low);
            } else {
                lemma_lowest_free(s.regs, GPRType::Rq);
                use_then_release(s.regs, s.regs.lowest_free(GPRType::Rq));
            }
        },
    }
}

impl State {
    /// Whether the step from `self` to `t` brought the value at `val`, which was in hand, into
    /// `gpr`, and changed nothing else that is in use. What is still in hand is `held`.
    pub open spec fn brought(
        self,
        t: State,
        gpr: GPR,
        m: Machine,
        from: Seq<Insn>,
        held: Seq<ValueLocation>,
        val: ValueLocation,
    ) -> bool {
        let before = ran(m, from, self.code);
        let n = ran(m, from, t.code);
        &&& self.ok
        &&& gpr.valid()
        &&& t.reached(m, from)
        &&& grown(self.code, t.code)
        &&& t == (State { code: t.code, regs: t.regs, ..self })
        &&& t.owns(held.push(ValueLocation::Reg(gpr)))
        &&& n.gpr(gpr) == self.value_of(before, val)
        &&& self.same_values(held, before, n)
        &&& val.leaves_flags(before, n)
    }
}

pub proof fn lemma_into_fresh_reg(
    s: State,
    m: Machine,
    from: Seq<Insn>,
    held: Seq<ValueLocation>,
    ty: GPRType,
    val: ValueLocation,
)
    requires
        s.reached(m, from),
        s.owns(held.push(val)),
        s.into_fresh_reg(ty, val).0.ok,
    ensures
        ({
            let (t, gpr) = s.into_fresh_reg(ty, val);
            &&& s.brought(t, gpr, m, from, held, val)
            &&& gpr.type_() == ty
            &&& s.known_uses(held, gpr) == 0
        }),
{
    broadcast use lemma_uses_push;

    let (s1, gpr) = s.take(ty);
    let reg = ValueLocation::Reg(gpr);
    assert(held.push(val)[held.len() as int].valid());
    assert(s1.ok) by {
        assert(s1.copy_value(val, reg).ok);
    }
    taken_is_unused(s, held.push(val), ty);
    let rsp = GPR::Rq(rq::RSP);
    assert(s.regs.count(rsp) >= s.known_uses(held.push(val), rsp));
    assert(s1.regs.count(rsp) > 0);
    copy_to_register(s1, m, from, val, gpr);
    let s2 = s1.copy_value(val, reg);
    lemma_owns_swap(s2, held, val, reg);
    lemma_owns_free(s2, held.push(reg), val);
    let before = ran(m, from, s.code);
    let n = ran(m, from, s2.code);
    assert forall|g: GPR| g.valid() && s.known_uses(held, g) > 0 implies #[trigger] n.gpr(g)
        == before.gpr(g) by {
        assert(s.regs.count(g) >= s.known_uses(held.push(val), g));
        assert(s1.regs.count(g) > 0);
    }
}

/// Putting a value into a register.
pub proof fn lemma_into_reg(
    s: State,
    m: Machine,
    from: Seq<Insn>,
    held: Seq<ValueLocation>,
    ty: Option<GPRType>,
    val: ValueLocation,
)
    requires
        s.reached(m, from),
        s.owns(held.push(val)),
        s.into_reg(ty, val).0.ok,
    ensures
        ({
            let (t, gpr) = s.into_reg(ty, val);
            &&& s.brought(t, gpr, m, from, held, val)
            &&& ty is Some ==> gpr.type_() == ty->0
        }),
{
    if val is Reg && (ty is None || ty->0 == val->Reg_0.type_()) {
        assert(held.push(val)[held.len() as int].valid());
    } else {
        lemma_into_fresh_reg(s, m, from, held, file_or_rq(ty), val);
    }
}

/// Putting a value into a temporary register: no other value is in it.
pub proof fn lemma_into_temp_reg(
    s: State,
    m: Machine,
    from: Seq<Insn>,
    held: Seq<ValueLocation>,
    ty: Option<GPRType>,
    val: ValueLocation,
)
    requires
        s.reached(m, from),
        s.owns(held.push(val)),
        s.into_temp_reg(ty, val).0.ok,
    ensures
        ({
            let (t, gpr) = s.into_temp_reg(ty, val);
            &&& s.brought(t, gpr, m, from, held, val)
            &&& ty is Some ==> gpr.type_() == ty->0
            &&& s.known_uses(held, gpr) == 0
        }),
{
    broadcast use lemma_uses_push;

    if val is Reg {
        let r = val->Reg_0;
        let s1 = s.need(r.valid());
        assert(held.push(val)[held.len() as int].valid());
        if s.regs.count(r) <= 1 && (ty is None || ty->0 == r.type_()) {
            assert(s.regs.count(r) >= s.known_uses(held.push(val), r));
        } else {
            assert(s1 == s);
            lemma_into_fresh_reg(s, m, from, held, file_or_rq(ty), val);
        }
    } else {
        lemma_into_fresh_reg(s, m, from, held, file_or_rq(ty), val);
    }
}

} // verus!
