//! Shifts and rotations.

use vstd::prelude::*;

use crate::bits::{lemma_i32_views, lemma_i64_views};
use crate::insn::{Insn, Operand, ShiftOp, Width};
use crate::laws::arith::lemma_owns_code;
use crate::laws::{lemma_push_result, none, one, two};
use crate::location::ValueLocation;
use crate::machine::{shifted, Machine};
use crate::ownership::{
    lemma_owns_free, lemma_owns_mark_used, lemma_owns_pop, lemma_owns_reorder, lemma_uses_push,
    taken_is_unused,
};
use crate::registers::{rq, GPRType, GPR};
use crate::simulation::{
    lemma_into_fresh_reg, lemma_into_temp_reg, lemma_ran_nothing, lemma_ran_push, ran,
};
use crate::state::State;

verus! {

/// The register that shifts take their count from.
pub open spec fn rcx() -> GPR {
    GPR::Rq(rq::RCX)
}

proof fn lemma_low_byte(old: u64, v: u64)
    by (bit_vector)
    ensures
        ((old & !0xffu64) | ((v as u8) as u64)) % 64 == v % 64,
        ((v as u8) as u64) as u8 == v as u8,
{
}

proof fn lemma_imm_byte(imm: i64)
    ensures
        (((imm as i8) as i64) as u64) as u8 == (imm as u64) as u8,
{
    lemma_i64_views(imm);
}

proof fn lemma_imm_byte_32(imm: i32)
    ensures
        ((imm as i64) as u64) as u8 == (((imm as u32) as i64) as u64) as u8,
{
    lemma_i32_views(imm);
}

/// Loading a count into `cl`.
proof fn lemma_load_cl(s: State, m: Machine, from: Seq<Insn>, count: ValueLocation)
    requires
        s.reached(m, from),
        count.valid(),
        s.load_cl(count).ok,
    ensures
        ({
            let t = s.load_cl(count);
            let before = ran(m, from, s.code);
            let n = ran(m, from, t.code);
            &&& s.ok
            &&& t.reached(m, from)
            &&& t == (State { code: t.code, ..s })
            &&& n == before.with_gpr(rcx(), n.gpr(rcx()))
            &&& n.gpr(rcx()) % 64 == s.value_of(before, count) % 64
        }),
{
    broadcast use lemma_ran_push;

    let before = ran(m, from, s.code);
    let v = s.value_of(before, count);
    lemma_low_byte(before.gpr(rcx()), v);
    if count is Immediate {
        let imm = count->Immediate_0;
        lemma_imm_byte(imm.as_int()->0);
        if imm is I32 {
            lemma_imm_byte_32(imm->I32_0);
        }
    }
}

/// Putting the count into `cl`: what else `rcx` held is saved, if it is in use.
proof fn lemma_count_to_cl(
    s: State,
    m: Machine,
    from: Seq<Insn>,
    count: ValueLocation,
    val: ValueLocation,
)
    requires
        s.reached(m, from),
        s.owns(two(val, count)),
        val != ValueLocation::Reg(rcx()),
        s.count_to_cl(count).0.ok,
    ensures
        ({
            let (t, saved) = s.count_to_cl(count);
            let before = ran(m, from, s.code);
            let n = ran(m, from, t.code);
            &&& s.ok
            &&& t.reached(m, from)
            &&& t == (State { code: t.code, regs: t.regs, ..s })
            &&& n.mem == before.mem
            &&& n.rsp == before.rsp
            &&& n.gpr(rcx()) % 64 == s.value_of(before, count) % 64
            &&& match saved {
                Some(g) => {
                    &&& g.valid()
                    &&& g is Rq
                    &&& g != rcx()
                    &&& s.known_uses(two(val, count), g) == 0
                    &&& n.gpr(g) == before.gpr(rcx())
                    &&& t.owns(one(ValueLocation::Reg(g)).push(val).push(count))
                },
                None => {
                    &&& t.owns(two(val, count))
                    &&& n.gpr(rcx()) == before.gpr(rcx()) || s.known_uses(none(), rcx()) == 0
                },
            }
            &&& forall|g: GPR|
                g.valid() && g != rcx() && saved != Some(g) ==> #[trigger] n.gpr(g) == before.gpr(g)
        }),
{
    broadcast use {lemma_ran_push, lemma_uses_push};

    let before = ran(m, from, s.code);
    assert(two(val, count)[1].valid());
    assert(s.regs.count(rcx()) >= s.known_uses(two(val, count), rcx()));
    if count == ValueLocation::Reg(rcx()) {
    } else if s.regs.is_free(rcx()) {
        lemma_load_cl(s, m, from, count);
        lemma_owns_code(s, s.load_cl(count), two(val, count));
    } else {
        let (s1, g) = s.take(GPRType::Rq);
        taken_is_unused(s, two(val, count), GPRType::Rq);
        let s2 = s1.emit(
            Insn::Mov { w: Width::Q, dst: Operand::Gpr(g), src: Operand::rq(rq::RCX) },
        );
        let n2 = ran(m, from, s2.code);
        assert(n2 == before.with_gpr(g, before.gpr(rcx())));
        assert(s2.value_of(n2, count) == s.value_of(before, count));
        lemma_load_cl(s2, m, from, count);
        let t = s2.load_cl(count);
        lemma_owns_code(s1, t, two(val, count).push(ValueLocation::Reg(g)));
        lemma_owns_reorder(
            t,
            two(val, count).push(ValueLocation::Reg(g)),
            one(ValueLocation::Reg(g)).push(val).push(count),
        );
    }
}

/// Only as many bits of the count matter as there are positions.
proof fn lemma_shift_count(op: ShiftOp, w: Width, val: u64, a: u64, b: u64)
    requires
        w is D || w is Q,
        a % 64 == b % 64,
    ensures
        shifted(op, w, val, a) == shifted(op, w, val, b),
{
    assert(a % 32 == b % 32) by (bit_vector)
        requires
            a % 64 == b % 64,
    ;
}

/// The shift itself, once the count is in `cl`, and the restoring of `rcx`.
proof fn lemma_shift_by_cl(
    s: State,
    m: Machine,
    from: Seq<Insn>,
    op: ShiftOp,
    w: Width,
    val: ValueLocation,
    saved: Option<GPR>,
)
    requires
        s.reached(m, from),
        w is D || w is Q,
        val != ValueLocation::Reg(rcx()),
        match saved {
            Some(g) => {
                &&& g.valid()
                &&& g is Rq
                &&& g != rcx()
                &&& val != ValueLocation::Reg(g)
                &&& s.known_uses(none(), g) == 0
                &&& s.owns(one(ValueLocation::Reg(g)).push(val))
            },
            None => s.owns(one(val)),
        },
        s.shift_by_cl(op, w, val, saved).0.ok,
    ensures
        ({
            let (t, reg) = s.shift_by_cl(op, w, val, saved);
            let before = ran(m, from, s.code);
            let n = ran(m, from, t.code);
            &&& reg is Rq
            &&& reg.valid()
            &&& t.reached(m, from)
            &&& t.owns(one(ValueLocation::Reg(reg)))
            &&& t.stack == s.stack
            &&& t.depth == s.depth
            &&& n.mem == before.mem
            &&& n.rsp == before.rsp
            &&& n.gpr(reg) == shifted(op, w, s.value_of(before, val), before.gpr(rcx()))
            &&& n.gpr(rcx()) == (match saved {
                Some(g) => before.gpr(g),
                None => before.gpr(rcx()),
            })
            &&& forall|g: GPR|
                g.valid() && g != rcx() && s.known_uses(none(), g) > 0 ==> #[trigger] n.gpr(g)
                    == before.gpr(g)
        }),
{
    broadcast use {lemma_ran_push, lemma_uses_push};

    let before = ran(m, from, s.code);
    let c = ValueLocation::Reg(rcx());
    let h = match saved {
        Some(g) => one(ValueLocation::Reg(g)),
        None => none(),
    };
    assert(h.push(val)[h.len() as int].valid());
    let s0 = s.mark_used(rcx());
    lemma_owns_mark_used(s, h.push(val), rcx());
    lemma_owns_reorder(s0, h.push(val).push(c), h.push(c).push(val));
    let (s1, reg) = s0.into_temp_reg(Some(GPRType::Rq), val);
    let r = ValueLocation::Reg(reg);
    lemma_into_temp_reg(s0, m, from, h.push(c), Some(GPRType::Rq), val);
    assert(s0.known_uses(none(), reg) == 0);
    assert(reg != rcx());
    assert(saved is Some ==> saved->0 != reg);
    let n1 = ran(m, from, s1.code);
    assert(s0.known_uses(h.push(c), rcx()) > 0);
    assert(n1.gpr(rcx()) == before.gpr(rcx()));
    if saved is Some {
        assert(s0.known_uses(h.push(c), saved->0) > 0);
        assert(n1.gpr(saved->0) == before.gpr(saved->0));
    }
    let s2 = s1.emit(Insn::Shift { op, w, dst: reg.id() });
    lemma_owns_code(s1, s2, h.push(c).push(r));
    lemma_owns_reorder(s2, h.push(c).push(r), h.push(r).push(c));
    lemma_owns_free(s2, h.push(r), c);
    let s3 = s2.release(rcx());
    let n3 = ran(m, from, s3.code);
    assert forall|g: GPR|
        g.valid() && g != rcx() && s.known_uses(none(), g) > 0 implies #[trigger] n3.gpr(
        g,
    ) == before.gpr(g) by {
        assert(s0.known_uses(h.push(c), g) > 0);
        assert(n1.gpr(g) == before.gpr(g));
    }
    match saved {
        Some(g) => {
            let s4 = s3.emit(
                Insn::Mov { w: Width::Q, dst: Operand::Gpr(rcx()), src: Operand::Gpr(g) },
            );
            lemma_owns_code(s3, s4, h.push(r));
            lemma_owns_reorder(s4, h.push(r), two(r, ValueLocation::Reg(g)));
            lemma_owns_free(s4, one(r), ValueLocation::Reg(g));
            let n4 = ran(m, from, s4.code);
            assert forall|g: GPR|
                g.valid() && g != rcx() && s.known_uses(none(), g) > 0 implies #[trigger] n4.gpr(
                g,
            ) == before.gpr(g) by {
                assert(n3.gpr(g) == before.gpr(g));
            }
        },
        None => {},
    }
}

/// Shifting a value that is in hand by another one. The values below are those of `s`.
#[verifier::rlimit(40)]
proof fn lemma_shift_by(
    s: State,
    u: State,
    m: Machine,
    op: ShiftOp,
    w: Width,
    val: ValueLocation,
    count: ValueLocation,
)
    requires
        s.at(m),
        w is D || w is Q,
        s.stack.len() >= 2,
        u.reached(m, s.code),
        u.stack == s.stack.take(s.stack.len() - 2),
        u.depth == s.depth,
        u.owns(two(val, count)),
        u.same_values(none(), m, ran(m, s.code, u.code)),
        val != ValueLocation::Reg(rcx()),
        u.shift_by(op, w, val, count).ok,
    ensures
        ({
            let before = ran(m, s.code, u.code);
            s.computes(
                u.shift_by(op, w, val, count),
                m,
                2,
                w,
                shifted(op, w, u.value_of(before, val), u.value_of(before, count)),
            )
        }),
{
    broadcast use lemma_uses_push;

    let before = ran(m, s.code, u.code);
    let (s4, saved) = u.count_to_cl(count);
    let s5 = s4.free_value(count);
    assert(s4.ok && s5.ok);
    assert(two(val, count)[0].valid());
    lemma_count_to_cl(u, m, s.code, count, val);
    let n4 = ran(m, s.code, s4.code);
    match saved {
        Some(g) => lemma_owns_free(s4, one(ValueLocation::Reg(g)).push(val), count),
        None => lemma_owns_free(s4, one(val), count),
    }
    assert(s4.value_of(n4, val) == u.value_of(before, val));
    lemma_shift_by_cl(s5, m, s.code, op, w, val, saved);
    lemma_shift_count(
        op,
        w,
        u.value_of(before, val),
        n4.gpr(rcx()),
        u.value_of(before, count),
    );
    let (s6, reg) = s5.shift_by_cl(op, w, val, saved);
    let n6 = ran(m, s.code, s6.code);
    assert forall|g: GPR| g.valid() && s6.known_uses(none(), g) > 0 implies #[trigger] n6.gpr(g)
        == m.gpr(g) by {
        assert(before.gpr(g) == m.gpr(g));
        if g != rcx() {
            assert(u.known_uses(two(val, count), g) > 0);
            assert(n4.gpr(g) == before.gpr(g));
            assert(s5.known_uses(none(), g) > 0);
            assert(n6.gpr(g) == n4.gpr(g));
        }
    }
    lemma_push_result(s, s6, m, 2, ValueLocation::Reg(reg));
}

/// The shifts and rotations leave on the stack the value below the top, shifted by the top.
pub proof fn shifting(s: State, m: Machine, op: ShiftOp, w: Width)
    requires
        s.at(m),
        s.shift(op, w).ok,
        w is D || w is Q,
    ensures
        s.computes(s.shift(op, w), m, 2, w, shifted(op, w, s.top(m, 1), s.top(m, 0))),
{
    broadcast use {lemma_ran_nothing, lemma_uses_push};

    let n = s.stack.len() as int;
    let (s1, count) = s.pop();
    let (s2, val) = s1.pop();
    lemma_owns_pop(s, none());
    lemma_owns_pop(s1, one(count));
    assert(s2.stack =~= s.stack.take(n - 2));
    assert(two(count, val)[0].valid());
    if val == ValueLocation::Reg(rcx()) {
        let (s3, reg) = s2.into_fresh_reg(GPRType::Rq, val);
        let moved = ValueLocation::Reg(reg);
        assert(s3.ok);
        lemma_into_fresh_reg(s2, m, s.code, one(count), GPRType::Rq, val);
        lemma_owns_reorder(s3, two(count, moved), two(moved, count));
        let n3 = ran(m, s.code, s3.code);
        assert(s3.value_of(n3, count) == s.value_of(m, count)) by {
            if count is Reg {
                assert(s2.known_uses(one(count), count->Reg_0) > 0);
                assert(n3.gpr(count->Reg_0) == m.gpr(count->Reg_0));
            }
        }
        assert(s3.same_values(none(), m, n3)) by {
            assert forall|g: GPR|
                g.valid() && s3.known_uses(none(), g) > 0 implies #[trigger] n3.gpr(
                g,
            ) == m.gpr(g) by {
                assert(s2.known_uses(one(count), g) > 0);
            }
        }
        assert(reg != rcx()) by {
            let (t3, t) = s2.take(GPRType::Rq);
            taken_is_unused(s2, two(count, val), GPRType::Rq);
        }
        lemma_shift_by(s, s3, m, op, w, moved, count);
    } else {
        lemma_owns_reorder(s2, two(count, val), two(val, count));
        lemma_shift_by(s, s2, m, op, w, val, count);
    }
}

} // verus!
