//! The choice between two values.

use vstd::prelude::*;

use crate::bits::{lemma_i32_views, lemma_u64_views};
use crate::insn::{Cond, Insn, Operand, Width};
use crate::laws::arith::lemma_owns_code;
use crate::laws::{lemma_push_result, none, one, two};
use crate::location::ValueLocation;
use crate::machine::Machine;
use crate::ownership::{
    lemma_owns_free, lemma_owns_pop, lemma_owns_reorder, lemma_uses_push, taken_is_unused,
};
use crate::registers::{rq, GPRType, RegId, GPR};
use crate::simulation::{lemma_into_reg, lemma_ran_nothing, lemma_ran_push, ran};
use crate::state::State;

verus! {

/// Moving a value to a register if a condition holds.
pub proof fn lemma_cmov(
    s: State,
    m: Machine,
    from: Seq<Insn>,
    held: Seq<ValueLocation>,
    cond: Cond,
    out: RegId,
    val: ValueLocation,
)
    requires
        s.reached(m, from),
        s.owns(held.push(ValueLocation::Reg(GPR::Rq(out))).push(val)),
        s.known_uses(held, GPR::Rq(out)) == 0,
        ran(m, from, s.code).flags is Some,
        s.cmov(cond, out, val).ok,
    ensures
        ({
            let t = s.cmov(cond, out, val);
            let before = ran(m, from, s.code);
            let n = ran(m, from, t.code);
            &&& s.ok
            &&& t.reached(m, from)
            &&& t.owns(held.push(ValueLocation::Reg(GPR::Rq(out))))
            &&& t.stack == s.stack
            &&& t.depth == s.depth
            &&& n.flags is Some
            &&& val.leaves_flags(before, n)
            &&& n.rq[out as int] == (if cond.holds(n.flags->0) {
                s.value_of(before, val)
            } else {
                before.rq[out as int]
            })
            &&& s.same_values(held, before, n)
        }),
{
    broadcast use {lemma_ran_push, lemma_uses_push};

    let before = ran(m, from, s.code);
    let o = ValueLocation::Reg(GPR::Rq(out));
    let t = s.cmov(cond, out, val);
    let n = ran(m, from, t.code);
    assert(held.push(o).push(val)[held.len() as int].valid());
    if val is Stack {
        lemma_owns_free(s, held.push(o), val);
        lemma_owns_code(s, t, held.push(o));
        assert(s.same_values(held, before, n));
    } else {
        let (s1, scratch) = s.into_reg(Some(GPRType::Rq), val);
        lemma_into_reg(s, m, from, held.push(o), Some(GPRType::Rq), val);
        let n1 = ran(m, from, s1.code);
        let s2 = s1.emit(Insn::Cmov { cond, dst: out, src: Operand::Gpr(scratch) });
        lemma_owns_code(s1, s2, held.push(o).push(ValueLocation::Reg(scratch)));
        lemma_owns_free(s2, held.push(o), ValueLocation::Reg(scratch));
        assert(s.known_uses(held.push(o), GPR::Rq(out)) > 0);
        assert(n1.gpr(GPR::Rq(out)) == before.gpr(GPR::Rq(out)));
        assert forall|g: GPR| g.valid() && s.known_uses(held, g) > 0 implies #[trigger] n.gpr(g)
            == before.gpr(g) by {
            assert(s.known_uses(held.push(o), g) > 0);
            assert(n1.gpr(g) == before.gpr(g));
        }
    }
}

pub proof fn lemma_test_self(v: u64)
    ensures
        (v & ((v as u32) as u64)) as u32 == v as u32,
{
    lemma_u64_views(v);
}

/// `select` leaves on the stack the lower of the two values below the condition if the condition
/// is not zero, and the upper one otherwise. Where the condition is no constant and not zero,
/// neither of the two values may be the constant zero: loading it changes the flags that decide.
pub proof fn selection(s: State, m: Machine)
    requires
        s.at(m),
        s.select().ok,
        s.stack[s.stack.len() - 1] is Immediate || s.top(m, 0) as u32 == 0
            || !s.stack[s.stack.len() - 2].is_zero() && !s.stack[s.stack.len() - 3].is_zero(),
    ensures
        s.computes(
            s.select(),
            m,
            3,
            Width::Q,
            if s.top(m, 0) as u32 == 0 {
                s.top(m, 1)
            } else {
                s.top(m, 2)
            },
        ),
{
    broadcast use {lemma_ran_push, lemma_ran_nothing, lemma_uses_push};

    let len = s.stack.len() as int;
    let (s1, cond) = s.pop();
    let (s2, else_) = s1.pop();
    let (s3, then_) = s2.pop();
    lemma_owns_pop(s, none());
    lemma_owns_pop(s1, one(cond));
    lemma_owns_pop(s2, two(cond, else_));
    assert(s3.stack =~= s.stack.take(len - 3));
    if cond is Immediate {
        let imm = cond->Immediate_0;
        let val = if imm.as_i32()->0 == 0 {
            else_
        } else {
            then_
        };
        lemma_owns_reorder(s3, two(cond, else_).push(then_), one(val));
        lemma_zero_bytes(imm.as_i32()->0);
        lemma_push_result(s, s3, m, 3, val);
        assert(s3.value_of(m, val) == s.value_of(m, val));
    } else {
        lemma_owns_reorder(s3, two(cond, else_).push(then_), two(then_, else_).push(cond));
        let (s4, reg) = s3.into_reg(Some(GPRType::Rq), cond);
        lemma_into_reg(s3, m, s.code, two(then_, else_), Some(GPRType::Rq), cond);
        assert(reg.id() != rq::RSP) by {
            assert(two(then_, else_).push(ValueLocation::Reg(reg))[2].valid());
        }
        let s5 = s4.emit(Insn::Test { w: Width::D, left: reg.id(), right: Operand::Gpr(reg) });
        lemma_owns_code(s4, s5, two(then_, else_).push(ValueLocation::Reg(reg)));
        lemma_owns_free(s5, two(then_, else_), ValueLocation::Reg(reg));
        let s6 = s5.release(reg);
        let (s7, out) = s6.take(GPRType::Rq);
        taken_is_unused(s6, two(then_, else_), GPRType::Rq);
        let o = ValueLocation::Reg(out);
        lemma_owns_reorder(s7, two(then_, else_).push(o), two(then_, o).push(else_));
        let s8 = s7.cmov(Cond::E, out.id(), else_);
        let s9 = s8.cmov(Cond::Ne, out.id(), then_);
        assert(s8.ok && s7.ok);
        let n4 = ran(m, s.code, s4.code);
        let n7 = ran(m, s.code, s7.code);
        assert(n7.flags is Some);
        lemma_cmov(s7, m, s.code, one(then_), Cond::E, out.id(), else_);
        lemma_owns_reorder(s8, two(then_, o), two(o, then_));
        lemma_cmov(s8, m, s.code, none(), Cond::Ne, out.id(), then_);
        let n8 = ran(m, s.code, s8.code);
        let n9 = ran(m, s.code, s9.code);
        lemma_test_self(s.value_of(m, cond));
        assert(n7.flags->0.zero == (s.value_of(m, cond) as u32 == 0));
        assert(two(then_, else_).push(cond)[0].valid());
        assert(two(then_, else_).push(cond)[1].valid());
        assert(s7.value_of(n7, else_) == s.value_of(m, else_)) by {
            if else_ is Reg {
                assert(s3.known_uses(two(then_, else_), else_->Reg_0) > 0);
                assert(n4.gpr(else_->Reg_0) == m.gpr(else_->Reg_0));
            }
        }
        assert(s8.value_of(n8, then_) == s.value_of(m, then_)) by {
            if then_ is Reg {
                assert(s3.known_uses(two(then_, else_), then_->Reg_0) > 0);
                assert(n4.gpr(then_->Reg_0) == m.gpr(then_->Reg_0));
                assert(s7.known_uses(one(then_), then_->Reg_0) > 0);
                assert(n8.gpr(then_->Reg_0) == n7.gpr(then_->Reg_0));
            }
        }
        assert(s9.same_values(none(), m, n9)) by {
            assert forall|g: GPR|
                g.valid() && s9.known_uses(none(), g) > 0 implies #[trigger] n9.gpr(
                g,
            ) == m.gpr(g) by {
                assert(s3.known_uses(two(then_, else_), g) > 0);
                assert(n4.gpr(g) == m.gpr(g));
                assert(s7.known_uses(one(then_), g) > 0);
                assert(n8.gpr(g) == n7.gpr(g));
                assert(n9.gpr(g) == n8.gpr(g));
            }
        }
        lemma_push_result(s, s9, m, 3, o);
    }
}

proof fn lemma_zero_bytes(a: i32)
    ensures
        ((((a as u32) as i64) as u64) as u32 == 0) == (a == 0),
{
    lemma_i32_views(a);
}

} // verus!
